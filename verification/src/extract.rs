//! Which kind of content a file holds, and its text.

use vstd::prelude::*;
use vstd::utf8::{encode_utf8, valid_utf8};
use crate::text::{
    chars_of, lowercased, same_text, slice_chars, str_to_lowercase, string_of, trim_str, trimmed,
};

verus! {

/// The kinds of content that can be ingested.
#[derive(Debug, Clone, Copy, PartialEq, Eq, Structural)]
pub enum ContentKind {
    Text,
    Markdown,
    Json,
    Pdf,
    Unsupported,
}

/// The part of `s` before its first `c`, or all of `s` where `c` does not
/// occur.
pub open spec fn before_first(s: Seq<char>, c: char) -> Seq<char>
    decreases s.len(),
{
    if s.len() == 0 || s[0] == c {
        Seq::empty()
    } else {
        seq![s[0]] + before_first(s.drop_first(), c)
    }
}

/// The part of `s` before its first `c`.
pub fn text_before(s: &str, c: char) -> (out: String)
    ensures
        out@ == before_first(s@, c),
{
    let cs = chars_of(s);
    let mut i: usize = 0;
    assert(cs@.skip(0) =~= cs@);
    assert(cs@.take(0) + before_first(cs@.skip(0), c) =~= before_first(cs@, c));
    while i < cs.len() && cs[i] != c
        invariant
            i <= cs.len(),
            before_first(cs@, c) == cs@.take(i as int) + before_first(cs@.skip(i as int), c),
        decreases cs.len() - i,
    {
        proof {
            let rest = cs@.skip(i as int);
            assert(rest[0] == cs@[i as int]);
            assert(rest.drop_first() =~= cs@.skip(i + 1));
            assert(cs@.take(i + 1) =~= cs@.take(i as int) + seq![cs@[i as int]]);
            assert(cs@.take(i as int) + (seq![rest[0]] + before_first(rest.drop_first(), c))
                =~= cs@.take(i + 1) + before_first(cs@.skip(i + 1), c));
        }
        i += 1;
    }
    proof {
        let rest = cs@.skip(i as int);
        if i < cs.len() {
            assert(rest[0] == cs@[i as int]);
        }
        assert(before_first(rest, c) =~= Seq::<char>::empty());
        assert(cs@.take(i as int) + Seq::<char>::empty() =~= cs@.take(i as int));
    }
    string_of(&slice_chars(&cs, 0, i))
}

/// The media type of the header value `mime_type`: what stands before its
/// parameters, trimmed and in lower case.
pub open spec fn media_type_of(mime_type: Seq<char>) -> Seq<char> {
    lowercased(trimmed(before_first(mime_type, ';')))
}

/// The media type of the header value `mime_type`.
pub fn media_type(mime_type: &str) -> (out: String)
    ensures
        out@ == media_type_of(mime_type@),
{
    let head = text_before(mime_type, ';');
    let t = trim_str(head.as_str());
    str_to_lowercase(t.as_str())
}

/// The position behind the last `c` of `s`, or 0 where `c` does not occur.
pub open spec fn after_last(s: Seq<char>, c: char) -> int
    decreases s.len(),
{
    if s.len() == 0 {
        0
    } else if s.last() == c {
        s.len() as int
    } else {
        after_last(s.drop_last(), c)
    }
}

/// The position behind the last `c` of `s`.
pub fn position_after_last(s: &Vec<char>, c: char) -> (p: usize)
    ensures
        p == after_last(s@, c),
        p <= s@.len(),
{
    let mut i: usize = s.len();
    assert(s@.take(i as int) =~= s@);
    while i > 0 && s[i - 1] != c
        invariant
            i <= s.len(),
            after_last(s@, c) == after_last(s@.take(i as int), c),
        decreases i,
    {
        proof {
            let t = s@.take(i as int);
            assert(t.last() == s@[i - 1]);
            assert(t.drop_last() =~= s@.take(i - 1));
        }
        i -= 1;
    }
    proof {
        let t = s@.take(i as int);
        if i > 0 {
            assert(t.last() == s@[i - 1]);
        }
    }
    i
}

/// The last component of the path `name`, with `/` between components:
/// separators at the end and components that are a single dot do not count.
/// It is empty where nothing is left.
pub open spec fn last_component(name: Seq<char>) -> Seq<char>
    decreases name.len(),
{
    if name.len() == 0 {
        name
    } else if name.last() == '/' {
        last_component(name.drop_last())
    } else {
        let base = name.skip(after_last(name, '/'));
        if base == seq!['.'] {
            last_component(name.drop_last())
        } else {
            base
        }
    }
}

/// The last component of the path `name`.
pub fn last_component_of(name: &str) -> (base: Vec<char>)
    ensures
        base@ == last_component(name@),
{
    let mut cs = chars_of(name);
    let mut start: usize = 0;
    let mut done = false;
    while !done
        invariant
            last_component(name@) == last_component(cs@),
            start <= cs@.len(),
            done ==> cs@.skip(start as int) == last_component(cs@),
        decreases cs@.len() + (if done { 0int } else { 1int }),
    {
        let n = cs.len();
        if n == 0 {
            start = 0;
            done = true;
            assert(cs@.skip(0) =~= cs@);
        } else if cs[n - 1] == '/' {
            cs.pop();
            start = 0;
        } else {
            let p = position_after_last(&cs, '/');
            proof {
                if p == n {
                    lemma_after_last_at(cs@, '/');
                }
            }
            let ghost base = cs@.skip(p as int);
            if n - p == 1 && cs[p] == '.' {
                assert(base =~= seq!['.']);
                cs.pop();
                start = 0;
            } else {
                proof {
                    if base == seq!['.'] {
                        assert(base.len() == 1);
                        assert(base[0] == '.');
                        assert(cs@[p as int] == base[0]);
                    }
                }
                start = p;
                done = true;
            }
        }
    }
    let n = cs.len();
    let base = slice_chars(&cs, start, n);
    assert(base@ =~= cs@.skip(start as int));
    base
}

/// Where `after_last` is the length of a text that is not empty, the text
/// ends in the character.
proof fn lemma_after_last_at(s: Seq<char>, c: char)
    requires
        s.len() > 0,
        after_last(s, c) == s.len(),
    ensures
        s.last() == c,
{
    if s.last() != c {
        lemma_after_last_bound(s.drop_last(), c);
    }
}

/// `after_last` lies within the text.
proof fn lemma_after_last_bound(s: Seq<char>, c: char)
    ensures
        0 <= after_last(s, c) <= s.len(),
    decreases s.len(),
{
    if s.len() > 0 && s.last() != c {
        lemma_after_last_bound(s.drop_last(), c);
    }
}

/// The extension of the file name `name`: what stands behind the last dot of
/// its last path component, where that component has a dot that is not its
/// first character and is not two dots.
pub open spec fn extension_of(name: Seq<char>) -> Option<Seq<char>> {
    let base = last_component(name);
    let dot = after_last(base, '.');
    if dot <= 1 || base == seq!['.', '.'] {
        None
    } else {
        Some(base.skip(dot))
    }
}

/// The extension of the file name `name`.
pub fn file_extension(name: &str) -> (r: Option<String>)
    ensures
        match r {
            Some(e) => extension_of(name@) == Some(e@),
            None => extension_of(name@) is None,
        },
{
    let base = last_component_of(name);
    let dot = position_after_last(&base, '.');
    if dot <= 1 {
        return None;
    }
    if base.len() == 2 && base[0] == '.' && base[1] == '.' {
        assert(base@ =~= seq!['.', '.']);
        return None;
    }
    proof {
        if base@ == seq!['.', '.'] {
            assert(base@.len() == 2);
            assert(base@[0] == '.' && base@[1] == '.');
        }
    }
    let ext = slice_chars(&base, dot, base.len());
    assert(ext@ =~= base@.skip(dot as int));
    Some(string_of(&ext))
}

/// The kind of content that the media type `mime` names, if it names one.
pub open spec fn kind_of_media_type(mime: Seq<char>) -> Option<ContentKind> {
    if mime == "text/plain"@ {
        Some(ContentKind::Text)
    } else if mime == "text/markdown"@ {
        Some(ContentKind::Markdown)
    } else if mime == "application/json"@ {
        Some(ContentKind::Json)
    } else if mime == "application/pdf"@ {
        Some(ContentKind::Pdf)
    } else {
        None
    }
}

/// The kind of content that the file extension `ext` names.
pub open spec fn kind_of_extension(ext: Seq<char>) -> ContentKind {
    if ext == "txt"@ {
        ContentKind::Text
    } else if ext == "md"@ || ext == "markdown"@ {
        ContentKind::Markdown
    } else if ext == "json"@ {
        ContentKind::Json
    } else if ext == "pdf"@ {
        ContentKind::Pdf
    } else {
        ContentKind::Unsupported
    }
}

/// The kind of content of a file: by its media type, or else by the
/// extension of its name, in lower case.
pub open spec fn content_kind_of(mime_type: Seq<char>, filename: Option<Seq<char>>) -> ContentKind {
    match kind_of_media_type(media_type_of(mime_type)) {
        Some(kind) => kind,
        None => match filename {
            Some(name) => kind_of_extension(
                lowercased(
                    match extension_of(name) {
                        Some(e) => e,
                        None => Seq::empty(),
                    },
                ),
            ),
            None => ContentKind::Unsupported,
        },
    }
}

/// Detects the kind of content of a file.
pub fn detect_content_kind(mime_type: &str, filename: Option<&str>) -> (kind: ContentKind)
    ensures
        kind == content_kind_of(
            mime_type@,
            match filename {
                Some(n) => Some(n@),
                None => None,
            },
        ),
{
    let mime = media_type(mime_type);
    if same_text(mime.as_str(), "text/plain") {
        return ContentKind::Text;
    }
    if same_text(mime.as_str(), "text/markdown") {
        return ContentKind::Markdown;
    }
    if same_text(mime.as_str(), "application/json") {
        return ContentKind::Json;
    }
    if same_text(mime.as_str(), "application/pdf") {
        return ContentKind::Pdf;
    }
    match filename {
        None => ContentKind::Unsupported,
        Some(name) => {
            let ext = match file_extension(name) {
                Some(e) => e,
                None => String::new(),
            };
            let low = str_to_lowercase(ext.as_str());
            if same_text(low.as_str(), "txt") {
                ContentKind::Text
            } else if same_text(low.as_str(), "md") || same_text(low.as_str(), "markdown") {
                ContentKind::Markdown
            } else if same_text(low.as_str(), "json") {
                ContentKind::Json
            } else if same_text(low.as_str(), "pdf") {
                ContentKind::Pdf
            } else {
                ContentKind::Unsupported
            }
        },
    }
}

/// The bytes are no UTF-8.
#[derive(Debug, Clone, Copy, PartialEq, Eq)]
pub struct InvalidUtf8;

/// Decodes bytes as UTF-8.
///
/// Wraps `String::from_utf8`, which returns the string whose UTF-8 encoding
/// the bytes are, or fails where the bytes are no valid UTF-8.
#[verifier::external_body]
pub(crate) fn decode_utf8_bytes(bytes: Vec<u8>) -> (r: Result<String, InvalidUtf8>)
    ensures
        match r {
            Ok(s) => valid_utf8(bytes@) && encode_utf8(s@) == bytes@,
            Err(_) => !valid_utf8(bytes@),
        },
{
    match String::from_utf8(bytes) {
        Ok(s) => Ok(s),
        Err(_) => Err(InvalidUtf8),
    }
}

/// The text whose UTF-8 encoding `bytes` is.
pub fn extract_utf8(bytes: &[u8]) -> (r: Result<String, InvalidUtf8>)
    ensures
        match r {
            Ok(s) => valid_utf8(bytes@) && encode_utf8(s@) == bytes@,
            Err(_) => !valid_utf8(bytes@),
        },
{
    decode_utf8_bytes(crate::crypto::copy_bytes(bytes))
}

} // verus!
