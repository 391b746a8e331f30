//! Content policies: what may be ingested, and what is masked.

use vstd::prelude::*;
use crate::text::{
    chars_of, contains_str, contains_text, fields, join_strs, joined, lowercased, split_whitespace,
    str_to_lowercase, texts_of,
};

verus! {

/// Why a content policy turns a text down.
#[derive(Debug, PartialEq, Eq)]
pub enum PolicyError {
    ForbiddenContent(String),
}

impl PolicyError {
    /// The message of the error, as characters.
    pub open spec fn message_text(&self) -> Seq<char> {
        match self {
            PolicyError::ForbiddenContent(w) => "Forbidden content detected: "@ + w@,
        }
    }

    /// The message of the error.
    pub fn message(&self) -> (s: String)
        ensures
            s@ == self.message_text(),
    {
        match self {
            PolicyError::ForbiddenContent(w) => {
                let mut s = "Forbidden content detected: ".to_owned();
                s.append(w.as_str());
                s
            },
        }
    }
}

/// A policy that lets a text pass, maybe changed, or turns it down.
pub trait ContentPolicy {
    /// What the policy makes of `text`: the text that passes, or the word for
    /// which it is turned down.
    spec fn outcome(&self, text: Seq<char>) -> Result<Seq<char>, Seq<char>>;

    fn apply(&self, text: &str) -> (r: Result<String, PolicyError>)
        ensures
            match r {
                Ok(t) => self.outcome(text@) == Ok::<Seq<char>, Seq<char>>(t@),
                Err(PolicyError::ForbiddenContent(w)) => self.outcome(text@) == Err::<
                    Seq<char>,
                    Seq<char>,
                >(w@),
            },
    ;
}

/// The policy that lets every text pass as it is.
#[derive(Debug, Clone, Copy, PartialEq, Eq)]
pub struct NoOpPolicy;

impl ContentPolicy for NoOpPolicy {
    open spec fn outcome(&self, text: Seq<char>) -> Result<Seq<char>, Seq<char>> {
        Ok(text)
    }

    fn apply(&self, text: &str) -> (r: Result<String, PolicyError>) {
        Ok(text.to_owned())
    }
}

/// Whether the word `token` looks like an e-mail address: it holds an `@` and
/// a dot.
pub open spec fn is_email_like(token: Seq<char>) -> bool {
    token.contains('@') && token.contains('.')
}

/// The number of decimal digits among the first `n` characters of `token`.
pub open spec fn digit_count(token: Seq<char>, n: int) -> int
    decreases n,
{
    if n <= 0 {
        0
    } else {
        digit_count(token, n - 1) + (if '0' <= token[n - 1] && token[n - 1] <= '9' {
            1int
        } else {
            0int
        })
    }
}

/// Whether the word `token` looks like a phone number: it holds seven decimal
/// digits or more.
pub open spec fn is_phone_like(token: Seq<char>) -> bool {
    digit_count(token, token.len() as int) >= 7
}

/// Whether `token` looks like an e-mail address.
pub fn looks_like_email(token: &str) -> (r: bool)
    ensures
        r == is_email_like(token@),
{
    let cs = chars_of(token);
    let mut has_at = false;
    let mut has_dot = false;
    let mut i: usize = 0;
    while i < cs.len()
        invariant
            i <= cs.len(),
            has_at == cs@.take(i as int).contains('@'),
            has_dot == cs@.take(i as int).contains('.'),
        decreases cs.len() - i,
    {
        proof {
            let t0 = cs@.take(i as int);
            let t1 = cs@.take(i + 1);
            assert(t1 =~= t0.push(cs@[i as int]));
            assert forall|c: char| t1.contains(c) <==> (t0.contains(c) || c == cs@[i as int]) by {
                if t1.contains(c) {
                    let j = choose|j: int| 0 <= j < t1.len() && t1[j] == c;
                    if j < i {
                        assert(t0[j] == c);
                    }
                }
                if t0.contains(c) {
                    let j = choose|j: int| 0 <= j < t0.len() && t0[j] == c;
                    assert(t1[j] == c);
                }
                if c == cs@[i as int] {
                    assert(t1[i as int] == c);
                }
            }
        }
        if cs[i] == '@' {
            has_at = true;
        }
        if cs[i] == '.' {
            has_dot = true;
        }
        i += 1;
    }
    assert(cs@.take(cs.len() as int) =~= cs@);
    has_at && has_dot
}

/// Whether `token` looks like a phone number.
pub fn looks_like_phone(token: &str) -> (r: bool)
    ensures
        r == is_phone_like(token@),
{
    let cs = chars_of(token);
    let mut count: usize = 0;
    let mut i: usize = 0;
    while i < cs.len()
        invariant
            i <= cs.len(),
            count == digit_count(cs@, i as int),
            count <= i,
        decreases cs.len() - i,
    {
        if '0' <= cs[i] && cs[i] <= '9' {
            count += 1;
        }
        i += 1;
    }
    count >= 7
}

/// The word that takes the place of `token` when personal data is masked.
pub open spec fn masked_token(token: Seq<char>) -> Seq<char> {
    if is_email_like(token) {
        "[EMAIL]"@
    } else if is_phone_like(token) {
        "[PHONE]"@
    } else {
        token
    }
}

/// The text `text` with personal data masked: its words, each masked where it
/// looks like an e-mail address or a phone number, with single blanks between
/// them.
pub open spec fn masked_text(text: Seq<char>) -> Seq<char> {
    joined(fields(text).map_values(|t: Seq<char>| masked_token(t)), " "@)
}

/// Masks the personal data of `text`.
pub fn mask_pii(text: &str) -> (out: String)
    ensures
        out@ == masked_text(text@),
{
    let words = split_whitespace(text);
    let mut masked: Vec<String> = Vec::new();
    let mut i: usize = 0;
    while i < words.len()
        invariant
            i <= words.len(),
            masked@.len() == i,
            forall|j: int| 0 <= j < i ==> (#[trigger] masked@[j])@ == masked_token(words@[j]@),
        decreases words.len() - i,
    {
        let token = &words[i];
        if looks_like_email(token.as_str()) {
            masked.push("[EMAIL]".to_owned());
        } else if looks_like_phone(token.as_str()) {
            masked.push("[PHONE]".to_owned());
        } else {
            masked.push(token.clone());
        }
        i += 1;
    }
    proof {
        let f = fields(text@);
        assert(texts_of(words@) == f);
        assert forall|j: int| 0 <= j < f.len() implies texts_of(masked@)[j] == masked_token(f[j]) by {
            assert(texts_of(words@)[j] == words@[j]@);
        }
        assert(texts_of(masked@) =~= f.map_values(|t: Seq<char>| masked_token(t)));
    }
    join_strs(&masked, " ")
}

/// A policy that turns down texts that hold a forbidden word, in any case of
/// letters, and masks personal data where asked to.
#[derive(Debug, PartialEq, Eq)]
pub struct BasicPolicy {
    forbidden_words: Vec<String>,
    mask_pii: bool,
}

/// The first of the words `words` that the text `text` holds, in any case of
/// letters.
pub open spec fn first_forbidden(words: Seq<String>, text: Seq<char>) -> Option<Seq<char>>
    decreases words.len(),
{
    if words.len() == 0 {
        None
    } else if contains_text(lowercased(text), lowercased(words[0]@)) {
        Some(words[0]@)
    } else {
        first_forbidden(words.drop_first(), text)
    }
}

impl BasicPolicy {
    /// The forbidden words.
    pub closed spec fn words(&self) -> Seq<String> {
        self.forbidden_words@
    }

    /// Whether personal data is masked.
    pub closed spec fn masks(&self) -> bool {
        self.mask_pii
    }

    /// A policy with the given forbidden words.
    pub fn new(forbidden_words: Vec<String>, mask_pii: bool) -> (p: Self)
        ensures
            p.words() == forbidden_words@,
            p.masks() == mask_pii,
    {
        BasicPolicy { forbidden_words, mask_pii }
    }
}

impl ContentPolicy for BasicPolicy {
    open spec fn outcome(&self, text: Seq<char>) -> Result<Seq<char>, Seq<char>> {
        match first_forbidden(self.words(), text) {
            Some(w) => Err(w),
            None => if self.masks() {
                Ok(masked_text(text))
            } else {
                Ok(text)
            },
        }
    }

    fn apply(&self, text: &str) -> (r: Result<String, PolicyError>) {
        let lowered = str_to_lowercase(text);
        let mut i: usize = 0;
        assert(self.forbidden_words@.skip(0) =~= self.forbidden_words@);
        while i < self.forbidden_words.len()
            invariant
                i <= self.forbidden_words.len(),
                lowered@ == lowercased(text@),
                first_forbidden(self.words(), text@) == first_forbidden(
                    self.forbidden_words@.skip(i as int),
                    text@,
                ),
            decreases self.forbidden_words.len() - i,
        {
            let word = &self.forbidden_words[i];
            proof {
                let rest = self.forbidden_words@.skip(i as int);
                assert(rest[0] == self.forbidden_words@[i as int]);
                assert(rest.drop_first() =~= self.forbidden_words@.skip(i + 1));
            }
            let low = str_to_lowercase(word.as_str());
            if contains_str(lowered.as_str(), low.as_str()) {
                return Err(PolicyError::ForbiddenContent(word.clone()));
            }
            i += 1;
        }
        if self.mask_pii {
            Ok(mask_pii(text))
        } else {
            Ok(text.to_owned())
        }
    }
}

} // verus!
