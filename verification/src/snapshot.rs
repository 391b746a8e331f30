//! Backup snapshot files: their names, and the choice of the latest one.
//!
//! A snapshot of the state at `lsn` lives in the file
//! `snapshot_<20-digit zero-padded lsn>.rkyv` of the snapshot directory.

use vstd::prelude::*;
use crate::error::{AlayasikiError, ErrorCode};
use crate::text::{
    all_digits, chars_of, decimal_of, digits_value, ends_with, is_prefix, is_suffix,
    lemma_decimal_of, lemma_zeros_value, padded_decimal, parse_decimal, parse_u64, slice_chars,
    starts_with, string_of, u64_to_padded_decimal, zeros,
};

verus! {

/// Why a snapshot operation failed.
#[derive(Debug, PartialEq, Eq)]
pub enum SnapshotError {
    /// Reading or writing failed.
    Io(String),
}

impl AlayasikiError for SnapshotError {
    open spec fn code(&self) -> ErrorCode {
        ErrorCode::Internal
    }

    fn error_code(&self) -> (c: ErrorCode) {
        ErrorCode::Internal
    }
}

impl SnapshotError {
    /// The message of the error, as characters.
    pub open spec fn message_text(&self) -> Seq<char> {
        match self {
            SnapshotError::Io(m) => "IO error: "@ + m@,
        }
    }

    /// The message of the error.
    pub fn message(&self) -> (s: String)
        ensures
            s@ == self.message_text(),
    {
        match self {
            SnapshotError::Io(m) => {
                let mut s = "IO error: ".to_owned();
                s.append(m.as_str());
                s
            },
        }
    }
}

/// The name of the snapshot file for `lsn`.
pub open spec fn snapshot_name(lsn: u64) -> Seq<char> {
    "snapshot_"@ + padded_decimal(lsn as nat, 20) + ".rkyv"@
}

/// The lsn that a file name stands for, if it is the name of a snapshot file.
pub open spec fn snapshot_lsn_of(name: Seq<char>) -> Option<u64> {
    if is_prefix("snapshot_"@, name) {
        let rest = name.skip("snapshot_"@.len() as int);
        if is_suffix(".rkyv"@, rest) {
            parse_decimal(rest.take(rest.len() - ".rkyv"@.len()))
        } else {
            None
        }
    } else {
        None
    }
}

/// A snapshot file's name stands for its lsn.
pub proof fn lemma_snapshot_name_round_trip(lsn: u64)
    ensures
        snapshot_lsn_of(snapshot_name(lsn)) == Some(lsn),
{
    let pre = "snapshot_"@;
    let suf = ".rkyv"@;
    let mid = padded_decimal(lsn as nat, 20);
    let name = snapshot_name(lsn);
    assert(name.take(pre.len() as int) =~= pre);
    let rest = name.skip(pre.len() as int);
    assert(rest =~= mid + suf);
    assert(rest.skip(rest.len() - suf.len()) =~= suf);
    assert(rest.take(rest.len() - suf.len()) =~= mid);
    lemma_decimal_of(lsn as nat);
    let d = decimal_of(lsn as nat);
    if d.len() < 20 {
        lemma_zeros_value((20 - d.len()) as nat, d);
        assert(mid[0] == '0');
    }
}

/// The lsn that the file name `file_name` stands for, if it is the name of a
/// snapshot file.
pub fn parse_snapshot_lsn(file_name: &str) -> (r: Option<u64>)
    ensures
        r == snapshot_lsn_of(file_name@),
{
    let name = chars_of(file_name);
    let pre = chars_of("snapshot_");
    let suf = chars_of(".rkyv");
    if !starts_with(&name, &pre) {
        return None;
    }
    let rest = slice_chars(&name, pre.len(), name.len());
    assert(rest@ =~= name@.skip(pre.len() as int));
    if !ends_with(&rest, &suf) {
        return None;
    }
    let mid = slice_chars(&rest, 0, rest.len() - suf.len());
    assert(mid@ =~= rest@.take(rest.len() - suf.len()));
    let text = string_of(&mid);
    parse_u64(text.as_str())
}

/// The name of the snapshot file for `lsn`.
pub fn snapshot_file_name(lsn: u64) -> (name: String)
    ensures
        name@ == snapshot_name(lsn),
{
    let mut name = "snapshot_".to_owned();
    let digits = u64_to_padded_decimal(lsn, 20);
    name.append(digits.as_str());
    name.append(".rkyv");
    name
}

/// The name of the file that a snapshot for `lsn` is written to before it is
/// renamed into place.
pub fn snapshot_temp_name(lsn: u64) -> (name: String)
    ensures
        name@ == "snapshot_"@ + padded_decimal(lsn as nat, 20) + ".tmp"@,
{
    let mut name = "snapshot_".to_owned();
    let digits = u64_to_padded_decimal(lsn, 20);
    name.append(digits.as_str());
    name.append(".tmp");
    name
}

/// Whether `names[i]` is a snapshot at or before `upper`.
pub open spec fn eligible(names: Seq<String>, i: int, upper: u64) -> bool {
    0 <= i < names.len() && snapshot_lsn_of(names[i]@) is Some && snapshot_lsn_of(names[i]@)->0
        <= upper
}

/// Whether `(lsn, index)` is the latest snapshot at or before `upper` among
/// `names`: none has a greater lsn, and none before `index` has the same.
pub open spec fn is_latest(names: Seq<String>, upper: u64, lsn: u64, index: int) -> bool {
    &&& eligible(names, index, upper)
    &&& snapshot_lsn_of(names[index]@) == Some(lsn)
    &&& forall|j: int| #[trigger] eligible(names, j, upper) ==> snapshot_lsn_of(names[j]@)->0 <= lsn
    &&& forall|j: int|
        0 <= j < index && #[trigger] eligible(names, j, upper) ==> snapshot_lsn_of(names[j]@)->0
            < lsn
}

/// The directory of the snapshot files.
#[derive(Debug, PartialEq, Eq)]
pub struct SnapshotManager {
    dir: String,
}

impl SnapshotManager {
    /// The directory, as characters.
    pub closed spec fn dir_text(&self) -> Seq<char> {
        self.dir@
    }

    /// A manager for the snapshot files in `dir`.
    pub fn new(dir: &str) -> (m: Self)
        ensures
            m.dir_text() == dir@,
    {
        SnapshotManager { dir: dir.to_owned() }
    }

    /// The directory.
    pub fn dir(&self) -> (d: &String)
        ensures
            d@ == self.dir_text(),
    {
        &self.dir
    }

    /// The path of the snapshot file for `lsn`.
    pub fn snapshot_path(&self, lsn: u64) -> (path: String)
        ensures
            path@ == self.dir_text() + "/"@ + snapshot_name(lsn),
    {
        let mut path = self.dir.clone();
        path.append("/");
        let name = snapshot_file_name(lsn);
        path.append(name.as_str());
        path
    }

    /// Among the file names of the directory, the snapshot with the greatest
    /// lsn that is not above `upper_lsn`: its lsn and its place in
    /// `file_names`.
    pub fn latest_snapshot_at_or_before(&self, file_names: &Vec<String>, upper_lsn: u64) -> (r:
        Option<(u64, usize)>)
        ensures
            match r {
                Some((lsn, index)) => is_latest(file_names@, upper_lsn, lsn, index as int),
                None => forall|j: int| !#[trigger] eligible(file_names@, j, upper_lsn),
            },
    {
        let mut best: Option<(u64, usize)> = None;
        let mut i: usize = 0;
        while i < file_names.len()
            invariant
                i <= file_names.len(),
                match best {
                    Some((lsn, index)) => index < i && is_latest(
                        file_names@.take(i as int),
                        upper_lsn,
                        lsn,
                        index as int,
                    ),
                    None => forall|j: int|
                        !#[trigger] eligible(file_names@.take(i as int), j, upper_lsn),
                },
            decreases file_names.len() - i,
        {
            let ghost before = file_names@.take(i as int);
            let ghost after = file_names@.take(i + 1);
            let parsed = parse_snapshot_lsn(file_names[i].as_str());
            let ghost old_best = best;
            match parsed {
                Some(lsn) => {
                    if lsn <= upper_lsn {
                        let replace = match best {
                            Some((max, _)) => lsn > max,
                            None => true,
                        };
                        if replace {
                            best = Some((lsn, i));
                        }
                    }
                },
                None => {},
            }
            proof {
                assert forall|j: int| 0 <= j < i implies after[j] == before[j] by {}
                assert(after[i as int] == file_names@[i as int]);
                assert forall|j: int| eligible(after, j, upper_lsn) && j < i implies eligible(
                    before,
                    j,
                    upper_lsn,
                ) by {
                    assert(after[j] == before[j]);
                }
                assert forall|j: int| eligible(before, j, upper_lsn) implies eligible(
                    after,
                    j,
                    upper_lsn,
                ) by {
                    assert(after[j] == before[j]);
                }
                match best {
                    Some((lsn, index)) => {
                        assert(after[index as int] == file_names@[index as int]);
                        if index < i {
                            assert(before[index as int] == after[index as int]);
                        }
                        assert(is_latest(after, upper_lsn, lsn, index as int)) by {
                            assert forall|j: int| #[trigger]
                                eligible(after, j, upper_lsn) implies snapshot_lsn_of(
                                after[j]@,
                            )->0 <= lsn by {
                                if j < i {
                                    assert(eligible(before, j, upper_lsn));
                                    assert(after[j] == before[j]);
                                }
                            }
                            assert forall|j: int|
                                0 <= j < index && #[trigger] eligible(
                                    after,
                                    j,
                                    upper_lsn,
                                ) implies snapshot_lsn_of(after[j]@)->0 < lsn by {
                                assert(eligible(before, j, upper_lsn));
                                assert(after[j] == before[j]);
                            }
                        }
                    },
                    None => {
                        assert forall|j: int| !#[trigger] eligible(after, j, upper_lsn) by {
                            if eligible(after, j, upper_lsn) {
                                if j < i {
                                    assert(eligible(before, j, upper_lsn));
                                }
                            }
                        }
                    },
                }
            }
            i += 1;
        }
        assert(file_names@.take(file_names.len() as int) =~= file_names@);
        best
    }

    /// The snapshot with the greatest lsn among the file names of the
    /// directory.
    pub fn latest_snapshot(&self, file_names: &Vec<String>) -> (r: Option<(u64, usize)>)
        ensures
            match r {
                Some((lsn, index)) => is_latest(file_names@, u64::MAX, lsn, index as int),
                None => forall|j: int| !#[trigger] eligible(file_names@, j, u64::MAX),
            },
    {
        self.latest_snapshot_at_or_before(file_names, u64::MAX)
    }
}

} // verus!
