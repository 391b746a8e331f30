//! The write-ahead log: framing, checksums and crash-safe replay.
//!
//! A record on disk is `[lsn: 8 bytes][crc32 of the ciphertext: 4 bytes]
//! [length: 4 bytes][ciphertext]`, the three numbers big-endian. The log here
//! works on bytes in memory; reading and writing the file is the caller's part.

use vstd::prelude::*;
use crate::bytes::{
    be32, be64, from_be32, from_be64, lemma_be32_round_trip, lemma_be64_round_trip, push_be32,
    push_be64, read_be32, read_be64,
};
use crate::crypto::{AtRestCipher, CryptoError};
use crate::error::{AlayasikiError, ErrorCode};

verus! {

/// The number of bytes before the ciphertext of a record.
pub const HEADER_LEN: usize = 16;

/// The CRC-32 (IEEE) checksum of `data`.
pub uninterp spec fn crc32_of(data: Seq<u8>) -> u32;

/// Computes the CRC-32 (IEEE) checksum of `data`.
///
/// Wraps `crc32fast::hash`, which returns the checksum of the whole slice; the
/// checksum depends on the bytes alone, whichever implementation the crate
/// selects for the processor.
#[verifier::external_body]
fn checksum(data: &[u8]) -> (c: u32)
    ensures
        c == crc32_of(data@),
{
    crc32fast::hash(data)
}

/// Why a log operation failed.
#[derive(Debug, PartialEq, Eq)]
pub enum WalError {
    /// Reading or writing failed, or a record cannot be framed.
    Io(String),
    /// A complete record does not match its checksum: the log is corrupt.
    CrcMismatch,
    /// A record does not decode.
    CorruptEntry,
    /// The cipher failed.
    Encryption(String),
}

impl AlayasikiError for WalError {
    open spec fn code(&self) -> ErrorCode {
        ErrorCode::Internal
    }

    fn error_code(&self) -> (c: ErrorCode) {
        ErrorCode::Internal
    }
}

impl WalError {
    /// The log error that stands for a cipher error.
    pub fn from_crypto(value: &CryptoError) -> (e: Self)
        ensures
            e matches WalError::Encryption(m) && m@ == value.message_text(),
    {
        WalError::Encryption(value.message())
    }

    /// The message of the error, as characters.
    pub open spec fn message_text(&self) -> Seq<char> {
        match self {
            WalError::Io(m) => "IO error: "@ + m@,
            WalError::CrcMismatch => "Data integrity error (CRC mismatch)"@,
            WalError::CorruptEntry => "Corrupt entry"@,
            WalError::Encryption(m) => "At-rest encryption error: "@ + m@,
        }
    }

    /// The message of the error.
    pub fn message(&self) -> (s: String)
        ensures
            s@ == self.message_text(),
    {
        match self {
            WalError::Io(m) => {
                let mut s = "IO error: ".to_owned();
                s.append(m.as_str());
                s
            },
            WalError::CrcMismatch => "Data integrity error (CRC mismatch)".to_owned(),
            WalError::CorruptEntry => "Corrupt entry".to_owned(),
            WalError::Encryption(m) => {
                let mut s = "At-rest encryption error: ".to_owned();
                s.append(m.as_str());
                s
            },
        }
    }
}

/// The bytes of the record that carries `ciphertext` under `lsn`.
pub open spec fn frame(lsn: u64, ciphertext: Seq<u8>) -> Seq<u8> {
    be64(lsn) + be32(crc32_of(ciphertext)) + be32(ciphertext.len() as u32) + ciphertext
}

/// What reading a log from its start finds.
pub struct Scan {
    /// The complete, intact records in order: lsn and ciphertext.
    pub frames: Seq<(u64, Seq<u8>)>,
    /// The number of bytes that those records take.
    pub valid_len: nat,
    /// Whether a complete record follows them that fails its checksum.
    pub corrupt: bool,
}

/// Reads `log` record by record. An incomplete record at the end is a torn
/// write and ends the scan; a complete record with a wrong checksum ends it as
/// corrupt.
pub open spec fn scan(log: Seq<u8>) -> Scan
    decreases log.len(),
{
    if log.len() < 16 {
        Scan { frames: Seq::empty(), valid_len: 0, corrupt: false }
    } else {
        let lsn = from_be64(log);
        let crc = from_be32(log.skip(8));
        let len = from_be32(log.skip(12)) as int;
        if log.len() - 16 < len {
            Scan { frames: Seq::empty(), valid_len: 0, corrupt: false }
        } else {
            let payload = log.subrange(16, 16 + len);
            if crc32_of(payload) != crc {
                Scan { frames: Seq::empty(), valid_len: 0, corrupt: true }
            } else {
                let rest = scan(log.skip(16 + len));
                Scan {
                    frames: seq![(lsn, payload)] + rest.frames,
                    valid_len: (16 + len + rest.valid_len) as nat,
                    corrupt: rest.corrupt,
                }
            }
        }
    }
}

/// The lsn of the last of `frames`, or 0 where there is none.
pub open spec fn last_lsn_of(frames: Seq<(u64, Seq<u8>)>) -> u64 {
    if frames.len() == 0 {
        0
    } else {
        frames.last().0
    }
}

/// The bytes of `frames` written one after the other.
pub open spec fn log_of(frames: Seq<(u64, Seq<u8>)>) -> Seq<u8>
    decreases frames.len(),
{
    if frames.len() == 0 {
        Seq::empty()
    } else {
        frame(frames[0].0, frames[0].1) + log_of(frames.drop_first())
    }
}

/// Whether every ciphertext of `frames` is short enough to be framed.
pub open spec fn framable(frames: Seq<(u64, Seq<u8>)>) -> bool {
    forall|i: int| 0 <= i < frames.len() ==> (#[trigger] frames[i]).1.len() <= u32::MAX
}

/// Whether `tail` is a record that was cut short: a proper prefix of the bytes
/// of some record.
pub open spec fn is_torn(tail: Seq<u8>) -> bool {
    exists|lsn: u64, ciphertext: Seq<u8>|
        ciphertext.len() <= u32::MAX && tail.len() < frame(lsn, ciphertext).len() && tail
            == #[trigger] frame(lsn, ciphertext).take(tail.len() as int)
}

/// A scan reads a record that stands at the start of a log and goes on behind
/// it.
pub proof fn lemma_scan_frame(lsn: u64, ciphertext: Seq<u8>, rest: Seq<u8>)
    requires
        ciphertext.len() <= u32::MAX,
    ensures
        scan(frame(lsn, ciphertext) + rest) == (Scan {
            frames: seq![(lsn, ciphertext)] + scan(rest).frames,
            valid_len: (16 + ciphertext.len() + scan(rest).valid_len) as nat,
            corrupt: scan(rest).corrupt,
        }),
        frame(lsn, ciphertext).len() == 16 + ciphertext.len(),
{
    let f = frame(lsn, ciphertext);
    let log = f + rest;
    let crc = crc32_of(ciphertext);
    let len = ciphertext.len() as u32;
    lemma_be64_round_trip(lsn);
    lemma_be32_round_trip(crc);
    lemma_be32_round_trip(len);
    assert(f.len() == 16 + ciphertext.len());
    assert forall|i: int| 0 <= i < 8 implies log[i] == be64(lsn)[i] by {}
    assert forall|i: int| 0 <= i < 4 implies log.skip(8)[i] == be32(crc)[i] by {}
    assert forall|i: int| 0 <= i < 4 implies log.skip(12)[i] == be32(len)[i] by {}
    assert(from_be64(log) == lsn);
    assert(from_be32(log.skip(8)) == crc);
    assert(from_be32(log.skip(12)) == len);
    assert(log.subrange(16, 16 + len as int) =~= ciphertext);
    assert(log.skip(16 + len as int) =~= rest);
}

/// A record that was cut short holds no complete record.
pub proof fn lemma_scan_torn(tail: Seq<u8>)
    requires
        is_torn(tail),
    ensures
        scan(tail) == (Scan { frames: Seq::empty(), valid_len: 0, corrupt: false }),
{
    if tail.len() >= 16 {
        let (lsn, ciphertext) = choose|lsn: u64, ciphertext: Seq<u8>|
            ciphertext.len() <= u32::MAX && tail.len() < frame(lsn, ciphertext).len() && tail
                == #[trigger] frame(lsn, ciphertext).take(tail.len() as int);
        let f = frame(lsn, ciphertext);
        let len = ciphertext.len() as u32;
        lemma_be32_round_trip(len);
        assert(f.len() == 16 + ciphertext.len());
        assert forall|i: int| 0 <= i < 4 implies tail.skip(12)[i] == be32(len)[i] by {
            assert(tail[12 + i] == f[12 + i]);
        }
        assert(from_be32(tail.skip(12)) == len);
    }
}

/// What was appended is what a later scan finds, whether or not a torn record
/// follows: the records come back in order, the valid length is theirs, and
/// the torn tail is left out.
#[verifier::spinoff_prover]
#[verifier::rlimit(60)]
pub proof fn lemma_scan_log(frames: Seq<(u64, Seq<u8>)>, tail: Seq<u8>)
    requires
        framable(frames),
        tail.len() == 0 || is_torn(tail),
    ensures
        scan(log_of(frames) + tail) == (Scan {
            frames,
            valid_len: log_of(frames).len(),
            corrupt: false,
        }),
    decreases frames.len(),
{
    if frames.len() == 0 {
        assert(log_of(frames) + tail =~= tail);
        if tail.len() > 0 {
            lemma_scan_torn(tail);
        }
        assert(scan(tail).frames =~= frames);
    } else {
        let head = frames[0];
        let more = frames.drop_first();
        assert(framable(more)) by {
            assert forall|i: int| 0 <= i < more.len() implies (#[trigger] more[i]).1.len()
                <= u32::MAX by {
                assert(more[i] == frames[i + 1]);
            }
        }
        let rest = log_of(more) + tail;
        lemma_scan_log(more, tail);
        lemma_scan_frame(head.0, head.1, rest);
        assert(log_of(frames) == frame(head.0, head.1) + log_of(more));
        assert(log_of(frames) + tail =~= frame(head.0, head.1) + rest);
        assert(log_of(frames).len() == 16 + head.1.len() + log_of(more).len());
        assert(seq![head] + more =~= frames);
    }
}

/// Appending a record to a log appends its frame to the bytes.
pub proof fn lemma_log_of_push(frames: Seq<(u64, Seq<u8>)>, lsn: u64, ciphertext: Seq<u8>)
    ensures
        log_of(frames.push((lsn, ciphertext))) == log_of(frames) + frame(lsn, ciphertext),
    decreases frames.len(),
{
    let all = frames.push((lsn, ciphertext));
    if frames.len() == 0 {
        assert(all.drop_first() =~= Seq::<(u64, Seq<u8>)>::empty());
        assert(log_of(all.drop_first()) =~= Seq::<u8>::empty());
        assert(log_of(all) =~= frame(lsn, ciphertext));
        assert(log_of(frames) + frame(lsn, ciphertext) =~= frame(lsn, ciphertext));
    } else {
        lemma_log_of_push(frames.drop_first(), lsn, ciphertext);
        assert(all.drop_first() =~= frames.drop_first().push((lsn, ciphertext)));
        assert(log_of(all) =~= log_of(frames) + frame(lsn, ciphertext));
    }
}

/// Whether `bytes` is a record under `lsn` whose ciphertext `cipher` opens to
/// `payload`.
pub open spec fn frames_payload<C: AtRestCipher>(
    cipher: C,
    lsn: u64,
    bytes: Seq<u8>,
    payload: Seq<u8>,
) -> bool {
    exists|c: Seq<u8>|
        c.len() <= u32::MAX && cipher.opens(c) == Some(payload) && bytes == #[trigger] frame(lsn, c)
}

/// One replayed record: its lsn and its plaintext.
#[derive(Debug, PartialEq, Eq)]
pub struct WalRecord {
    pub lsn: u64,
    pub payload: Vec<u8>,
}

/// What a replay found.
#[derive(Debug, PartialEq, Eq)]
pub struct Replay {
    /// The intact records, decrypted, in log order.
    pub records: Vec<WalRecord>,
    /// The number of bytes that they take: the log is to be cut to this length.
    pub valid_len: usize,
    /// The lsn of the last record, or 0.
    pub last_lsn: u64,
}

/// The state of a write-ahead log: the last lsn given out and the cipher.
pub struct Wal<C: AtRestCipher> {
    current_lsn: u64,
    cipher: C,
}

impl<C: AtRestCipher> Wal<C> {
    /// The last lsn given out.
    pub closed spec fn lsn(&self) -> u64 {
        self.current_lsn
    }

    /// The cipher of the log.
    pub closed spec fn cipher(&self) -> C {
        self.cipher
    }

    /// A log that has given out no lsn yet.
    pub fn new(cipher: C) -> (w: Self)
        ensures
            w.lsn() == 0,
            w.cipher() == cipher,
    {
        Wal { current_lsn: 0, cipher }
    }

    /// The last lsn given out.
    pub fn current_lsn(&self) -> (n: u64)
        ensures
            n == self.lsn(),
    {
        self.current_lsn
    }

    /// Frames a payload that the cipher has handled: gives the record the next
    /// lsn and returns it with the bytes to write. Fails, and gives out no lsn,
    /// where the cipher failed, where the ciphertext is too long for the length
    /// field, or where the lsns are used up.
    pub fn frame_record(&mut self, encrypted: Result<Vec<u8>, CryptoError>) -> (r: Result<
        (u64, Vec<u8>),
        WalError,
    >)
        ensures
            final(self).cipher() == old(self).cipher(),
            match r {
                Ok((lsn, bytes)) => encrypted matches Ok(c) && c@.len() <= u32::MAX && old(
                    self,
                ).lsn() < u64::MAX && lsn == old(self).lsn() + 1 && final(self).lsn() == lsn
                    && bytes@ == frame(lsn, c@),
                Err(e) => final(self).lsn() == old(self).lsn() && match encrypted {
                    Err(ce) => e matches WalError::Encryption(m) && m@ == ce.message_text(),
                    Ok(c) => (c@.len() > u32::MAX || old(self).lsn() == u64::MAX)
                        && e matches WalError::Io(_),
                },
            },
    {
        match encrypted {
            Err(ce) => Err(WalError::from_crypto(&ce)),
            Ok(c) => {
                if c.len() > u32::MAX as usize {
                    return Err(WalError::Io("record too large".to_owned()));
                }
                if self.current_lsn == u64::MAX {
                    return Err(WalError::Io("log sequence numbers exhausted".to_owned()));
                }
                let lsn = self.current_lsn + 1;
                let crc = checksum(c.as_slice());
                let mut bytes: Vec<u8> = Vec::new();
                push_be64(&mut bytes, lsn);
                push_be32(&mut bytes, crc);
                push_be32(&mut bytes, c.len() as u32);
                let mut i: usize = 0;
                let ghost head = bytes@;
                while i < c.len()
                    invariant
                        i <= c.len(),
                        bytes@ == head + c@.take(i as int),
                    decreases c.len() - i,
                {
                    bytes.push(c[i]);
                    i += 1;
                    assert(bytes@ =~= head + c@.take(i as int));
                }
                assert(c@.take(c.len() as int) =~= c@);
                assert(bytes@ =~= frame(lsn, c@));
                self.current_lsn = lsn;
                Ok((lsn, bytes))
            },
        }
    }

    /// Encrypts `payload` and frames it under the next lsn. Returns the lsn and
    /// the bytes to append to the log; the record is durable once the caller
    /// has written and flushed them.
    pub fn append(&mut self, payload: &[u8]) -> (r: Result<(u64, Vec<u8>), WalError>)
        ensures
            final(self).cipher() == old(self).cipher(),
            match r {
                Ok((lsn, bytes)) => old(self).lsn() < u64::MAX && lsn == old(self).lsn() + 1
                    && final(self).lsn() == lsn && frames_payload(
                    old(self).cipher(),
                    lsn,
                    bytes@,
                    payload@,
                ),
                Err(_) => final(self).lsn() == old(self).lsn(),
            },
    {
        let encrypted = self.cipher.encrypt(payload);
        let ghost enc = encrypted;
        let r = self.frame_record(encrypted);
        proof {
            if r is Ok {
                let c = enc->Ok_0@;
                assert(r->Ok_0.1@ == frame(r->Ok_0.0, c));
            }
        }
        r
    }

    /// Reads a log from its start: checks every complete record against its
    /// checksum and decrypts it. An incomplete record at the end is left out,
    /// and `valid_len` says where to cut the log. The log state stays as it is.
    pub fn read_log(&self, log: &[u8]) -> (r: Result<Replay, WalError>)
        ensures
            match r {
                Ok(rep) => {
                    let s = scan(log@);
                    &&& !s.corrupt
                    &&& rep.valid_len == s.valid_len
                    &&& rep.records@.len() == s.frames.len()
                    &&& forall|i: int|
                        0 <= i < s.frames.len() ==> (#[trigger] rep.records@[i]).lsn
                            == s.frames[i].0 && self.cipher().opens(s.frames[i].1) == Some(
                            rep.records@[i].payload@,
                        )
                    &&& rep.last_lsn == last_lsn_of(s.frames)
                },
                Err(WalError::Encryption(_)) => exists|i: int|
                    0 <= i < scan(log@).frames.len() && self.cipher().opens(
                        (#[trigger] scan(log@).frames[i]).1,
                    ) is None,
                Err(WalError::CrcMismatch) => scan(log@).corrupt && forall|i: int|
                    0 <= i < scan(log@).frames.len() ==> self.cipher().opens(
                        (#[trigger] scan(log@).frames[i]).1,
                    ) is Some,
                Err(_) => false,
            },
    {
        let mut records: Vec<WalRecord> = Vec::new();
        let mut pos: usize = 0;
        let mut last_lsn: u64 = 0;
        let ghost mut done: Seq<(u64, Seq<u8>)> = Seq::empty();
        proof {
            assert(log@.skip(0) =~= log@);
            assert(done + scan(log@).frames =~= scan(log@).frames);
        }
        loop
            invariant
                pos <= log@.len(),
                scan(log@).frames == done + scan(log@.skip(pos as int)).frames,
                scan(log@).valid_len == pos + scan(log@.skip(pos as int)).valid_len,
                scan(log@).corrupt == scan(log@.skip(pos as int)).corrupt,
                records@.len() == done.len(),
                forall|i: int|
                    0 <= i < done.len() ==> (#[trigger] records@[i]).lsn == done[i].0 && self.cipher().opens(
                        done[i].1,
                    ) == Some(records@[i].payload@),
                last_lsn == last_lsn_of(done),
            ensures
                scan(log@).frames == done,
                scan(log@).valid_len == pos,
                !scan(log@).corrupt,
            decreases log@.len() - pos,
        {
            let ghost rest = log@.skip(pos as int);
            if log.len() - pos < HEADER_LEN {
                proof {
                    assert(scan(rest).frames =~= Seq::<(u64, Seq<u8>)>::empty());
                    assert(scan(log@).frames =~= done);
                }
                break ;
            }
            let lsn = read_be64(log, pos);
            let crc = read_be32(log, pos + 8);
            let len = read_be32(log, pos + 12) as usize;
            proof {
                assert(rest.skip(8) =~= log@.skip(pos + 8));
                assert(rest.skip(12) =~= log@.skip(pos + 12));
            }
            if log.len() - pos - HEADER_LEN < len {
                proof {
                    assert(scan(rest).frames =~= Seq::<(u64, Seq<u8>)>::empty());
                    assert(scan(log@).frames =~= done);
                }
                break ;
            }
            let start = pos + HEADER_LEN;
            let mut payload: Vec<u8> = Vec::new();
            let mut k: usize = 0;
            while k < len
                invariant
                    k <= len,
                    start + len <= log@.len(),
                    log@.len() <= usize::MAX,
                    payload@ == log@.subrange(start as int, start + k),
                decreases len - k,
            {
                payload.push(log[start + k]);
                k += 1;
                assert(payload@ =~= log@.subrange(start as int, start + k));
            }
            proof {
                assert(rest.subrange(16, 16 + len) =~= payload@);
                assert(rest.skip(16 + len) =~= log@.skip(start + len));
            }
            if checksum(payload.as_slice()) != crc {
                proof {
                    assert(scan(rest).corrupt);
                    assert(scan(rest).frames =~= Seq::<(u64, Seq<u8>)>::empty());
                    assert(scan(log@).frames =~= done);
                    assert forall|i: int| 0 <= i < done.len() implies self.cipher().opens(
                        (#[trigger] done[i]).1,
                    ) is Some by {
                        assert(records@[i].lsn == done[i].0);
                    }
                }
                return Err(WalError::CrcMismatch);
            }
            match self.cipher.decrypt(payload.as_slice()) {
                Err(ce) => {
                    proof {
                        let i = done.len() as int;
                        assert(scan(log@).frames[i] == (lsn, payload@));
                    }
                    return Err(WalError::from_crypto(&ce));
                },
                Ok(plain) => {
                    records.push(WalRecord { lsn, payload: plain });
                    proof {
                        let next = done.push((lsn, payload@));
                        assert(next + scan(log@.skip(start + len)).frames =~= done + scan(
                            rest,
                        ).frames);
                        done = next;
                    }
                    last_lsn = lsn;
                    pos = start + len;
                },
            }
        }
        Ok(Replay { records, valid_len: pos, last_lsn })
    }

    /// Replays a log from its start: checks every complete record against its
    /// checksum, decrypts it, and sets the last lsn to that of the last record.
    /// An incomplete record at the end is left out, and `valid_len` says where
    /// to cut the log.
    pub fn replay(&mut self, log: &[u8]) -> (r: Result<Replay, WalError>)
        ensures
            final(self).cipher() == old(self).cipher(),
            match r {
                Ok(rep) => {
                    let s = scan(log@);
                    &&& !s.corrupt
                    &&& rep.valid_len == s.valid_len
                    &&& rep.records@.len() == s.frames.len()
                    &&& forall|i: int|
                        0 <= i < s.frames.len() ==> (#[trigger] rep.records@[i]).lsn
                            == s.frames[i].0 && old(self).cipher().opens(s.frames[i].1) == Some(
                            rep.records@[i].payload@,
                        )
                    &&& rep.last_lsn == last_lsn_of(s.frames)
                    &&& final(self).lsn() == rep.last_lsn
                },
                Err(WalError::Encryption(_)) => final(self).lsn() == old(self).lsn() && exists|
                    i: int,
                |
                    0 <= i < scan(log@).frames.len() && old(self).cipher().opens(
                        (#[trigger] scan(log@).frames[i]).1,
                    ) is None,
                Err(WalError::CrcMismatch) => final(self).lsn() == old(self).lsn() && scan(
                    log@,
                ).corrupt && forall|i: int|
                    0 <= i < scan(log@).frames.len() ==> old(self).cipher().opens(
                        (#[trigger] scan(log@).frames[i]).1,
                    ) is Some,
                Err(_) => false,
            },
    {
        match self.read_log(log) {
            Ok(rep) => {
                self.current_lsn = rep.last_lsn;
                Ok(rep)
            },
            Err(e) => Err(e),
        }
    }
}

} // verus!
