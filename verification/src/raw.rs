//! The append-only raw log.
//!
//! Raw before smart: every event is durably appended before anything computes on it, so
//! that every future detector can be replayed against history. Records are written as
//! concatenated gzip members, which is a valid gzip stream: one decoder reads the whole
//! history.

use flate2::read::MultiGzDecoder;
use flate2::write::GzEncoder;
use flate2::Compression;
use std::io::{Read, Write};
use vstd::prelude::*;
use vstd::utf8::*;
use crate::text;

verus! {

/// What ends a line of the log.
pub const LF: u8 = 0x0a;

// ---------------------------------------------------------------------------
// gzip
// ---------------------------------------------------------------------------

/// The error type of the gzip encoder.
#[verifier::external_type_specification]
#[verifier::external_body]
pub struct ExIoError(std::io::Error);

/// The gzip member that `flate2`'s `GzEncoder` makes of a payload at the default level, or
/// nothing where it fails.
pub uninterp spec fn gzip_member(payload: Seq<u8>) -> Option<Seq<u8>>;

/// What `flate2`'s `MultiGzDecoder` reads from a stream of gzip members, or nothing where
/// the stream is not well-formed.
pub uninterp spec fn gunzip(stream: Seq<u8>) -> Option<Seq<u8>>;

/// `member` is read as `payload`, alone and in front of any readable stream.
pub open spec fn reads_as(member: Seq<u8>, payload: Seq<u8>) -> bool {
    &&& gunzip(member) == Some(payload)
    &&& forall|rest: Seq<u8>|
        gunzip(rest) is Some ==> #[trigger] gunzip(member + rest) == Some(
            payload + gunzip(rest)->0,
        )
}

/// Compresses a payload with `flate2::write::GzEncoder` into a vector, at the default level.
/// The contract names the result, a failure included, and says that
/// `flate2::read::MultiGzDecoder` reads the payload back from the member, and from a stream
/// that begins with it the payload and then the rest.
#[verifier::external_body]
fn gzip(payload: &[u8]) -> (r: Result<Vec<u8>, std::io::Error>)
    ensures
        match r {
            Ok(m) => gzip_member(payload@) == Some(m@),
            Err(_) => gzip_member(payload@) is None,
        },
        r matches Ok(m) ==> reads_as(m@, payload@),
{
    let mut encoder = GzEncoder::new(Vec::new(), Compression::default());
    encoder.write_all(payload)?;
    encoder.finish()
}

/// Decompresses a stream with `flate2::read::MultiGzDecoder`. The contract names what is
/// read; a decoding error is `None`.
#[verifier::external_body]
fn decompress(stream: &[u8]) -> (r: Option<Vec<u8>>)
    ensures
        match r {
            Some(bytes) => gunzip(stream@) == Some(bytes@),
            None => gunzip(stream@) is None,
        },
{
    let mut out = Vec::new();
    match MultiGzDecoder::new(stream).read_to_end(&mut out) {
        Ok(_) => Some(out),
        Err(_) => None,
    }
}

// ---------------------------------------------------------------------------
// The log
// ---------------------------------------------------------------------------

/// Lines as bytes: each in UTF-8, ended by a line feed.
pub open spec fn jsonl(lines: Seq<Seq<char>>) -> Seq<u8>
    decreases lines.len(),
{
    if lines.len() == 0 {
        Seq::empty()
    } else {
        jsonl(lines.drop_last()) + encode_utf8(lines.last()).push(LF)
    }
}

/// The encoder failed; nothing was appended.
#[derive(Debug, Clone, Copy, PartialEq, Eq, Structural)]
pub struct GzipFailed;

/// Buffers JSONL lines until they are appended to the log as gzip members.
pub struct RawLog {
    /// Lines that wait to be appended.
    pub buf: Vec<String>,
    /// Lines appended since process start, reported in the heartbeat.
    pub written: u64,
}

impl RawLog {
    /// The lines that are buffered.
    pub open spec fn lines(&self) -> Seq<Seq<char>> {
        text::texts(self.buf@)
    }

    /// A log with nothing buffered and nothing written yet.
    pub fn new() -> (r: Self)
        ensures
            r.lines() == Seq::<Seq<char>>::empty(),
            r.written == 0,
    {
        let r: RawLog = RawLog { buf: Vec::new(), written: 0 };
        assert(text::texts(r.buf@) =~= Seq::<Seq<char>>::empty());
        r
    }

    /// Queues one raw JSON line. Cheap: there is no I/O until a flush.
    pub fn push(&mut self, line: &str)
        ensures
            final(self).lines() == old(self).lines().push(line@),
            final(self).written == old(self).written,
    {
        let ghost before = self.buf@;
        self.buf.push(line.to_owned());
        proof {
            text::lemma_texts_push(before, self.buf@.last());
        }
    }

    /// How many lines wait to be appended.
    pub fn pending(&self) -> (r: usize)
        ensures
            r == self.lines().len(),
    {
        self.buf.len()
    }

    /// The bytes of everything buffered, before compression.
    fn payload(&self) -> (r: Vec<u8>)
        ensures
            r@ == jsonl(self.lines()),
    {
        let ghost view = text::texts(self.buf@);
        let mut out: Vec<u8> = Vec::new();
        let mut i: usize = 0;
        assert(view.take(0) =~= Seq::<Seq<char>>::empty());
        while i < self.buf.len()
            invariant
                i <= self.buf@.len(),
                view == text::texts(self.buf@),
                out@ == jsonl(view.take(i as int)),
            decreases self.buf@.len() - i,
        {
            let ghost before = out@;
            let line: &[u8] = self.buf[i].as_str().as_bytes();
            out.extend_from_slice(line);
            assert(out@ =~= before + line@);
            out.push(LF);
            proof {
                let next = view.take(i + 1);
                assert(next.drop_last() =~= view.take(i as int));
                assert(next.last() == self.buf@[i as int]@);
                assert(out@ =~= before + line@.push(LF));
            }
            i = i + 1;
        }
        assert(view.take(i as int) =~= view);
        out
    }

    /// Compresses everything buffered: what is to be appended to the log, or `None` where
    /// there is nothing to append. The lines stay buffered until the append is confirmed
    /// by [`RawLog::commit`], so that a failed append loses nothing.
    pub fn flush(&self) -> (r: Result<Option<Vec<u8>>, GzipFailed>)
        ensures
            self.lines().len() == 0 ==> r == Ok::<Option<Vec<u8>>, GzipFailed>(None),
            self.lines().len() > 0 ==> match r {
                Ok(Some(member)) => gzip_member(jsonl(self.lines())) == Some(member@) && reads_as(
                    member@,
                    jsonl(self.lines()),
                ),
                Ok(None) => false,
                Err(_) => gzip_member(jsonl(self.lines())) is None,
            },
    {
        if self.buf.len() == 0 {
            return Ok(None);
        }
        let payload: Vec<u8> = self.payload();
        encoded(gzip(payload.as_slice()))
    }

    /// Confirms that the first `flushed` lines were appended: they leave the buffer and are
    /// counted. Lines that were queued since the flush stay. Returns how many were appended.
    pub fn commit(&mut self, flushed: usize) -> (r: usize)
        requires
            flushed <= old(self).lines().len(),
            old(self).written + flushed <= u64::MAX,
        ensures
            r == flushed,
            final(self).lines() == old(self).lines().skip(flushed as int),
            final(self).written == old(self).written + flushed,
    {
        let rest: Vec<String> = self.buf.split_off(flushed);
        self.buf = rest;
        self.written = self.written + flushed as u64;
        assert(self.lines() =~= old(self).lines().skip(flushed as int));
        flushed
    }
}

/// What a flush reports of the encoder's result.
pub fn encoded(result: Result<Vec<u8>, std::io::Error>) -> (r: Result<
    Option<Vec<u8>>,
    GzipFailed,
>)
    ensures
        match result {
            Ok(member) => r == Ok::<Option<Vec<u8>>, GzipFailed>(Some(member)),
            Err(_) => r == Err::<Option<Vec<u8>>, GzipFailed>(GzipFailed),
        },
{
    match result {
        Ok(member) => Ok(Some(member)),
        Err(_) => Err(GzipFailed),
    }
}

/// Reads the whole history of a log: the bytes of every line that was appended.
pub fn replay(stream: &Vec<u8>) -> (r: Option<Vec<u8>>)
    ensures
        match r {
            Some(bytes) => gunzip(stream@) == Some(bytes@),
            None => gunzip(stream@) is None,
        },
{
    decompress(stream.as_slice())
}

// ---------------------------------------------------------------------------
// Laws
// ---------------------------------------------------------------------------

/// The bytes of two runs of lines are the bytes of one run and then of the other.
pub proof fn lemma_jsonl_concat(a: Seq<Seq<char>>, b: Seq<Seq<char>>)
    ensures
        jsonl(a + b) == jsonl(a) + jsonl(b),
    decreases b.len(),
{
    if b.len() == 0 {
        assert(a + b =~= a);
        assert(jsonl(a) + jsonl(b) =~= jsonl(a));
    } else {
        lemma_jsonl_concat(a, b.drop_last());
        assert((a + b).drop_last() =~= a + b.drop_last());
        assert((a + b).last() == b.last());
        assert(jsonl(a + b) =~= jsonl(a) + jsonl(b));
    }
}

/// The log reads back as one stream: after any number of flushes, what a decoder reads from
/// the appended members is every line of every flush, in order.
pub proof fn law_history_reads_back(members: Seq<Seq<u8>>, batches: Seq<Seq<Seq<char>>>)
    requires
        members.len() == batches.len(),
        members.len() > 0,
        forall|i: int|
            0 <= i < members.len() ==> #[trigger] reads_as(members[i], jsonl(batches[i])),
    ensures
        gunzip(members.flatten()) == Some(jsonl(batches.flatten())),
    decreases members.len(),
{
    let rest_members = members.drop_first();
    let rest_batches = batches.drop_first();
    assert(reads_as(members[0], jsonl(batches[0])));
    assert(members.flatten() == members[0] + rest_members.flatten());
    assert(batches.flatten() == batches[0] + rest_batches.flatten());
    if members.len() == 1 {
        assert(rest_members.flatten() =~= Seq::<u8>::empty());
        assert(rest_batches.flatten() =~= Seq::<Seq<char>>::empty());
        assert(members.flatten() =~= members[0]);
        assert(batches.flatten() =~= batches[0]);
    } else {
        assert forall|i: int| 0 <= i < rest_members.len() implies #[trigger] reads_as(
            rest_members[i],
            jsonl(rest_batches[i]),
        ) by {
            assert(reads_as(members[i + 1], jsonl(batches[i + 1])));
        }
        law_history_reads_back(rest_members, rest_batches);
        let tail = jsonl(rest_batches.flatten());
        assert(gunzip(rest_members.flatten()) == Some(tail));
        lemma_jsonl_concat(batches[0], rest_batches.flatten());
    }
}

/// A line is written as its UTF-8 bytes and a line feed, and no lines are written as nothing.
pub proof fn law_lines_end_with_a_line_feed(line: Seq<char>)
    ensures
        jsonl(seq![line]) == encode_utf8(line) + seq![0x0au8],
        jsonl(Seq::empty()) == Seq::<u8>::empty(),
{
    assert(seq![line].drop_last() =~= Seq::<Seq<char>>::empty());
    assert(jsonl(seq![line].drop_last()) =~= Seq::<u8>::empty());
    assert(Seq::<u8>::empty() + encode_utf8(line).push(LF) =~= encode_utf8(line) + seq![0x0au8]);
}

} // verus!
