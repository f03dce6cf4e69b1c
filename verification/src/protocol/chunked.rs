//! Chunked transfer coding for ICAP encapsulated HTTP bodies (RFC 3507 §4.4.1).
//!
//! The decoder is an incremental state machine: input may arrive in pieces,
//! and each call decodes as much as the bytes at hand allow.

use vstd::prelude::*;
use vstd::utf8::{valid_utf8, decode_utf8};
use crate::text::{
    hex_bytes, format_hex, lemma_hex_parse, lemma_hex_bytes, lemma_first_crlf_at, extend_bytes,
    IntErrorKind, first_crlf_from, is_crlf_at, lemma_first_crlf_from, find_crlf_in, trim_spaces,
    trim_bounds, parse_hex_usize, parse_hex_usize_exec, int_error_message, int_error_text,
    lemma_parse_hex_case_insensitive, ascii_lower, ascii_chars, is_ascii_bytes, lemma_ascii_utf8,
    hex_digit_value, lead_space, trail_space,
};
use crate::bridge::utf8_chars;
use crate::text::{dec_chars, decimal_string};
use crate::error::IcapError;

verus! {

/// Largest chunk size the decoder accepts (1 GiB).
pub const MAX_CHUNK_SIZE: usize = 1073741824;

/// Where the decoder stands in the chunked body.
#[derive(PartialEq, Eq, Structural, Clone, Copy, Debug)]
pub enum ChunkState {
    ReadingSize,
    ReadingChunk,
    ReadingTrailers,
    Complete,
}

/// Errors of the chunked decoder.
#[derive(Clone, Debug)]
pub enum ChunkedParseError {
    InvalidChunkSize(String),
    InvalidEncoding,
    UnexpectedEnd,
    ChunkSizeTooLarge(usize),
    InvalidTrailer,
}

/// Why a chunk-size line was refused.
#[derive(PartialEq, Eq, Structural, Clone, Copy, Debug)]
pub enum SizeLineFault {
    /// The line is not UTF-8.
    Encoding,
    /// The trimmed line is not a hexadecimal `usize`.
    Number(IntErrorKind),
    /// The size is above `MAX_CHUNK_SIZE`.
    TooLarge(usize),
}

/// The error value that reports `f`.
pub open spec fn reports_fault(e: ChunkedParseError, f: SizeLineFault) -> bool {
    match f {
        SizeLineFault::Encoding => e is InvalidEncoding,
        SizeLineFault::Number(k) => e matches ChunkedParseError::InvalidChunkSize(m) && m@
            == int_error_message(k),
        SizeLineFault::TooLarge(n) => e matches ChunkedParseError::ChunkSizeTooLarge(v) && v == n,
    }
}

/// The meaning of a chunk-size line: UTF-8 text, trimmed of white space,
/// read as a hexadecimal `usize` no larger than `MAX_CHUNK_SIZE`.
pub open spec fn size_line(line: Seq<u8>) -> Result<int, SizeLineFault> {
    if !valid_utf8(line) {
        Err(SizeLineFault::Encoding)
    } else {
        match parse_hex_usize(trim_spaces(decode_utf8(line))) {
            Err(k) => Err(SizeLineFault::Number(k)),
            Ok(v) => if v > MAX_CHUNK_SIZE {
                Err(SizeLineFault::TooLarge(v as usize))
            } else {
                Ok(v)
            },
        }
    }
}

/// The abstract state of a decoder.
pub ghost struct ChunkModel {
    pub state: ChunkState,
    /// Declared size of the current chunk.
    pub size: int,
    /// Bytes of the current chunk delivered so far.
    pub read: int,
}

pub open spec fn chunk_model(state: ChunkState, size: int, read: int) -> ChunkModel {
    ChunkModel { state, size, read }
}

/// A fresh decoder, waiting for the first size line.
pub open spec fn initial_model() -> ChunkModel {
    chunk_model(ChunkState::ReadingSize, 0, 0)
}

pub open spec fn model_wf(m: ChunkModel) -> bool {
    0 <= m.read <= m.size <= MAX_CHUNK_SIZE
}

pub open spec fn is_dcrlf_at(d: Seq<u8>, i: int) -> bool {
    is_crlf_at(d, i) && is_crlf_at(d, i + 2)
}

/// The first index at or after `i` where CR LF CR LF starts in `d`.
pub open spec fn first_dcrlf_from(d: Seq<u8>, i: int) -> Option<int>
    decreases d.len() - i,
{
    if i < 0 || i + 3 >= d.len() {
        None
    } else if is_dcrlf_at(d, i) {
        Some(i)
    } else {
        first_dcrlf_from(d, i + 1)
    }
}

pub proof fn lemma_first_dcrlf_from(d: Seq<u8>, i: int)
    requires
        0 <= i,
    ensures
        first_dcrlf_from(d, i) matches Some(k) ==> i <= k && k + 3 < d.len() && is_dcrlf_at(d, k),
        first_dcrlf_from(d, i) is None ==> forall|j: int| i <= j ==> !is_dcrlf_at(d, j),
    decreases d.len() - i,
{
    if i + 3 >= d.len() {
    } else if is_dcrlf_at(d, i) {
    } else {
        lemma_first_dcrlf_from(d, i + 1);
    }
}

/// The bytes of the current chunk that are still to come.
pub open spec fn chunk_remaining(m: ChunkModel) -> int {
    if m.read <= m.size { m.size - m.read } else { 0 }
}

/// True when the chunk at `pos` ends at an early CR LF: the input holds the
/// two bytes after the declared end of the chunk, they are not CR LF, and a
/// CR LF stands before that end.
pub open spec fn chunk_ends_early(m: ChunkModel, d: Seq<u8>, pos: int) -> bool {
    let e = pos + chunk_remaining(m);
    &&& e + 2 <= d.len()
    &&& !is_crlf_at(d, e)
    &&& first_crlf_from(d, pos) matches Some(k) && k < e
}

/// How many bytes of chunk data a decoder in state `m` takes at `pos`: the
/// declared size when CR LF follows it; else, when a CR LF stands before the
/// declared end, the data up to that CR LF (the chunk ends there when the
/// bytes after its declared end are at hand, and stays open while they are
/// not); else as much of the declared size as the input holds.
pub open spec fn chunk_take(m: ChunkModel, d: Seq<u8>, pos: int) -> int {
    let remaining = chunk_remaining(m);
    if is_crlf_at(d, pos + remaining) {
        remaining
    } else if first_crlf_from(d, pos) matches Some(k) && k < pos + remaining {
        first_crlf_from(d, pos)->Some_0 - pos
    } else if remaining < d.len() - pos {
        remaining
    } else {
        d.len() - pos
    }
}

/// The decoder's run over `d` from `pos`: the state it ends in, the data it
/// delivers and the position it stops at; or, where a size line is refused,
/// the state it stops in and the fault.
pub open spec fn chunk_run(m: ChunkModel, d: Seq<u8>, pos: int) -> Result<
    (ChunkModel, Seq<u8>, int),
    (ChunkModel, SizeLineFault),
>
    decreases d.len() - pos,
{
    if pos < 0 || pos >= d.len() {
        Ok((m, Seq::empty(), pos))
    } else {
        match m.state {
            ChunkState::ReadingSize => match first_crlf_from(d, pos) {
                None => Ok((m, Seq::empty(), pos)),
                Some(k) => {
                    proof {
                        lemma_first_crlf_from(d, pos);
                    }
                    match size_line(d.subrange(pos, k)) {
                        Err(f) => Err((m, f)),
                        Ok(n) => if n == 0 {
                            chunk_run(chunk_model(ChunkState::ReadingTrailers, 0, 0), d, k + 2)
                        } else {
                            chunk_run(chunk_model(ChunkState::ReadingChunk, n, 0), d, k + 2)
                        },
                    }
                },
            },
            ChunkState::ReadingChunk => {
                let take = chunk_take(m, d, pos);
                let piece = d.subrange(pos, pos + take);
                let read = m.read + take;
                let size = if chunk_ends_early(m, d, pos) { read } else { m.size };
                let p2 = pos + take;
                if read == size && is_crlf_at(d, p2) {
                    proof {
                        lemma_first_crlf_from(d, pos);
                    }
                    match chunk_run(chunk_model(ChunkState::ReadingSize, size, read), d, p2 + 2) {
                        Ok((m3, out, p3)) => Ok((m3, piece + out, p3)),
                        Err(e) => Err(e),
                    }
                } else {
                    Ok((chunk_model(ChunkState::ReadingChunk, size, read), piece, p2))
                }
            },
            ChunkState::ReadingTrailers => if is_crlf_at(d, pos) {
                Ok((chunk_model(ChunkState::Complete, m.size, m.read), Seq::empty(), pos + 2))
            } else {
                match first_dcrlf_from(d, pos) {
                    Some(k) => Ok(
                        (chunk_model(ChunkState::Complete, m.size, m.read), Seq::empty(), k + 4),
                    ),
                    None => Ok((m, Seq::empty(), pos)),
                }
            },
            ChunkState::Complete => Ok((m, Seq::empty(), pos)),
        }
    }
}

/// Incremental decoder of chunked transfer coding.
#[derive(Clone, Debug)]
pub struct ChunkedParser {
    state: ChunkState,
    current_chunk_size: usize,
    current_chunk_read: usize,
}

impl View for ChunkedParser {
    type V = ChunkModel;

    closed spec fn view(&self) -> ChunkModel {
        chunk_model(self.state, self.current_chunk_size as int, self.current_chunk_read as int)
    }
}

/// Reads a chunk-size line.
fn parse_size_line(line: &[u8]) -> (r: Result<usize, SizeLineFault>)
    ensures
        match r {
            Ok(n) => size_line(line@) == Ok::<int, SizeLineFault>(n as int),
            Err(f) => size_line(line@) == Err::<int, SizeLineFault>(f),
        },
{
    match utf8_chars(line) {
        None => Err(SizeLineFault::Encoding),
        Some(cs) => {
            let (a, b) = trim_bounds(cs.as_slice());
            assert(cs@.subrange(a as int, b as int) == trim_spaces(decode_utf8(line@)));
            let ghost t = trim_spaces(decode_utf8(line@));
            assert(valid_utf8(line@));
            match parse_hex_usize_exec(cs.as_slice(), a, b) {
                Err(k) => {
                    assert(parse_hex_usize(t) == Err::<int, IntErrorKind>(k));
                    Err(SizeLineFault::Number(k))
                },
                Ok(v) => if v > MAX_CHUNK_SIZE {
                    Err(SizeLineFault::TooLarge(v))
                } else {
                    Ok(v)
                },
            }
        },
    }
}

fn fault_to_error(f: SizeLineFault) -> (e: ChunkedParseError)
    ensures
        reports_fault(e, f),
{
    match f {
        SizeLineFault::Encoding => ChunkedParseError::InvalidEncoding,
        SizeLineFault::Number(k) => ChunkedParseError::InvalidChunkSize(int_error_text(k)),
        SizeLineFault::TooLarge(n) => ChunkedParseError::ChunkSizeTooLarge(n),
    }
}

fn find_dcrlf_in(data: &[u8], start: usize) -> (r: Option<usize>)
    requires
        start <= data@.len(),
    ensures
        r matches Some(k) ==> first_dcrlf_from(data@, start as int) == Some(k as int),
        r is None ==> first_dcrlf_from(data@, start as int) is None,
{
    let mut i = start;
    while i < data.len() && data.len() - i >= 4
        invariant
            start <= i <= data@.len(),
            first_dcrlf_from(data@, start as int) == first_dcrlf_from(data@, i as int),
        decreases data@.len() - i,
    {
        if data[i] == 13u8 && data[i + 1] == 10u8 && data[i + 2] == 13u8 && data[i + 3] == 10u8 {
            return Some(i);
        }
        i = i + 1;
    }
    None
}

impl ChunkedParser {
    /// The decoder's state is well formed.
    pub closed spec fn wf(&self) -> bool {
        model_wf(self@)
    }

    /// Creates a decoder that waits for the first chunk-size line.
    pub fn new() -> (r: Self)
        ensures
            r@ == initial_model(),
            r.wf(),
    {
        ChunkedParser { state: ChunkState::ReadingSize, current_chunk_size: 0, current_chunk_read: 0 }
    }

    /// Decodes as much of `input` as it can; returns the decoded data and the
    /// number of input bytes it used. Input that it has not used (an
    /// unfinished size line, trailer or CR LF, or the rest of a chunk from a
    /// CR LF inside it while the chunk's declared end is not yet at hand)
    /// must be handed again, with what follows it, in the next call.
    pub fn parse_chunk(&mut self, input: &[u8]) -> (r: Result<(Vec<u8>, usize), ChunkedParseError>)
        requires
            old(self).wf(),
        ensures
            final(self).wf(),
            r matches Ok((o, c)) ==> c <= input@.len(),
            match chunk_run(old(self)@, input@, 0) {
                Ok((m, out, p)) => r matches Ok((o, c)) && o@ == out && c as int == p && final(self)@
                    == m,
                Err((m, f)) => r matches Err(e) && reports_fault(e, f) && final(self)@ == m,
            },
    {
        let ghost d = input@;
        let ghost m0 = self@;
        assert(m0 == old(self)@);
        let mut output: Vec<u8> = Vec::new();
        let mut pos: usize = 0;
        while pos < input.len()
            invariant
                d == input@,
                m0 == old(self)@,
                pos <= d.len(),
                self.wf(),
                match chunk_run(m0, d, 0) {
                    Ok((mf, of, pf)) => match chunk_run(self@, d, pos as int) {
                        Ok((mc, oc, pc)) => mc == mf && output@ + oc == of && pc == pf,
                        Err(_) => false,
                    },
                    Err(e) => chunk_run(self@, d, pos as int) == Err::<
                        (ChunkModel, Seq<u8>, int),
                        (ChunkModel, SizeLineFault),
                    >(e),
                },
            decreases d.len() - pos,
        {
            let st = self.state;
            match st {
                ChunkState::ReadingSize => {
                    let found = find_crlf_in(input, pos);
                    if found.is_none() {
                        proof {
                            assert(output@ + Seq::<u8>::empty() =~= output@);
                        }
                        return Ok((output, pos));
                    }
                    let k = found.unwrap();
                    proof {
                        lemma_first_crlf_from(d, pos as int);
                    }
                    let line = &input[pos..k];
                    let parsed = parse_size_line(line);
                    if let Err(f) = parsed {
                        proof {
                            assert(line@ == d.subrange(pos as int, k as int));
                        }
                        return Err(fault_to_error(f));
                    }
                    let n = parsed.unwrap();
                    proof {
                        assert(line@ == d.subrange(pos as int, k as int));
                    }
                    if n == 0 {
                        self.state = ChunkState::ReadingTrailers;
                        self.current_chunk_size = 0;
                        self.current_chunk_read = 0;
                    } else {
                        self.state = ChunkState::ReadingChunk;
                        self.current_chunk_size = n;
                        self.current_chunk_read = 0;
                    }
                    pos = k + 2;
                },
                ChunkState::ReadingChunk => {
                    let remaining = self.current_chunk_size - self.current_chunk_read;
                    let avail = input.len() - pos;
                    proof {
                        lemma_first_crlf_from(d, pos as int);
                    }
                    let visible = remaining <= avail && avail - remaining >= 2;
                    let full = visible && input[pos + remaining] == 13u8 && input[pos + remaining + 1] == 10u8;
                    let mut early = false;
                    let mut take = if remaining < avail { remaining } else { avail };
                    if full {
                        take = remaining;
                    } else {
                        match find_crlf_in(input, pos) {
                            Some(k) => {
                                if k - pos < remaining {
                                    early = visible;
                                    take = k - pos;
                                }
                            },
                            None => {},
                        }
                    }
                    proof {
                        assert(full == is_crlf_at(d, pos + remaining));
                        assert(early == chunk_ends_early(self@, d, pos as int));
                        assert(take == chunk_take(self@, d, pos as int));
                    }
                    assert(take <= avail);
                    assert(early ==> take < remaining);
                    assert(take <= remaining);
                    let ghost piece = d.subrange(pos as int, pos + take);
                    let ghost out_before = output@;
                    let end = pos + take;
                    let mut i = pos;
                    while i < end
                        invariant
                            pos <= i <= end,
                            end == pos + take,
                            end <= d.len(),
                            d == input@,
                            output@ == out_before + d.subrange(pos as int, i as int),
                        decreases end - i,
                    {
                        output.push(input[i]);
                        proof {
                            assert(d.subrange(pos as int, i + 1) =~= d.subrange(pos as int, i as int).push(d[i as int]));
                        }
                        i = i + 1;
                    }
                    self.current_chunk_read = self.current_chunk_read + take;
                    if early {
                        self.current_chunk_size = self.current_chunk_read;
                    }
                    let p2 = pos + take;
                    if self.current_chunk_read == self.current_chunk_size && p2 < input.len()
                        && input.len() - p2 >= 2 && input[p2] == 13u8 && input[p2 + 1] == 10u8 {
                        self.state = ChunkState::ReadingSize;
                        pos = p2 + 2;
                        proof {
                            assert(output@ == out_before + piece);
                        }
                    } else {
                        proof {
                            assert(output@ + Seq::<u8>::empty() =~= out_before + piece);
                        }
                        return Ok((output, p2));
                    }
                },
                ChunkState::ReadingTrailers => {
                    if input.len() - pos >= 2 && input[pos] == 13u8 && input[pos + 1] == 10u8 {
                        self.state = ChunkState::Complete;
                        proof {
                            assert(output@ + Seq::<u8>::empty() =~= output@);
                        }
                        return Ok((output, pos + 2));
                    }
                    match find_dcrlf_in(input, pos) {
                        Some(k) => {
                            proof {
                                lemma_first_dcrlf_from(d, pos as int);
                            }
                            self.state = ChunkState::Complete;
                            proof {
                                assert(output@ + Seq::<u8>::empty() =~= output@);
                            }
                            return Ok((output, k + 4));
                        },
                        None => {
                            proof {
                                assert(output@ + Seq::<u8>::empty() =~= output@);
                            }
                            return Ok((output, pos));
                        },
                    }
                },
                ChunkState::Complete => {
                    proof {
                        assert(output@ + Seq::<u8>::empty() =~= output@);
                    }
                    return Ok((output, pos));
                },
            }
        }
        proof {
            assert(output@ + Seq::<u8>::empty() =~= output@);
        }
        Ok((output, pos))
    }

    /// True once the last chunk and the trailer section were read.
    pub fn is_complete(&self) -> (r: bool)
        ensures
            r == (self@.state == ChunkState::Complete),
    {
        self.state == ChunkState::Complete
    }

    /// Puts the decoder back to its initial state.
    pub fn reset(&mut self)
        ensures
            final(self)@ == initial_model(),
            final(self).wf(),
    {
        self.state = ChunkState::ReadingSize;
        self.current_chunk_size = 0;
        self.current_chunk_read = 0;
    }

    /// The decoder's current state.
    pub fn state(&self) -> (r: &ChunkState)
        ensures
            *r == self@.state,
    {
        &self.state
    }
}


/// Largest piece of data that the encoder puts in one chunk (8 KiB).
pub const ENCODE_CHUNK_SIZE: usize = 8192;

/// The last chunk with an empty trailer section: `0 CR LF CR LF`.
pub open spec fn last_chunk() -> Seq<u8> {
    seq![48u8, 13u8, 10u8, 13u8, 10u8]
}

pub open spec fn crlf_bytes() -> Seq<u8> {
    seq![13u8, 10u8]
}

/// The chunked coding of `data`: pieces of at most `ENCODE_CHUNK_SIZE` bytes,
/// each after its size in lowercase hexadecimal, then the last chunk.
pub open spec fn chunked_encoding(data: Seq<u8>) -> Seq<u8>
    decreases data.len(),
{
    if data.len() == 0 {
        last_chunk()
    } else {
        let n = first_piece_len(data);
        hex_bytes(n as nat) + crlf_bytes() + data.take(n) + crlf_bytes() + chunked_encoding(
            data.skip(n),
        )
    }
}

/// Encodes `data` with chunked transfer coding.
pub fn encode_chunked(data: &[u8]) -> (r: Vec<u8>)
    ensures
        r@ == chunked_encoding(data@),
{
    let mut result: Vec<u8> = Vec::new();
    let mut pos: usize = 0;
    let crlf: [u8; 2] = [13u8, 10u8];
    proof {
        assert(data@.skip(0) =~= data@);
        assert(result@ + chunked_encoding(data@) =~= chunked_encoding(data@));
    }
    while pos < data.len()
        invariant
            pos <= data@.len(),
            crlf@ == crlf_bytes(),
            result@ + chunked_encoding(data@.skip(pos as int)) == chunked_encoding(data@),
        decreases data@.len() - pos,
    {
        let n: usize = if data.len() - pos < ENCODE_CHUNK_SIZE {
            data.len() - pos
        } else {
            ENCODE_CHUNK_SIZE
        };
        let ghost rest = data@.skip(pos as int);
        let ghost before = result@;
        let size = format_hex(n);
        extend_bytes(&mut result, size.as_slice());
        extend_bytes(&mut result, crlf.as_slice());
        extend_bytes(&mut result, &data[pos..pos + n]);
        extend_bytes(&mut result, crlf.as_slice());
        proof {
            assert(rest.take(n as int) =~= data@.subrange(pos as int, pos + n));
            assert(rest.skip(n as int) =~= data@.skip(pos + n));
            assert(chunked_encoding(rest) == hex_bytes(n as nat) + crlf_bytes() + rest.take(n as int)
                + crlf_bytes() + chunked_encoding(rest.skip(n as int)));
            assert(result@ =~= before + (hex_bytes(n as nat) + crlf_bytes() + rest.take(n as int)
                + crlf_bytes()));
            assert(before + chunked_encoding(rest) =~= result@ + chunked_encoding(data@.skip(pos + n)));
        }
        pos = pos + n;
    }
    proof {
        assert(data@.skip(pos as int).len() == 0);
    }
    extend_bytes(&mut result, &[48u8, 13u8, 10u8, 13u8, 10u8]);
    proof {
        assert(result@ =~= chunked_encoding(data@));
    }
    result
}

proof fn lemma_size_line_hex(n: nat)
    requires
        n <= MAX_CHUNK_SIZE,
    ensures
        size_line(hex_bytes(n)) == Ok::<int, SizeLineFault>(n as int),
{
    lemma_hex_parse(n);
}

/// The size of the first piece that the encoder cuts from `data`.
pub open spec fn first_piece_len(data: Seq<u8>) -> int {
    if data.len() < ENCODE_CHUNK_SIZE { data.len() as int } else { ENCODE_CHUNK_SIZE as int }
}

proof fn lemma_run_last_chunk(m: ChunkModel, d: Seq<u8>, pos: int)
    requires
        m.state == ChunkState::ReadingSize,
        0 <= pos <= d.len(),
        d.skip(pos) == last_chunk(),
    ensures
        chunk_run(m, d, pos) == Ok::<(ChunkModel, Seq<u8>, int), (ChunkModel, SizeLineFault)>(
            (chunk_model(ChunkState::Complete, 0, 0), Seq::empty(), d.len() as int),
        ),
{
    let e = last_chunk();
    assert(d.skip(pos).len() == d.len() - pos);
    assert(d.len() == pos + 5);
    assert(d[pos] == d.skip(pos)[0]);
    assert(d[pos + 1] == d.skip(pos)[1]);
    assert(d[pos + 2] == d.skip(pos)[2]);
    assert(d[pos + 3] == d.skip(pos)[3]);
    assert(d[pos + 4] == d.skip(pos)[4]);
    assert(!is_crlf_at(d, pos));
    lemma_first_crlf_at(d, pos, pos + 1);
    assert(d.subrange(pos, pos + 1) =~= hex_bytes(0));
    lemma_size_line_hex(0);
    let t = chunk_model(ChunkState::ReadingTrailers, 0, 0);
    assert(is_crlf_at(d, pos + 3));
    assert(chunk_run(t, d, pos + 3) == Ok::<
        (ChunkModel, Seq<u8>, int),
        (ChunkModel, SizeLineFault),
    >((chunk_model(ChunkState::Complete, 0, 0), Seq::empty(), pos + 5)));
}

/// Where the parts of the first chunk stand in `d` when the rest of `d`
/// from `pos` is the coding of non-empty `data`.
proof fn lemma_first_chunk_layout(d: Seq<u8>, pos: int, data: Seq<u8>)
    requires
        0 <= pos <= d.len(),
        d.skip(pos) == chunked_encoding(data),
        data.len() > 0,
    ensures
        ({
            let n = first_piece_len(data);
            let hl = hex_bytes(n as nat).len() as int;
            let p1 = pos + hl + 2;
            &&& 0 < n <= ENCODE_CHUNK_SIZE
            &&& d.subrange(pos, pos + hl) == hex_bytes(n as nat)
            &&& d[pos + hl] == 13u8 && d[pos + hl + 1] == 10u8
            &&& d.subrange(p1, p1 + n) == data.take(n)
            &&& d[p1 + n] == 13u8 && d[p1 + n + 1] == 10u8
            &&& p1 + n + 2 <= d.len()
            &&& d.skip(p1 + n + 2) == chunked_encoding(data.skip(n))
        }),
{
    let e = chunked_encoding(data);
    let n = first_piece_len(data);
    let h = hex_bytes(n as nat);
    let hl = h.len() as int;
    let re = chunked_encoding(data.skip(n));
    assert(e == h + crlf_bytes() + data.take(n) + crlf_bytes() + re);
    let p1 = pos + hl + 2;
    assert(d.skip(pos).len() == d.len() - pos);
    assert(e.subrange(0, hl) =~= h);
    assert(e.subrange(hl + 2, hl + 2 + n) =~= data.take(n));
    assert(e[hl] == 13u8 && e[hl + 1] == 10u8);
    assert(e[hl + 2 + n] == 13u8 && e[hl + 3 + n] == 10u8);
    assert(e.skip(hl + n + 4) =~= re);
    assert(d.subrange(pos, pos + hl) =~= e.subrange(0, hl));
    assert(d.subrange(p1, p1 + n) =~= e.subrange(hl + 2, hl + 2 + n));
    assert(d[pos + hl] == e[hl] && d[pos + hl + 1] == e[hl + 1]);
    assert(d[p1 + n] == e[hl + 2 + n] && d[p1 + n + 1] == e[hl + 3 + n]);
    assert(d.skip(p1 + n + 2) =~= e.skip(hl + n + 4));
}

/// A decoder waiting for a size line at `pos`, where the rest of `d` is the
/// coding of `data`, delivers `data` and reads to the end of `d`.
proof fn lemma_run_encoding(m: ChunkModel, d: Seq<u8>, pos: int, data: Seq<u8>)
    requires
        m.state == ChunkState::ReadingSize,
        0 <= pos <= d.len(),
        d.skip(pos) == chunked_encoding(data),
    ensures
        chunk_run(m, d, pos) == Ok::<(ChunkModel, Seq<u8>, int), (ChunkModel, SizeLineFault)>(
            (chunk_model(ChunkState::Complete, 0, 0), data, d.len() as int),
        ),
    decreases data.len(),
{
    if data.len() == 0 {
        lemma_run_last_chunk(m, d, pos);
        assert(data =~= Seq::<u8>::empty());
    } else {
        lemma_first_chunk_layout(d, pos, data);
        let n = first_piece_len(data);
        let h = hex_bytes(n as nat);
        let hl = h.len() as int;
        let rest = data.skip(n);
        let p1 = pos + hl + 2;
        let p2 = p1 + n + 2;
        lemma_hex_bytes(n as nat);
        assert forall|j: int| pos <= j < pos + hl implies !#[trigger] is_crlf_at(d, j) by {
            assert(d[j] == d.subrange(pos, pos + hl)[j - pos]);
        }
        lemma_first_crlf_at(d, pos, pos + hl);
        lemma_size_line_hex(n as nat);
        let mc = chunk_model(ChunkState::ReadingChunk, n, 0);
        let ms = chunk_model(ChunkState::ReadingSize, n, n);
        assert(chunk_take(mc, d, p1) == n);
        assert(!chunk_ends_early(mc, d, p1));
        assert(is_crlf_at(d, p1 + n));
        lemma_run_encoding(ms, d, p2, rest);
        assert(d.subrange(p1, p1 + n) + rest =~= data);
        assert(chunk_run(mc, d, p1) == Ok::<(ChunkModel, Seq<u8>, int), (ChunkModel, SizeLineFault)>(
            (chunk_model(ChunkState::Complete, 0, 0), data, d.len() as int),
        ));
        assert(size_line(d.subrange(pos, pos + hl)) == Ok::<int, SizeLineFault>(n));
        assert(chunk_run(m, d, pos) == chunk_run(mc, d, p1));
    }
}

/// Decoding what `encode_chunked` writes gives back the data, in one call, and
/// leaves the decoder complete, whatever bytes the data holds.
pub proof fn lemma_decode_encoded(data: Seq<u8>)
    ensures
        chunk_run(initial_model(), chunked_encoding(data), 0) == Ok::<
            (ChunkModel, Seq<u8>, int),
            (ChunkModel, SizeLineFault),
        >((chunk_model(ChunkState::Complete, 0, 0), data, chunked_encoding(data).len() as int)),
{
    let d = chunked_encoding(data);
    assert(d.skip(0) =~= d);
    lemma_run_encoding(initial_model(), d, 0, data);
}


/// A trailer line: not empty, and no CR in it is followed by LF.
pub open spec fn trailer_line_ok(l: Seq<u8>) -> bool {
    &&& l.len() > 0
    &&& forall|j: int| 0 <= j && j + 1 < l.len() ==> !(#[trigger] l[j] == 13u8 && l[j + 1] == 10u8)
}

/// A trailer section: each line followed by CR LF, then an empty line.
pub open spec fn trailer_section(ts: Seq<Seq<u8>>) -> Seq<u8>
    decreases ts.len(),
{
    if ts.len() == 0 {
        crlf_bytes()
    } else {
        ts[0] + crlf_bytes() + trailer_section(ts.drop_first())
    }
}

/// A chunked body: each chunk as its size in lowercase hexadecimal, CR LF,
/// its data and CR LF; then the last chunk `0 CR LF` and the trailer
/// section.
pub open spec fn chunked_body(cs: Seq<Seq<u8>>, ts: Seq<Seq<u8>>) -> Seq<u8>
    decreases cs.len(),
{
    if cs.len() == 0 {
        seq![48u8] + crlf_bytes() + trailer_section(ts)
    } else {
        hex_bytes(cs[0].len()) + crlf_bytes() + cs[0] + crlf_bytes() + chunked_body(cs.drop_first(), ts)
    }
}

/// The data of the chunks, in order.
pub open spec fn chunks_data(cs: Seq<Seq<u8>>) -> Seq<u8>
    decreases cs.len(),
{
    if cs.len() == 0 {
        Seq::empty()
    } else {
        cs[0] + chunks_data(cs.drop_first())
    }
}

/// Chunks and trailer lines that make a well-formed body: each chunk holds
/// 1 to `MAX_CHUNK_SIZE` bytes of any kind, each trailer line is a line.
pub open spec fn body_parts_ok(cs: Seq<Seq<u8>>, ts: Seq<Seq<u8>>) -> bool {
    &&& forall|i: int| 0 <= i < cs.len() ==> 0 < (#[trigger] cs[i]).len() <= MAX_CHUNK_SIZE
    &&& forall|j: int| 0 <= j < ts.len() ==> trailer_line_ok(#[trigger] ts[j])
}

proof fn lemma_first_dcrlf_at(d: Seq<u8>, i: int, k: int)
    requires
        0 <= i <= k,
        k + 3 < d.len(),
        is_dcrlf_at(d, k),
        forall|j: int| i <= j < k ==> !#[trigger] is_dcrlf_at(d, j),
    ensures
        first_dcrlf_from(d, i) == Some(k),
    decreases k - i,
{
    if i < k {
        lemma_first_dcrlf_at(d, i + 1, k);
    }
}

/// In a non-empty trailer section, the only CR LF CR LF is the one that ends it.
proof fn lemma_trailer_dcrlf(ts: Seq<Seq<u8>>)
    requires
        ts.len() > 0,
        forall|j: int| 0 <= j < ts.len() ==> trailer_line_ok(#[trigger] ts[j]),
    ensures
        trailer_section(ts).len() >= 5,
        is_dcrlf_at(trailer_section(ts), trailer_section(ts).len() - 4),
        forall|j: int| 0 <= j < trailer_section(ts).len() - 4 ==> !#[trigger] is_dcrlf_at(trailer_section(ts), j),
        !is_crlf_at(trailer_section(ts), 0),
    decreases ts.len(),
{
    let t = trailer_section(ts);
    let l = ts[0];
    let rest = ts.drop_first();
    let rt = trailer_section(rest);
    assert(trailer_line_ok(ts[0]));
    assert(t == l + crlf_bytes() + rt);
    let ll = l.len() as int;
    assert(t[ll] == 13u8 && t[ll + 1] == 10u8);
    assert forall|j: int| 0 <= j < ll implies !#[trigger] is_crlf_at(t, j) by {
        if j + 1 < ll {
            assert(t[j] == l[j] && t[j + 1] == l[j + 1]);
        } else {
            assert(t[j + 1] == 13u8);
        }
    }
    if rest.len() == 0 {
        assert(rt =~= seq![13u8, 10u8]);
        assert(t.len() == ll + 4);
    } else {
        assert forall|j: int| 0 <= j < rest.len() implies trailer_line_ok(#[trigger] rest[j]) by {
            assert(rest[j] == ts[j + 1]);
        }
        lemma_trailer_dcrlf(rest);
        let q = ll + 2;
        assert forall|j: int| 0 <= j < rt.len() implies t[q + j] == #[trigger] rt[j] by {}
        assert(!is_crlf_at(t, q)) by {
            assert(!is_crlf_at(rt, 0));
            assert(t[q] == rt[0] && t[q + 1] == rt[1]);
        }
        assert forall|j: int| 0 <= j < t.len() - 4 implies !#[trigger] is_dcrlf_at(t, j) by {
            if j >= q {
                assert(!is_dcrlf_at(rt, j - q));
                assert(t[j] == rt[j - q] && t[j + 1] == rt[j - q + 1]);
                assert(t[j + 2] == rt[j - q + 2] && t[j + 3] == rt[j - q + 3]);
            } else if j == ll + 1 {
                assert(t[j] == 10u8);
            }
        }
        assert(t[t.len() - 4] == rt[rt.len() - 4] && t[t.len() - 3] == rt[rt.len() - 3]);
        assert(t[t.len() - 2] == rt[rt.len() - 2] && t[t.len() - 1] == rt[rt.len() - 1]);
    }
}

/// A decoder waiting for trailers at `q`, where the rest of `d` is a trailer
/// section, reads to the end of `d` and completes.
proof fn lemma_run_trailers(m: ChunkModel, d: Seq<u8>, q: int, ts: Seq<Seq<u8>>)
    requires
        m.state == ChunkState::ReadingTrailers,
        0 <= q <= d.len(),
        d.skip(q) == trailer_section(ts),
        forall|j: int| 0 <= j < ts.len() ==> trailer_line_ok(#[trigger] ts[j]),
    ensures
        chunk_run(m, d, q) == Ok::<(ChunkModel, Seq<u8>, int), (ChunkModel, SizeLineFault)>(
            (chunk_model(ChunkState::Complete, m.size, m.read), Seq::empty(), d.len() as int),
        ),
{
    let t = trailer_section(ts);
    assert(d.skip(q).len() == d.len() - q);
    assert forall|j: int| 0 <= j < t.len() implies d[q + j] == #[trigger] t[j] by {
        assert(d.skip(q)[j] == d[q + j]);
    }
    if ts.len() == 0 {
        assert(t =~= seq![13u8, 10u8]);
        assert(d[q] == t[0] && d[q + 1] == t[1]);
    } else {
        lemma_trailer_dcrlf(ts);
        assert(d[q] == t[0] && d[q + 1] == t[1]);
        let k = d.len() - 4;
        assert forall|j: int| q <= j < k implies !#[trigger] is_dcrlf_at(d, j) by {
            assert(!is_dcrlf_at(t, j - q));
            assert(d[j] == t[j - q] && d[j + 1] == t[j - q + 1]);
            assert(d[j + 2] == t[j - q + 2] && d[j + 3] == t[j - q + 3]);
        }
        assert(d[k] == t[k - q] && d[k + 1] == t[k - q + 1] && d[k + 2] == t[k - q + 2] && d[k + 3] == t[k - q + 3]);
        lemma_first_dcrlf_at(d, q, k);
    }
}

/// A decoder waiting for a size line at `pos`, where the rest of `d` is a
/// well-formed chunked body, delivers the data of its chunks, reads to the
/// end of `d` and completes.
proof fn lemma_run_body(m: ChunkModel, d: Seq<u8>, pos: int, cs: Seq<Seq<u8>>, ts: Seq<Seq<u8>>)
    requires
        m.state == ChunkState::ReadingSize,
        0 <= pos <= d.len(),
        d.skip(pos) == chunked_body(cs, ts),
        body_parts_ok(cs, ts),
    ensures
        chunk_run(m, d, pos) == Ok::<(ChunkModel, Seq<u8>, int), (ChunkModel, SizeLineFault)>(
            (chunk_model(ChunkState::Complete, 0, 0), chunks_data(cs), d.len() as int),
        ),
    decreases cs.len(),
{
    let b = chunked_body(cs, ts);
    assert(d.skip(pos).len() == d.len() - pos);
    assert forall|j: int| 0 <= j < b.len() implies d[pos + j] == #[trigger] b[j] by {
        assert(d.skip(pos)[j] == d[pos + j]);
    }
    if cs.len() == 0 {
        let t = trailer_section(ts);
        assert(b == seq![48u8] + crlf_bytes() + t);
        assert(d[pos] == b[0] && d[pos + 1] == b[1] && d[pos + 2] == b[2]);
        assert(!is_crlf_at(d, pos));
        lemma_first_crlf_at(d, pos, pos + 1);
        assert(d.subrange(pos, pos + 1) =~= hex_bytes(0));
        lemma_size_line_hex(0);
        assert(d.skip(pos + 3) =~= t) by {
            assert forall|j: int| 0 <= j < t.len() implies d.skip(pos + 3)[j] == t[j] by {
                assert(d[pos + 3 + j] == b[3 + j]);
            }
        }
        lemma_run_trailers(chunk_model(ChunkState::ReadingTrailers, 0, 0), d, pos + 3, ts);
        assert(chunks_data(cs) =~= Seq::<u8>::empty());
    } else {
        let c = cs[0];
        let n = c.len() as int;
        assert(0 < n <= MAX_CHUNK_SIZE);
        let h = hex_bytes(n as nat);
        let hl = h.len() as int;
        let rest = cs.drop_first();
        let rb = chunked_body(rest, ts);
        assert(b == h + crlf_bytes() + c + crlf_bytes() + rb);
        let p1 = pos + hl + 2;
        let p2 = p1 + n + 2;
        lemma_hex_bytes(n as nat);
        assert forall|j: int| pos <= j < pos + hl implies !#[trigger] is_crlf_at(d, j) by {
            assert(d[j] == b[j - pos]);
            assert(b[j - pos] == h[j - pos]);
        }
        assert(d[pos + hl] == b[hl] && d[pos + hl + 1] == b[hl + 1]);
        lemma_first_crlf_at(d, pos, pos + hl);
        assert(d.subrange(pos, pos + hl) =~= h) by {
            assert forall|j: int| 0 <= j < hl implies d.subrange(pos, pos + hl)[j] == h[j] by {
                assert(d[pos + j] == b[j]);
            }
        }
        lemma_size_line_hex(n as nat);
        assert(d[p1 + n] == b[hl + 2 + n] && d[p1 + n + 1] == b[hl + 3 + n]);
        assert(is_crlf_at(d, p1 + n));
        let mc = chunk_model(ChunkState::ReadingChunk, n, 0);
        let ms = chunk_model(ChunkState::ReadingSize, n, n);
        assert(chunk_take(mc, d, p1) == n);
        assert(!chunk_ends_early(mc, d, p1));
        assert(d.subrange(p1, p1 + n) =~= c) by {
            assert forall|j: int| 0 <= j < n implies d.subrange(p1, p1 + n)[j] == c[j] by {
                assert(d[p1 + j] == b[hl + 2 + j]);
            }
        }
        assert(d.skip(p2) =~= rb) by {
            assert forall|j: int| 0 <= j < rb.len() implies d.skip(p2)[j] == rb[j] by {
                assert(d[p2 + j] == b[hl + n + 4 + j]);
            }
        }
        assert forall|i: int| 0 <= i < rest.len() implies 0 < (#[trigger] rest[i]).len() <= MAX_CHUNK_SIZE by {
            assert(rest[i] == cs[i + 1]);
        }
        lemma_run_body(ms, d, p2, rest, ts);
        assert(chunks_data(cs) == c + chunks_data(rest));
        assert(chunk_run(mc, d, p1) == Ok::<(ChunkModel, Seq<u8>, int), (ChunkModel, SizeLineFault)>(
            (chunk_model(ChunkState::Complete, 0, 0), chunks_data(cs), d.len() as int),
        ));
        assert(chunk_run(m, d, pos) == chunk_run(mc, d, p1));
    }
}

/// A well-formed chunked body, whatever bytes its chunks hold and whatever
/// trailer lines it has, decodes in one call to the data of its chunks, is
/// read to its end, and leaves the decoder complete.
pub proof fn lemma_decode_body(cs: Seq<Seq<u8>>, ts: Seq<Seq<u8>>)
    requires
        body_parts_ok(cs, ts),
    ensures
        chunk_run(initial_model(), chunked_body(cs, ts), 0) == Ok::<
            (ChunkModel, Seq<u8>, int),
            (ChunkModel, SizeLineFault),
        >((chunk_model(ChunkState::Complete, 0, 0), chunks_data(cs), chunked_body(cs, ts).len() as int)),
{
    let d = chunked_body(cs, ts);
    assert(d.skip(0) =~= d);
    lemma_run_body(initial_model(), d, 0, cs, ts);
}

proof fn lemma_first_dcrlf_none_before(d: Seq<u8>, i: int)
    requires
        0 <= i,
    ensures
        first_dcrlf_from(d, i) matches Some(k) ==> forall|j: int| i <= j < k ==> !#[trigger] is_dcrlf_at(d, j),
    decreases d.len() - i,
{
    if i + 3 < d.len() && !is_dcrlf_at(d, i) {
        lemma_first_dcrlf_none_before(d, i + 1);
    }
}

/// A run's result with its stopping position moved back by `c`.
pub open spec fn run_shifted(
    r: Result<(ChunkModel, Seq<u8>, int), (ChunkModel, SizeLineFault)>,
    c: int,
) -> Result<(ChunkModel, Seq<u8>, int), (ChunkModel, SizeLineFault)> {
    match r {
        Ok((m, o, q)) => Ok((m, o, q - c)),
        Err(e) => Err(e),
    }
}

proof fn lemma_first_crlf_shift(d: Seq<u8>, c: int, i: int)
    requires
        0 <= c <= d.len(),
        0 <= i,
    ensures
        first_crlf_from(d.skip(c), i) == match first_crlf_from(d, c + i) {
            Some(k) => Some(k - c),
            None => None::<int>,
        },
{
    let a = d.skip(c);
    assert forall|j: int| 0 <= j implies #[trigger] is_crlf_at(a, j) == is_crlf_at(d, c + j) by {
        if 0 <= j && j + 1 < a.len() {
            assert(a[j] == d[c + j] && a[j + 1] == d[c + j + 1]);
        }
    }
    lemma_first_crlf_from(a, i);
    lemma_first_crlf_from(d, c + i);
    match first_crlf_from(a, i) {
        Some(k) => {
            assert(is_crlf_at(d, c + k));
            assert forall|j: int| c + i <= j < c + k implies !#[trigger] is_crlf_at(d, j) by {
                assert(is_crlf_at(a, j - c) == is_crlf_at(d, j));
            }
            lemma_first_crlf_at(d, c + i, c + k);
        },
        None => {
            if let Some(k2) = first_crlf_from(d, c + i) {
                assert(is_crlf_at(a, k2 - c) == is_crlf_at(d, k2));
            }
        },
    }
}

proof fn lemma_first_dcrlf_shift(d: Seq<u8>, c: int, i: int)
    requires
        0 <= c <= d.len(),
        0 <= i,
    ensures
        first_dcrlf_from(d.skip(c), i) == match first_dcrlf_from(d, c + i) {
            Some(k) => Some(k - c),
            None => None::<int>,
        },
{
    let a = d.skip(c);
    assert forall|j: int| 0 <= j && j + 3 < a.len() implies #[trigger] is_dcrlf_at(a, j) == is_dcrlf_at(d, c + j) by {
        assert(a[j] == d[c + j] && a[j + 1] == d[c + j + 1] && a[j + 2] == d[c + j + 2] && a[j + 3] == d[c + j + 3]);
    }
    lemma_first_dcrlf_from(a, i);
    lemma_first_dcrlf_from(d, c + i);
    lemma_first_dcrlf_none_before(a, i);
    match first_dcrlf_from(a, i) {
        Some(k) => {
            assert(is_dcrlf_at(d, c + k));
            assert forall|j: int| c + i <= j < c + k implies !#[trigger] is_dcrlf_at(d, j) by {
                if is_dcrlf_at(d, j) {
                    assert(is_dcrlf_at(a, j - c) == is_dcrlf_at(d, j));
                }
            }
            lemma_first_dcrlf_at(d, c + i, c + k);
        },
        None => {
            if let Some(k2) = first_dcrlf_from(d, c + i) {
                assert(is_dcrlf_at(a, k2 - c) == is_dcrlf_at(d, k2));
                assert(false);
            }
        },
    }
}

/// Running the decoder on the input from `c` on is running it on the whole
/// input from `c`, with positions counted from `c`.
#[verifier::rlimit(40)]
proof fn lemma_run_shift(m: ChunkModel, d: Seq<u8>, c: int, p: int)
    requires
        0 <= c <= d.len(),
        0 <= p,
    ensures
        chunk_run(m, d.skip(c), p) == run_shifted(chunk_run(m, d, c + p), c),
    decreases d.len() - c - p,
{
    let a = d.skip(c);
    if p >= a.len() {
    } else {
        assert(is_crlf_at(a, p) == is_crlf_at(d, c + p)) by {
            if p + 1 < a.len() {
                assert(a[p] == d[c + p] && a[p + 1] == d[c + p + 1]);
            }
        }
        match m.state {
            ChunkState::ReadingSize => {
                lemma_first_crlf_shift(d, c, p);
                lemma_first_crlf_from(a, p);
                if let Some(k) = first_crlf_from(a, p) {
                    assert(a.subrange(p, k) =~= d.subrange(c + p, c + k));
                    lemma_run_shift(chunk_model(ChunkState::ReadingTrailers, 0, 0), d, c, k + 2);
                    match size_line(a.subrange(p, k)) {
                        Ok(n) => {
                            lemma_run_shift(chunk_model(ChunkState::ReadingChunk, n, 0), d, c, k + 2);
                        },
                        Err(_) => {},
                    }
                }
            },
            ChunkState::ReadingChunk => {
                let r = chunk_remaining(m);
                lemma_first_crlf_shift(d, c, p);
                lemma_first_crlf_from(a, p);
                assert(is_crlf_at(a, p + r) == is_crlf_at(d, c + p + r)) by {
                    if 0 <= p + r && p + r + 1 < a.len() {
                        assert(a[p + r] == d[c + p + r] && a[p + r + 1] == d[c + p + r + 1]);
                    }
                }
                assert(chunk_ends_early(m, a, p) == chunk_ends_early(m, d, c + p));
                let take = chunk_take(m, a, p);
                assert(take == chunk_take(m, d, c + p));
                assert(a.subrange(p, p + take) =~= d.subrange(c + p, c + p + take));
                let p2 = p + take;
                assert(is_crlf_at(a, p2) == is_crlf_at(d, c + p2)) by {
                    if 0 <= p2 && p2 + 1 < a.len() {
                        assert(a[p2] == d[c + p2] && a[p2 + 1] == d[c + p2 + 1]);
                    }
                }
                let read = m.read + take;
                let size = if chunk_ends_early(m, a, p) { read } else { m.size };
                if read == size && is_crlf_at(a, p2) {
                    lemma_first_crlf_from(a, p);
                    lemma_run_shift(chunk_model(ChunkState::ReadingSize, size, read), d, c, p2 + 2);
                }
            },
            ChunkState::ReadingTrailers => {
                lemma_first_dcrlf_shift(d, c, p);
            },
            ChunkState::Complete => {},
        }
    }
}

/// What a run on the input up to `k` leaves, and a run resumed from there on
/// the whole input, deliver together: the data of the chunks, ending complete
/// at the end of the input.
pub open spec fn split_run_ok(m: ChunkModel, d: Seq<u8>, k: int, pos: int, data: Seq<u8>) -> bool {
    match chunk_run(m, d.take(k), pos) {
        Ok((m1, o1, c1)) => pos <= c1 <= k && match chunk_run(m1, d, c1) {
            Ok((m2, o2, c2)) => m2 == chunk_model(ChunkState::Complete, 0, 0) && c2 == d.len() && o1 + o2 == data,
            Err(_) => false,
        },
        Err(_) => false,
    }
}

proof fn lemma_run_prefix_trailers(d: Seq<u8>, k: int, q: int, ts: Seq<Seq<u8>>)
    requires
        0 <= q <= k <= d.len(),
        d.skip(q) == trailer_section(ts),
        forall|j: int| 0 <= j < ts.len() ==> trailer_line_ok(#[trigger] ts[j]),
    ensures
        split_run_ok(chunk_model(ChunkState::ReadingTrailers, 0, 0), d, k, q, Seq::empty()),
{
    let mt = chunk_model(ChunkState::ReadingTrailers, 0, 0);
    let mc = chunk_model(ChunkState::Complete, 0, 0);
    let p = d.take(k);
    let t = trailer_section(ts);
    assert(d.skip(q).len() == d.len() - q);
    assert forall|j: int| 0 <= j < t.len() implies d[q + j] == #[trigger] t[j] by {
        assert(d.skip(q)[j] == d[q + j]);
    }
    lemma_run_trailers(mt, d, q, ts);
    if k == d.len() {
        assert(p =~= d);
        assert(chunk_run(mc, d, d.len() as int) == Ok::<(ChunkModel, Seq<u8>, int), (ChunkModel, SizeLineFault)>(
            (mc, Seq::empty(), d.len() as int)));
        assert(Seq::<u8>::empty() + Seq::<u8>::empty() =~= Seq::<u8>::empty());
    } else if q == k {
        assert(Seq::<u8>::empty() + Seq::<u8>::empty() =~= Seq::<u8>::empty());
    } else {
        assert(!is_crlf_at(p, q)) by {
            if is_crlf_at(p, q) {
                assert(p[q] == d[q] && p[q + 1] == d[q + 1]);
                if ts.len() == 0 {
                    assert(t.len() == 2);
                } else {
                    lemma_trailer_dcrlf(ts);
                    assert(d[q] == t[0] && d[q + 1] == t[1]);
                }
            }
        }
        lemma_first_dcrlf_from(p, q);
        if let Some(f) = first_dcrlf_from(p, q) {
            assert(p[f] == d[f] && p[f + 1] == d[f + 1] && p[f + 2] == d[f + 2] && p[f + 3] == d[f + 3]);
            if ts.len() == 0 {
                assert(t.len() == 2);
            } else {
                lemma_trailer_dcrlf(ts);
                assert(!is_dcrlf_at(t, f - q));
                assert(d[f] == t[f - q] && d[f + 1] == t[f - q + 1] && d[f + 2] == t[f - q + 2] && d[f + 3] == t[f - q + 3]);
            }
        }
        assert(Seq::<u8>::empty() + Seq::<u8>::empty() =~= Seq::<u8>::empty());
    }
}

type RunResult = Result<(ChunkModel, Seq<u8>, int), (ChunkModel, SizeLineFault)>;

/// A decoder reading the chunk `c` at `p1`, on the input cut at `k` inside
/// the chunk's data or just after it, and resumed on the whole input.
proof fn lemma_split_in_chunk(d: Seq<u8>, k: int, p1: int, c: Seq<u8>, rest: Seq<u8>)
    requires
        0 <= p1 <= k <= p1 + c.len() + 1,
        p1 + c.len() + 2 <= d.len(),
        0 < c.len() <= MAX_CHUNK_SIZE,
        forall|j: int| 0 <= j < c.len() ==> d[p1 + j] == #[trigger] c[j],
        is_crlf_at(d, p1 + c.len()),
        chunk_run(chunk_model(ChunkState::ReadingSize, c.len() as int, c.len() as int), d, p1 + c.len() + 2)
            == RunResult::Ok((chunk_model(ChunkState::Complete, 0, 0), rest, d.len() as int)),
    ensures
        split_run_ok(chunk_model(ChunkState::ReadingChunk, c.len() as int, 0), d, k, p1, c + rest),
{
    let n = c.len() as int;
    let e = p1 + n;
    let p = d.take(k);
    let mc = chunk_model(ChunkState::ReadingChunk, n, 0);
    lemma_first_crlf_from(p, p1);
    let inner = first_crlf_from(p, p1) matches Some(f) && f < e;
    let take: int = if inner { first_crlf_from(p, p1)->Some_0 - p1 } else if k == e + 1 { n } else { k - p1 };
    let mr = chunk_model(ChunkState::ReadingChunk, n, take);
    let o1 = p.subrange(p1, p1 + take);
    let c1 = p1 + take;
    if let Some(f) = first_crlf_from(p, p1) {
        assert(p[f + 1] == d[f + 1]);
    }
    assert(!is_crlf_at(p, e));
    assert(!chunk_ends_early(mc, p, p1));
    assert(chunk_take(mc, p, p1) == take);
    assert(0 <= take <= n);
    assert(take == n ==> !is_crlf_at(p, p1 + take));
    if p1 == k {
        assert(o1 =~= Seq::<u8>::empty());
    }
    assert(chunk_run(mc, p, p1) == RunResult::Ok((mr, o1, c1)));
    assert(chunk_take(mr, d, c1) == n - take);
    assert(!chunk_ends_early(mr, d, c1));
    let o2a = d.subrange(c1, e);
    lemma_first_crlf_from(d, c1);
    assert(chunk_run(mr, d, c1) == RunResult::Ok(
        (chunk_model(ChunkState::Complete, 0, 0), o2a + rest, d.len() as int)));
    assert(o1 + o2a =~= c) by {
        assert forall|j: int| 0 <= j < n implies (o1 + o2a)[j] == c[j] by {
            if j < take {
                assert(o1[j] == p[p1 + j] && p[p1 + j] == d[p1 + j]);
            } else {
                assert(o2a[j - take] == d[c1 + j - take]);
            }
        }
    }
    assert(o1 + (o2a + rest) =~= c + rest);
}

/// A decoder reading the chunk `c` at `p1`, on the input cut after the
/// CR LF that ends the chunk: it delivers `c` before what the run from the
/// next size line delivers.
proof fn lemma_split_after_chunk(d: Seq<u8>, k: int, p1: int, c: Seq<u8>, data: Seq<u8>)
    requires
        0 <= p1,
        p1 + c.len() + 2 <= k <= d.len(),
        0 < c.len() <= MAX_CHUNK_SIZE,
        forall|j: int| 0 <= j < c.len() ==> d[p1 + j] == #[trigger] c[j],
        is_crlf_at(d, p1 + c.len()),
        split_run_ok(
            chunk_model(ChunkState::ReadingSize, c.len() as int, c.len() as int),
            d,
            k,
            p1 + c.len() + 2,
            data,
        ),
    ensures
        split_run_ok(chunk_model(ChunkState::ReadingChunk, c.len() as int, 0), d, k, p1, c + data),
{
    let n = c.len() as int;
    let e = p1 + n;
    let p = d.take(k);
    let mc = chunk_model(ChunkState::ReadingChunk, n, 0);
    let ms = chunk_model(ChunkState::ReadingSize, n, n);
    assert(p[e] == d[e] && p[e + 1] == d[e + 1]);
    assert(is_crlf_at(p, e));
    assert(chunk_take(mc, p, p1) == n);
    assert(!chunk_ends_early(mc, p, p1));
    assert(p.subrange(p1, e) =~= c) by {
        assert forall|j: int| 0 <= j < n implies p.subrange(p1, e)[j] == c[j] by {
            assert(p[p1 + j] == d[p1 + j]);
        }
    }
    lemma_first_crlf_from(p, p1);
    match chunk_run(ms, p, e + 2) {
        Ok((m1, o1, c1)) => {
            assert(chunk_run(mc, p, p1) == RunResult::Ok((m1, c + o1, c1)));
            match chunk_run(m1, d, c1) {
                Ok((m2, o2, c2)) => {
                    assert(c + o1 + o2 =~= c + (o1 + o2));
                },
                Err(_) => {},
            }
        },
        Err(_) => {},
    }
}

#[verifier::rlimit(40)]
proof fn lemma_run_prefix(m: ChunkModel, d: Seq<u8>, k: int, pos: int, cs: Seq<Seq<u8>>, ts: Seq<Seq<u8>>)
    requires
        m.state == ChunkState::ReadingSize,
        0 <= pos <= k <= d.len(),
        d.skip(pos) == chunked_body(cs, ts),
        body_parts_ok(cs, ts),
    ensures
        split_run_ok(m, d, k, pos, chunks_data(cs)),
    decreases cs.len(),
{
    let p = d.take(k);
    let b = chunked_body(cs, ts);
    assert(d.skip(pos).len() == d.len() - pos);
    assert forall|j: int| 0 <= j < b.len() implies d[pos + j] == #[trigger] b[j] by {
        assert(d.skip(pos)[j] == d[pos + j]);
    }
    assert forall|j: int| 0 <= j < k implies #[trigger] p[j] == d[j] by {}
    lemma_run_body(m, d, pos, cs, ts);
    if cs.len() == 0 {
        let t = trailer_section(ts);
        assert(b == seq![48u8] + crlf_bytes() + t);
        assert(d[pos] == b[0] && d[pos + 1] == b[1] && d[pos + 2] == b[2]);
        if k < pos + 3 {
            lemma_first_crlf_from(p, pos);
            if let Some(f) = first_crlf_from(p, pos) {
                assert(p[f] == d[f]);
            }
            assert(Seq::<u8>::empty() + chunks_data(cs) =~= chunks_data(cs));
        } else {
            assert(p[pos] == d[pos] && p[pos + 1] == d[pos + 1] && p[pos + 2] == d[pos + 2]);
            lemma_first_crlf_at(p, pos, pos + 1);
            assert(p.subrange(pos, pos + 1) =~= hex_bytes(0));
            lemma_size_line_hex(0);
            assert(d.skip(pos + 3) =~= t) by {
                assert forall|j: int| 0 <= j < t.len() implies d.skip(pos + 3)[j] == t[j] by {
                    assert(d[pos + 3 + j] == b[3 + j]);
                }
            }
            lemma_run_prefix_trailers(d, k, pos + 3, ts);
            assert(chunks_data(cs) =~= Seq::<u8>::empty());
        }
    } else {
        let c = cs[0];
        let n = c.len() as int;
        assert(0 < n <= MAX_CHUNK_SIZE);
        let h = hex_bytes(n as nat);
        let hl = h.len() as int;
        let rest = cs.drop_first();
        let rb = chunked_body(rest, ts);
        assert(b == h + crlf_bytes() + c + crlf_bytes() + rb);
        let p1 = pos + hl + 2;
        let e = p1 + n;
        let p2 = e + 2;
        lemma_hex_bytes(n as nat);
        assert forall|j: int| pos <= j < pos + hl implies d[j] != 13u8 by {
            assert(d[j] == b[j - pos]);
            assert(b[j - pos] == h[j - pos]);
        }
        assert(d[pos + hl] == b[hl] && d[pos + hl + 1] == b[hl + 1]);
        assert(d[e] == b[hl + 2 + n] && d[e + 1] == b[hl + 3 + n]);
        assert forall|j: int| 0 <= j < n implies d[p1 + j] == #[trigger] c[j] by {
            assert(d[p1 + j] == b[hl + 2 + j]);
        }
        if k <= pos + hl + 1 {
            lemma_first_crlf_from(p, pos);
            if let Some(f) = first_crlf_from(p, pos) {
                assert(p[f] == d[f]);
            }
            assert(Seq::<u8>::empty() + chunks_data(cs) =~= chunks_data(cs));
        } else {
            assert forall|j: int| pos <= j < pos + hl implies !#[trigger] is_crlf_at(p, j) by {
                assert(p[j] == d[j]);
            }
            assert(p[pos + hl] == d[pos + hl] && p[pos + hl + 1] == d[pos + hl + 1]);
            lemma_first_crlf_at(p, pos, pos + hl);
            assert(p.subrange(pos, pos + hl) =~= h) by {
                assert forall|j: int| 0 <= j < hl implies p.subrange(pos, pos + hl)[j] == h[j] by {
                    assert(p[pos + j] == d[pos + j] && d[pos + j] == b[j]);
                }
            }
            lemma_size_line_hex(n as nat);
            let mc = chunk_model(ChunkState::ReadingChunk, n, 0);
            assert(chunk_run(m, p, pos) == chunk_run(mc, p, p1));
            assert(d.skip(p2) =~= rb) by {
                assert forall|j: int| 0 <= j < rb.len() implies d.skip(p2)[j] == rb[j] by {
                    assert(d[p2 + j] == b[hl + n + 4 + j]);
                }
            }
            assert forall|i: int| 0 <= i < rest.len() implies 0 < (#[trigger] rest[i]).len() <= MAX_CHUNK_SIZE by {
                assert(rest[i] == cs[i + 1]);
            }
            let ms = chunk_model(ChunkState::ReadingSize, n, n);
            lemma_run_body(ms, d, p2, rest, ts);
            assert(chunks_data(cs) == c + chunks_data(rest));
            if k <= e + 1 {
                lemma_split_in_chunk(d, k, p1, c, chunks_data(rest));
            } else {
                lemma_run_prefix(ms, d, k, p2, rest, ts);
                lemma_split_after_chunk(d, k, p1, c, chunks_data(rest));
            }
        }
    }
}

/// Feeding a well-formed chunked body in two pieces, cut anywhere, gives the
/// same data as one call: the first call on the input up to the cut uses some
/// of it, and a second call on the input from there on, in the state the
/// first left, delivers the rest and completes at the end, wherever the cut
/// falls.
pub proof fn lemma_split_decode(cs: Seq<Seq<u8>>, ts: Seq<Seq<u8>>, k: int)
    requires
        body_parts_ok(cs, ts),
        0 <= k <= chunked_body(cs, ts).len(),
    ensures
        ({
            let b = chunked_body(cs, ts);
            match chunk_run(initial_model(), b.take(k), 0) {
                Ok((m1, o1, c1)) => c1 <= k && match chunk_run(m1, b.skip(c1), 0) {
                    Ok((m2, o2, c2)) => m2 == chunk_model(ChunkState::Complete, 0, 0) && c2 == b.len() - c1
                        && o1 + o2 == chunks_data(cs),
                    Err(_) => false,
                },
                Err(_) => false,
            }
        }),
{
    let b = chunked_body(cs, ts);
    assert(b.skip(0) =~= b);
    lemma_run_prefix(initial_model(), b, k, 0, cs, ts);
    match chunk_run(initial_model(), b.take(k), 0) {
        Ok((m1, o1, c1)) => {
            lemma_run_shift(m1, b, c1, 0);
        },
        Err(_) => {},
    }
}

/// The byte with ASCII lower case letters mapped to upper case.
pub open spec fn upper_byte(b: u8) -> u8 {
    if 97 <= b <= 122 { (b - 32) as u8 } else { b }
}

/// `n` in upper-case hexadecimal.
pub open spec fn hex_bytes_upper(n: nat) -> Seq<u8> {
    Seq::new(hex_bytes(n).len(), |i: int| upper_byte(hex_bytes(n)[i]))
}

/// A chunk-size line written in upper-case hexadecimal reads as the same
/// size as in lower case: the size line `A` is 10, `1F` is 31.
pub proof fn lemma_size_line_upper_hex(n: nat)
    requires
        n <= MAX_CHUNK_SIZE,
    ensures
        size_line(hex_bytes_upper(n)) == Ok::<int, SizeLineFault>(n as int),
{
    let h = hex_bytes(n);
    let u = hex_bytes_upper(n);
    lemma_hex_bytes(n);
    lemma_hex_parse(n);
    lemma_ascii_utf8(h);
    let ch = ascii_chars(h);
    assert(is_ascii_bytes(u)) by {
        assert forall|i: int| 0 <= i < u.len() implies #[trigger] u[i] < 128 by {
            assert(h[i] < 128);
        }
    }
    lemma_ascii_utf8(u);
    let cu = ascii_chars(u);
    assert(ascii_lower(cu) =~= ascii_lower(ch)) by {
        assert forall|i: int| 0 <= i < cu.len() implies ascii_lower(cu)[i] == ascii_lower(ch)[i] by {
            let b = h[i];
            assert(b < 128);
            assert(ch[i] == b as char);
            assert(cu[i] == upper_byte(b) as char);
            assert((b as char) as u8 == b);
            assert((upper_byte(b) as char) as u8 == upper_byte(b));
        }
    }
    assert(hex_digit_value(ch[0]) is Some);
    assert(hex_digit_value(ch.last()) is Some);
    assert(cu[0] == upper_byte(h[0]) as char);
    assert(cu.last() == upper_byte(h[h.len() - 1]) as char);
    assert(ch.last() == h[h.len() - 1] as char);
    assert(lead_space(cu) == 0);
    assert(trail_space(cu) == 0);
    assert(trim_spaces(cu) =~= cu);
    assert(lead_space(ch) == 0);
    assert(trail_space(ch) == 0);
    assert(trim_spaces(ch) =~= ch);
    lemma_parse_hex_case_insensitive(cu);
    lemma_parse_hex_case_insensitive(ch);
}

/// The message of a decoder error, as its `Display` writes it.
pub open spec fn chunk_error_message(e: ChunkedParseError) -> Seq<char> {
    match e {
        ChunkedParseError::InvalidChunkSize(m) => "Invalid chunk size encoding: "@ + m@,
        ChunkedParseError::InvalidEncoding => "Invalid chunked encoding format"@,
        ChunkedParseError::UnexpectedEnd => "Unexpected end of data"@,
        ChunkedParseError::ChunkSizeTooLarge(n) => "Chunk size too large: "@ + dec_chars(n as nat),
        ChunkedParseError::InvalidTrailer => "Invalid trailer format"@,
    }
}

/// The message of the error that reports a refused size line.
pub open spec fn fault_message(f: SizeLineFault) -> Seq<char> {
    match f {
        SizeLineFault::Encoding => "Invalid chunked encoding format"@,
        SizeLineFault::Number(k) => "Invalid chunk size encoding: "@ + int_error_message(k),
        SizeLineFault::TooLarge(n) => "Chunk size too large: "@ + dec_chars(n as nat),
    }
}

pub proof fn lemma_fault_message(e: ChunkedParseError, f: SizeLineFault)
    requires
        reports_fault(e, f),
    ensures
        chunk_error_message(e) == fault_message(f),
{
}

impl From<ChunkedParseError> for IcapError {
    /// A protocol error whose message reads `CHUNKED: ` and the decoder's message.
    fn from(err: ChunkedParseError) -> (r: IcapError)
        ensures
            r matches IcapError::Protocol(m) && m@ == "CHUNKED: "@ + chunk_error_message(err),
    {
        let t = err.to_string();
        proof {
            reveal_strlit("CHUNKED");
            reveal_strlit(": ");
            reveal_strlit("CHUNKED: ");
            assert("CHUNKED"@ + ": "@ =~= "CHUNKED: "@);
        }
        IcapError::protocol_error(t.as_str(), "CHUNKED")
    }
}

impl vstd::std_specs::convert::FromSpecImpl<ChunkedParseError> for IcapError {
    open spec fn obeys_from_spec() -> bool {
        false
    }

    open spec fn from_spec(v: ChunkedParseError) -> IcapError {
        arbitrary()
    }
}

impl ChunkedParseError {
    /// The message of the error.
    pub fn to_string(&self) -> (r: String)
        ensures
            r@ == chunk_error_message(*self),
    {
        match self {
            ChunkedParseError::InvalidChunkSize(m) => {
                let mut s = String::from_str("Invalid chunk size encoding: ");
                s.append(m.as_str());
                s
            },
            ChunkedParseError::InvalidEncoding => String::from_str("Invalid chunked encoding format"),
            ChunkedParseError::UnexpectedEnd => String::from_str("Unexpected end of data"),
            ChunkedParseError::ChunkSizeTooLarge(n) => {
                let mut s = String::from_str("Chunk size too large: ");
                let d = decimal_string(*n as u64);
                s.append(d.as_str());
                s
            },
            ChunkedParseError::InvalidTrailer => String::from_str("Invalid trailer format"),
        }
    }
}

} // verus!
