//! Decoding of chunked content as it arrives, with a bounded buffer, and the
//! content filters that the decoded data passes through.
//!
//! The reading and writing is left to the caller: each step here takes the
//! bytes that one read gave (none at the end of the input) and says what to
//! hand on.

use vstd::prelude::*;
use vstd::utf8::{valid_utf8, decode_utf8, encode_utf8};
use crate::error::IcapError;
use crate::protocol::chunked::{
    ChunkedParser, ChunkModel, ChunkState, chunk_run, initial_model, fault_message, chunk_error_message,
    lemma_fault_message, model_wf,
};
use crate::text::{extend_bytes, dec_chars, decimal_string};
use crate::bridge::{utf8_string, utf8_error_text, chars_utf8};

verus! {

/// The abstract state of a streaming processor.
pub ghost struct StreamModel {
    pub parser: ChunkModel,
    pub buffer: Seq<u8>,
    pub max: int,
    pub complete: bool,
}

/// What one step hands on: decoded data, nothing yet, or the message of a
/// protocol error.
pub type StepResult = Result<Option<Seq<u8>>, Seq<char>>;

/// Decoding the buffer: the decoder runs over it from the start and the
/// bytes it used leave the buffer; data that it delivers is handed on. A
/// size line that it refuses is an error only once the buffer is full (up
/// to then more input may follow); the decoder keeps the state it stopped in.
pub open spec fn buffer_step(s: StreamModel) -> (StreamModel, StepResult) {
    if s.buffer.len() == 0 {
        (s, Ok(None))
    } else {
        match chunk_run(s.parser, s.buffer, 0) {
            Ok((m, out, p)) => {
                let s2 = StreamModel {
                    parser: m,
                    buffer: s.buffer.subrange(p, s.buffer.len() as int),
                    max: s.max,
                    complete: s.complete || m.state == ChunkState::Complete,
                };
                (s2, if out.len() == 0 { Ok(None) } else { Ok(Some(out)) })
            },
            Err((m, f)) => {
                let s2 = StreamModel { parser: m, ..s };
                if s.buffer.len() < s.max {
                    (s2, Ok(None))
                } else {
                    (s2, Err("CHUNKED: "@ + fault_message(f)))
                }
            },
        }
    }
}

/// The message when the buffer outgrows its limit.
pub open spec fn overflow_message(max: int) -> Seq<char> {
    "STREAMING: Buffer size exceeded limit: "@ + dec_chars(max as nat) + " bytes"@
}

/// One read of `data` (empty at the end of the input): nothing once the
/// content is complete; at the end of the input, the rest of the buffer is
/// decoded; otherwise the data joins the buffer, which may not grow past
/// its limit, and the buffer is decoded.
pub open spec fn read_step(s: StreamModel, data: Seq<u8>) -> (StreamModel, StepResult) {
    if s.complete {
        (s, Ok(None))
    } else if data.len() == 0 {
        if s.buffer.len() == 0 {
            (s, Ok(None))
        } else {
            buffer_step(s)
        }
    } else {
        let s2 = StreamModel { buffer: s.buffer + data, ..s };
        if s2.buffer.len() > s.max {
            (s2, Err(overflow_message(s.max)))
        } else {
            buffer_step(s2)
        }
    }
}

/// The result of a step as the processor returns it.
pub open spec fn step_matches(r: Result<Option<Vec<u8>>, IcapError>, x: StepResult) -> bool {
    match x {
        Ok(None) => r matches Ok(None),
        Ok(Some(d)) => r matches Ok(Some(v)) && v@ == d,
        Err(m) => r matches Err(IcapError::Protocol(e)) && e@ == m,
    }
}

/// Decodes chunked content that arrives in pieces, holding what it cannot
/// decode yet in a buffer of at most `max_buffer_size` bytes.
#[derive(Debug)]
pub struct StreamingProcessor {
    chunked_parser: ChunkedParser,
    buffer: Vec<u8>,
    max_buffer_size: usize,
    is_complete: bool,
}

impl View for StreamingProcessor {
    type V = StreamModel;

    closed spec fn view(&self) -> StreamModel {
        StreamModel {
            parser: self.chunked_parser@,
            buffer: self.buffer@,
            max: self.max_buffer_size as int,
            complete: self.is_complete,
        }
    }
}

impl StreamingProcessor {
    /// The processor's state is well formed.
    pub closed spec fn wf(&self) -> bool {
        self.chunked_parser.wf()
    }

    /// A processor with an empty buffer of at most `max_buffer_size` bytes.
    pub fn new(max_buffer_size: usize) -> (r: Self)
        ensures
            r.wf(),
            r@ == (StreamModel {
                parser: initial_model(),
                buffer: Seq::empty(),
                max: max_buffer_size as int,
                complete: false,
            }),
    {
        StreamingProcessor {
            chunked_parser: ChunkedParser::new(),
            buffer: Vec::new(),
            max_buffer_size,
            is_complete: false,
        }
    }

    /// Takes the bytes of one read (none at the end of the input) and
    /// returns the data decoded from them, if any.
    pub fn process_chunk(&mut self, data: &[u8]) -> (r: Result<Option<Vec<u8>>, IcapError>)
        requires
            old(self).wf(),
            old(self)@.buffer.len() + data@.len() <= usize::MAX,
        ensures
            final(self).wf(),
            final(self)@ == read_step(old(self)@, data@).0,
            step_matches(r, read_step(old(self)@, data@).1),
    {
        if self.is_complete {
            return Ok(None);
        }
        if data.len() == 0 {
            if self.buffer.len() == 0 {
                return Ok(None);
            }
            return self.process_buffer();
        }
        extend_bytes(&mut self.buffer, data);
        if self.buffer.len() > self.max_buffer_size {
            let mut m = String::from_str("Buffer size exceeded limit: ");
            let n = decimal_string(self.max_buffer_size as u64);
            m.append(n.as_str());
            m.append(" bytes");
            proof {
                reveal_strlit("STREAMING");
                reveal_strlit(": ");
                reveal_strlit("STREAMING: Buffer size exceeded limit: ");
                reveal_strlit("Buffer size exceeded limit: ");
                assert("STREAMING"@ + ": "@ + ("Buffer size exceeded limit: "@ + dec_chars(self.max_buffer_size as nat) + " bytes"@)
                    =~= overflow_message(self.max_buffer_size as int));
            }
            return Err(IcapError::protocol_error(m.as_str(), "STREAMING"));
        }
        self.process_buffer()
    }

    /// Decodes what the buffer holds.
    pub fn process_buffer(&mut self) -> (r: Result<Option<Vec<u8>>, IcapError>)
        requires
            old(self).wf(),
        ensures
            final(self).wf(),
            final(self)@ == buffer_step(old(self)@).0,
            step_matches(r, buffer_step(old(self)@).1),
    {
        if self.buffer.len() == 0 {
            return Ok(None);
        }
        match self.chunked_parser.parse_chunk(self.buffer.as_slice()) {
            Ok((decoded, consumed)) => {
                let rest = self.buffer.split_off(consumed);
                self.buffer = rest;
                if self.chunked_parser.is_complete() {
                    self.is_complete = true;
                }
                if decoded.len() == 0 {
                    Ok(None)
                } else {
                    Ok(Some(decoded))
                }
            },
            Err(e) => {
                if self.buffer.len() < self.max_buffer_size {
                    Ok(None)
                } else {
                    proof {
                        let f = chunk_run(old(self)@.parser, old(self)@.buffer, 0)->Err_0.1;
                        lemma_fault_message(e, f);
                    }
                    Err(IcapError::from(e))
                }
            },
        }
    }

    /// True once the last chunk and its trailer section were decoded.
    pub fn is_complete(&self) -> (r: bool)
        ensures
            r == self@.complete,
    {
        self.is_complete
    }

    /// Back to a fresh decoder and an empty buffer.
    pub fn reset(&mut self)
        ensures
            final(self).wf(),
            final(self)@ == (StreamModel {
                parser: initial_model(),
                buffer: Seq::empty(),
                max: old(self)@.max,
                complete: false,
            }),
    {
        self.chunked_parser.reset();
        self.buffer.clear();
        self.is_complete = false;
    }

    /// The number of bytes in the buffer.
    pub fn buffer_size(&self) -> (r: usize)
        ensures
            r == self@.buffer.len(),
    {
        self.buffer.len()
    }
}

/// Something that data passes through on its way: it hands back the data to
/// forward, or the message of an error.
pub trait ContentFilter {
    /// Filters data of a request.
    fn filter_request_data(&self, data: &[u8]) -> (r: Result<Vec<u8>, String>);

    /// Filters data of a response.
    fn filter_response_data(&self, data: &[u8]) -> (r: Result<Vec<u8>, String>);
}

/// A filter that forwards data as it is.
#[derive(Clone, Copy, Debug)]
pub struct PassThroughFilter;

fn copy_bytes(data: &[u8]) -> (r: Vec<u8>)
    ensures
        r@ == data@,
{
    let mut v: Vec<u8> = Vec::new();
    extend_bytes(&mut v, data);
    v
}

impl ContentFilter for PassThroughFilter {
    fn filter_request_data(&self, data: &[u8]) -> (r: Result<Vec<u8>, String>)
        ensures
            r matches Ok(v) && v@ == data@,
    {
        Ok(copy_bytes(data))
    }

    fn filter_response_data(&self, data: &[u8]) -> (r: Result<Vec<u8>, String>)
        ensures
            r matches Ok(v) && v@ == data@,
    {
        Ok(copy_bytes(data))
    }
}

/// `s` with `r` put in front of every character and after the last
/// (what `str::replace` does with an empty pattern).
pub open spec fn interleave(s: Seq<char>, r: Seq<char>) -> Seq<char>
    decreases s.len(),
{
    if s.len() == 0 {
        r
    } else {
        r + seq![s[0]] + interleave(s.drop_first(), r)
    }
}

/// `s` with every occurrence of `p` replaced by `r`, taking occurrences
/// from the left and without overlap, as `str::replace` does.
pub open spec fn replace_all(s: Seq<char>, p: Seq<char>, r: Seq<char>) -> Seq<char>
    decreases s.len(),
{
    if p.len() == 0 {
        interleave(s, r)
    } else if s.len() < p.len() {
        s
    } else if s.subrange(0, p.len() as int) == p {
        r + replace_all(s.subrange(p.len() as int, s.len() as int), p, r)
    } else {
        seq![s[0]] + replace_all(s.drop_first(), p, r)
    }
}

/// `s` after replacing each keyword in turn by `r`.
pub open spec fn replace_each(s: Seq<char>, keywords: Seq<Seq<char>>, r: Seq<char>) -> Seq<char>
    decreases keywords.len(),
{
    if keywords.len() == 0 {
        s
    } else {
        replace_each(replace_all(s, keywords[0], r), keywords.drop_first(), r)
    }
}

/// What a keyword filter makes of `data`: its text with each keyword
/// replaced, or, when the data is not UTF-8, the message of that error.
pub open spec fn keyword_filtered(data: Seq<u8>, keywords: Seq<Seq<char>>, r: Seq<char>) -> Result<Seq<u8>, Seq<char>> {
    if valid_utf8(data) {
        Ok(encode_utf8(replace_each(decode_utf8(data), keywords, r)))
    } else {
        Err(utf8_error_text(data))
    }
}

/// A filter that replaces blocked keywords in text by a replacement.
#[derive(Clone, Debug)]
pub struct KeywordFilter {
    blocked_keywords: Vec<String>,
    replacement: String,
}

/// The views of a list of strings.
pub open spec fn strings_seq(v: Seq<String>) -> Seq<Seq<char>> {
    Seq::new(v.len(), |i: int| v[i]@)
}

fn matches_at(s: &[char], i: usize, p: &[char]) -> (r: bool)
    requires
        i + p@.len() <= s@.len(),
    ensures
        r == (s@.subrange(i as int, i + p@.len()) == p@),
{
    let n = s.len();
    let mut j: usize = 0;
    while j < p.len()
        invariant
            j <= p@.len(),
            n == s@.len(),
            i + p@.len() <= s@.len(),
            forall|k: int| 0 <= k < j ==> s@[i + k] == p@[k],
        decreases p@.len() - j,
    {
        assert(i + j < n);
        if s[i + j] != p[j] {
            proof {
                assert(s@.subrange(i as int, i + p@.len())[j as int] != p@[j as int]);
            }
            return false;
        }
        j = j + 1;
    }
    proof {
        assert(s@.subrange(i as int, i + p@.len()) =~= p@);
    }
    true
}

fn push_chars(out: &mut Vec<char>, t: &[char])
    ensures
        final(out)@ == old(out)@ + t@,
{
    let ghost start = out@;
    let mut i: usize = 0;
    while i < t.len()
        invariant
            i <= t@.len(),
            start == old(out)@,
            out@ == start + t@.subrange(0, i as int),
        decreases t@.len() - i,
    {
        out.push(t[i]);
        proof {
            assert(t@.subrange(0, i + 1) =~= t@.subrange(0, i as int).push(t@[i as int]));
        }
        i = i + 1;
    }
    proof {
        assert(t@.subrange(0, t@.len() as int) =~= t@);
    }
}

proof fn lemma_interleave_step(s: Seq<char>, i: int, r: Seq<char>)
    requires
        0 <= i < s.len(),
    ensures
        interleave(s.subrange(i, s.len() as int), r) == r + seq![s[i]] + interleave(s.subrange(i + 1, s.len() as int), r),
{
    assert(s.subrange(i, s.len() as int).drop_first() =~= s.subrange(i + 1, s.len() as int));
}

fn replace_empty(cs: &[char], r: &[char]) -> (out: Vec<char>)
    ensures
        out@ == interleave(cs@, r@),
{
    let mut out: Vec<char> = Vec::new();
    let mut i: usize = 0;
    proof {
        assert(cs@.subrange(0, cs@.len() as int) =~= cs@);
        assert(out@ + interleave(cs@, r@) =~= interleave(cs@, r@));
    }
    while i < cs.len()
        invariant
            i <= cs@.len(),
            out@ + interleave(cs@.subrange(i as int, cs@.len() as int), r@) == interleave(cs@, r@),
        decreases cs@.len() - i,
    {
        proof {
            lemma_interleave_step(cs@, i as int, r@);
        }
        let ghost before = out@;
        push_chars(&mut out, r);
        out.push(cs[i]);
        proof {
            assert(out@ =~= before + r@ + seq![cs@[i as int]]);
            assert((before + r@ + seq![cs@[i as int]]) + interleave(cs@.subrange(i + 1, cs@.len() as int), r@)
                =~= before + (r@ + seq![cs@[i as int]] + interleave(cs@.subrange(i + 1, cs@.len() as int), r@)));
        }
        i = i + 1;
    }
    proof {
        assert(cs@.subrange(cs@.len() as int, cs@.len() as int) =~= Seq::<char>::empty());
    }
    push_chars(&mut out, r);
    out
}

proof fn lemma_replace_step(s: Seq<char>, i: int, p: Seq<char>, r: Seq<char>)
    requires
        0 <= i < s.len(),
        p.len() > 0,
    ensures
        (i + p.len() <= s.len() && s.subrange(i, i + p.len()) == p) ==> replace_all(s.subrange(i, s.len() as int), p, r)
            == r + replace_all(s.subrange(i + p.len(), s.len() as int), p, r),
        !(i + p.len() <= s.len() && s.subrange(i, i + p.len()) == p) ==> replace_all(s.subrange(i, s.len() as int), p, r)
            == seq![s[i]] + replace_all(s.subrange(i + 1, s.len() as int), p, r),
    decreases s.len() - i,
{
    let t = s.subrange(i, s.len() as int);
    if i + p.len() <= s.len() {
        assert(t.subrange(0, p.len() as int) =~= s.subrange(i, i + p.len()));
        assert(t.subrange(p.len() as int, t.len() as int) =~= s.subrange(i + p.len(), s.len() as int));
        assert(t.drop_first() =~= s.subrange(i + 1, s.len() as int));
    } else {
        let u = s.subrange(i + 1, s.len() as int);
        assert(t.drop_first() =~= u);
        lemma_replace_short(u, p, r);
        lemma_replace_short(t, p, r);
        assert(t =~= seq![s[i]] + u);
    }
}

proof fn lemma_replace_short(s: Seq<char>, p: Seq<char>, r: Seq<char>)
    requires
        p.len() > 0,
        s.len() < p.len(),
    ensures
        replace_all(s, p, r) == s,
{
}

fn replace_text(cs: &[char], p: &[char], r: &[char]) -> (out: Vec<char>)
    ensures
        out@ == replace_all(cs@, p@, r@),
{
    if p.len() == 0 {
        return replace_empty(cs, r);
    }
    let mut out: Vec<char> = Vec::new();
    let mut i: usize = 0;
    proof {
        assert(cs@.subrange(0, cs@.len() as int) =~= cs@);
        assert(out@ + replace_all(cs@, p@, r@) =~= replace_all(cs@, p@, r@));
    }
    while i < cs.len()
        invariant
            i <= cs@.len(),
            p@.len() > 0,
            out@ + replace_all(cs@.subrange(i as int, cs@.len() as int), p@, r@) == replace_all(cs@, p@, r@),
        decreases cs@.len() - i,
    {
        proof {
            lemma_replace_step(cs@, i as int, p@, r@);
        }
        let ghost before = out@;
        if cs.len() - i >= p.len() && matches_at(cs, i, p) {
            push_chars(&mut out, r);
            proof {
                assert((before + r@) + replace_all(cs@.subrange(i + p@.len(), cs@.len() as int), p@, r@)
                    =~= before + (r@ + replace_all(cs@.subrange(i + p@.len(), cs@.len() as int), p@, r@)));
            }
            i = i + p.len();
        } else {
            out.push(cs[i]);
            proof {
                assert(out@ =~= before + seq![cs@[i as int]]);
                assert((before + seq![cs@[i as int]]) + replace_all(cs@.subrange(i + 1, cs@.len() as int), p@, r@)
                    =~= before + (seq![cs@[i as int]] + replace_all(cs@.subrange(i + 1, cs@.len() as int), p@, r@)));
            }
            i = i + 1;
        }
    }
    proof {
        assert(cs@.subrange(cs@.len() as int, cs@.len() as int) =~= Seq::<char>::empty());
        assert(out@ + Seq::<char>::empty() =~= out@);
    }
    out
}

impl KeywordFilter {
    /// A filter that replaces each of `blocked_keywords` by `replacement`.
    pub fn new(blocked_keywords: Vec<String>, replacement: String) -> (r: Self)
        ensures
            r.keywords() == strings_seq(blocked_keywords@),
            r.replacement() == replacement@,
    {
        KeywordFilter { blocked_keywords, replacement }
    }

    /// The keywords, in order.
    pub closed spec fn keywords(&self) -> Seq<Seq<char>> {
        strings_seq(self.blocked_keywords@)
    }

    /// The text that takes a keyword's place.
    pub closed spec fn replacement(&self) -> Seq<char> {
        self.replacement@
    }

    fn filter_data(&self, data: &[u8]) -> (r: Result<Vec<u8>, String>)
        ensures
            match keyword_filtered(data@, self.keywords(), self.replacement()) {
                Ok(b) => r matches Ok(v) && v@ == b,
                Err(m) => r matches Err(e) && e@ == m,
            },
    {
        let mut content = match utf8_string(data) {
            Ok(cs) => cs,
            Err(e) => return Err(e),
        };
        let rep: Vec<char> = crate::text::str_chars(self.replacement.as_str());
        let ghost kws = self.keywords();
        let mut k: usize = 0;
        proof {
            assert(kws.subrange(0, kws.len() as int) =~= kws);
        }
        while k < self.blocked_keywords.len()
            invariant
                k <= self.blocked_keywords@.len(),
                kws == self.keywords(),
                rep@ == self.replacement(),
                valid_utf8(data@),
                replace_each(content@, kws.subrange(k as int, kws.len() as int), rep@)
                    == replace_each(decode_utf8(data@), kws, rep@),
            decreases self.blocked_keywords@.len() - k,
        {
            let kw: Vec<char> = crate::text::str_chars(self.blocked_keywords[k].as_str());
            proof {
                assert(kws.subrange(k as int, kws.len() as int).drop_first() =~= kws.subrange(k + 1, kws.len() as int));
                assert(kws.subrange(k as int, kws.len() as int)[0] == kw@);
            }
            content = replace_text(content.as_slice(), kw.as_slice(), rep.as_slice());
            k = k + 1;
        }
        proof {
            assert(kws.subrange(kws.len() as int, kws.len() as int) =~= Seq::<Seq<char>>::empty());
        }
        Ok(chars_utf8(content.as_slice()))
    }
}

impl ContentFilter for KeywordFilter {
    fn filter_request_data(&self, data: &[u8]) -> (r: Result<Vec<u8>, String>)
        ensures
            match keyword_filtered(data@, self.keywords(), self.replacement()) {
                Ok(b) => r matches Ok(v) && v@ == b,
                Err(m) => r matches Err(e) && e@ == m,
            },
    {
        self.filter_data(data)
    }

    fn filter_response_data(&self, data: &[u8]) -> (r: Result<Vec<u8>, String>)
        ensures
            match keyword_filtered(data@, self.keywords(), self.replacement()) {
                Ok(b) => r matches Ok(v) && v@ == b,
                Err(m) => r matches Err(e) && e@ == m,
            },
    {
        self.filter_data(data)
    }
}

/// What a filtering processor hands on for the result `x` of its decoder:
/// decoded data goes through the filter, when there is one, whose error
/// becomes a service error.
pub open spec fn filtered_matches(r: Result<Option<Vec<u8>>, IcapError>, x: StepResult, has_filter: bool) -> bool {
    match x {
        Ok(Some(d)) => if has_filter {
            r matches Ok(Some(_)) || r matches Err(IcapError::Service(_))
        } else {
            r matches Ok(Some(v)) && v@ == d
        },
        _ => step_matches(r, x),
    }
}

/// Decodes the chunked body of a request and passes it through an
/// optional content filter.
pub struct StreamingRequestProcessor<F: ContentFilter> {
    processor: StreamingProcessor,
    content_filter: Option<F>,
}

impl<F: ContentFilter> StreamingRequestProcessor<F> {
    pub closed spec fn wf(&self) -> bool {
        self.processor.wf()
    }

    /// The state of the decoder.
    pub closed spec fn stream(&self) -> StreamModel {
        self.processor@
    }

    /// True when a content filter is set.
    pub closed spec fn has_filter(&self) -> bool {
        self.content_filter is Some
    }

    /// A processor with a fresh decoder, a buffer of at most
    /// `max_buffer_size` bytes and no filter.
    pub fn new(max_buffer_size: usize) -> (r: Self)
        ensures
            r.wf(),
            r.stream() == (StreamModel { parser: initial_model(), buffer: Seq::empty(), max: max_buffer_size as int, complete: false }),
            !r.has_filter(),
    {
        StreamingRequestProcessor { processor: StreamingProcessor::new(max_buffer_size), content_filter: None }
    }

    /// Sets the content filter.
    pub fn set_content_filter(&mut self, filter: F)
        ensures
            final(self).wf() == old(self).wf(),
            final(self).stream() == old(self).stream(),
            final(self).has_filter(),
    {
        self.content_filter = Some(filter);
    }

    /// The number of bytes in the decoder's buffer.
    pub fn buffer_size(&self) -> (r: usize)
        ensures
            r == self.stream().buffer.len(),
    {
        self.processor.buffer_size()
    }

    /// Takes the bytes of one read (none at the end of the input) and
    /// returns the filtered data decoded from them, if any.
    pub fn process_request_chunk(&mut self, data: &[u8]) -> (r: Result<Option<Vec<u8>>, IcapError>)
        requires
            old(self).wf(),
            old(self).stream().buffer.len() + data@.len() <= usize::MAX,
        ensures
            final(self).wf(),
            final(self).stream() == read_step(old(self).stream(), data@).0,
            final(self).has_filter() == old(self).has_filter(),
            filtered_matches(r, read_step(old(self).stream(), data@).1, old(self).has_filter()),
    {
        match self.processor.process_chunk(data) {
            Err(e) => Err(e),
            Ok(None) => Ok(None),
            Ok(Some(d)) => match &self.content_filter {
                Some(f) => match f.filter_request_data(d.as_slice()) {
                    Ok(x) => Ok(Some(x)),
                    Err(m) => Err(IcapError::content_filter_error(m.as_str())),
                },
                None => Ok(Some(d)),
            },
        }
    }

    /// True once the body was decoded to its end.
    pub fn is_complete(&self) -> (r: bool)
        ensures
            r == self.stream().complete,
    {
        self.processor.is_complete()
    }
}

/// Decodes the chunked body of a response and passes it through an
/// optional content filter.
pub struct StreamingResponseProcessor<F: ContentFilter> {
    processor: StreamingProcessor,
    content_filter: Option<F>,
}

impl<F: ContentFilter> StreamingResponseProcessor<F> {
    pub closed spec fn wf(&self) -> bool {
        self.processor.wf()
    }

    /// The state of the decoder.
    pub closed spec fn stream(&self) -> StreamModel {
        self.processor@
    }

    /// True when a content filter is set.
    pub closed spec fn has_filter(&self) -> bool {
        self.content_filter is Some
    }

    /// A processor with a fresh decoder, a buffer of at most
    /// `max_buffer_size` bytes and no filter.
    pub fn new(max_buffer_size: usize) -> (r: Self)
        ensures
            r.wf(),
            r.stream() == (StreamModel { parser: initial_model(), buffer: Seq::empty(), max: max_buffer_size as int, complete: false }),
            !r.has_filter(),
    {
        StreamingResponseProcessor { processor: StreamingProcessor::new(max_buffer_size), content_filter: None }
    }

    /// Sets the content filter.
    pub fn set_content_filter(&mut self, filter: F)
        ensures
            final(self).wf() == old(self).wf(),
            final(self).stream() == old(self).stream(),
            final(self).has_filter(),
    {
        self.content_filter = Some(filter);
    }

    /// The number of bytes in the decoder's buffer.
    pub fn buffer_size(&self) -> (r: usize)
        ensures
            r == self.stream().buffer.len(),
    {
        self.processor.buffer_size()
    }

    /// Takes the bytes of one read (none at the end of the input) and
    /// returns the filtered data decoded from them, if any.
    pub fn process_response_chunk(&mut self, data: &[u8]) -> (r: Result<Option<Vec<u8>>, IcapError>)
        requires
            old(self).wf(),
            old(self).stream().buffer.len() + data@.len() <= usize::MAX,
        ensures
            final(self).wf(),
            final(self).stream() == read_step(old(self).stream(), data@).0,
            final(self).has_filter() == old(self).has_filter(),
            filtered_matches(r, read_step(old(self).stream(), data@).1, old(self).has_filter()),
    {
        match self.processor.process_chunk(data) {
            Err(e) => Err(e),
            Ok(None) => Ok(None),
            Ok(Some(d)) => match &self.content_filter {
                Some(f) => match f.filter_response_data(d.as_slice()) {
                    Ok(x) => Ok(Some(x)),
                    Err(m) => Err(IcapError::content_filter_error(m.as_str())),
                },
                None => Ok(Some(d)),
            },
        }
    }

    /// True once the body was decoded to its end.
    pub fn is_complete(&self) -> (r: bool)
        ensures
            r == self.stream().complete,
    {
        self.processor.is_complete()
    }
}

/// Streams the request and then the response body of connections, up to a
/// number of connections at a time.
pub struct StreamingConnectionHandler {
    request_processor: StreamingRequestProcessor<PassThroughFilter>,
    response_processor: StreamingResponseProcessor<PassThroughFilter>,
    max_connections: usize,
    active_connections: usize,
}

impl StreamingConnectionHandler {
    pub closed spec fn wf(&self) -> bool {
        &&& self.request_processor.wf()
        &&& self.response_processor.wf()
        &&& !self.request_processor.has_filter()
        &&& !self.response_processor.has_filter()
    }

    /// The number of connections being handled.
    pub closed spec fn active(&self) -> int {
        self.active_connections as int
    }

    /// The most connections at a time.
    pub closed spec fn max(&self) -> int {
        self.max_connections as int
    }

    /// The state of the request body decoder.
    pub closed spec fn request_stream(&self) -> StreamModel {
        self.request_processor.stream()
    }

    /// The state of the response body decoder.
    pub closed spec fn response_stream(&self) -> StreamModel {
        self.response_processor.stream()
    }

    /// A handler with fresh decoders whose buffers hold at most
    /// `max_buffer_size` bytes, for `max_connections` connections at a time.
    pub fn new(max_buffer_size: usize, max_connections: usize) -> (r: Self)
        ensures
            r.wf(),
            r.active() == 0,
            r.max() == max_connections,
            r.request_stream() == (StreamModel { parser: initial_model(), buffer: Seq::empty(), max: max_buffer_size as int, complete: false }),
            r.response_stream() == (StreamModel { parser: initial_model(), buffer: Seq::empty(), max: max_buffer_size as int, complete: false }),
    {
        StreamingConnectionHandler {
            request_processor: StreamingRequestProcessor::new(max_buffer_size),
            response_processor: StreamingResponseProcessor::new(max_buffer_size),
            max_connections,
            active_connections: 0,
        }
    }

    /// Takes on a connection: refused when the handler is full, else one more
    /// connection is active.
    pub fn begin_connection(&mut self) -> (r: Result<(), IcapError>)
        ensures
            final(self).wf() == old(self).wf(),
            final(self).max() == old(self).max(),
            final(self).request_stream() == old(self).request_stream(),
            final(self).response_stream() == old(self).response_stream(),
            old(self).active() >= old(self).max() ==> (r matches Err(IcapError::Service(m)) && m@
                == "Maximum connections exceeded"@ && final(self).active() == old(self).active()),
            old(self).active() < old(self).max() ==> r is Ok && final(self).active() == old(self).active() + 1,
    {
        if self.active_connections >= self.max_connections {
            return Err(IcapError::resource_exhausted_simple("Maximum connections exceeded"));
        }
        self.active_connections = self.active_connections + 1;
        Ok(())
    }

    /// The number of bytes in the request decoder's buffer.
    pub fn request_buffer_size(&self) -> (r: usize)
        ensures
            r == self.request_stream().buffer.len(),
    {
        self.request_processor.buffer_size()
    }

    /// The number of bytes in the response decoder's buffer.
    pub fn response_buffer_size(&self) -> (r: usize)
        ensures
            r == self.response_stream().buffer.len(),
    {
        self.response_processor.buffer_size()
    }

    /// The request body data of one read (none at the end of the input).
    pub fn request_chunk(&mut self, data: &[u8]) -> (r: Result<Option<Vec<u8>>, IcapError>)
        requires
            old(self).wf(),
            old(self).request_stream().buffer.len() + data@.len() <= usize::MAX,
        ensures
            final(self).wf(),
            final(self).active() == old(self).active(),
            final(self).max() == old(self).max(),
            final(self).request_stream() == read_step(old(self).request_stream(), data@).0,
            final(self).response_stream() == old(self).response_stream(),
            step_matches(r, read_step(old(self).request_stream(), data@).1),
    {
        self.request_processor.process_request_chunk(data)
    }

    /// The response body data of one read (none at the end of the input).
    pub fn response_chunk(&mut self, data: &[u8]) -> (r: Result<Option<Vec<u8>>, IcapError>)
        requires
            old(self).wf(),
            old(self).response_stream().buffer.len() + data@.len() <= usize::MAX,
        ensures
            final(self).wf(),
            final(self).active() == old(self).active(),
            final(self).max() == old(self).max(),
            final(self).response_stream() == read_step(old(self).response_stream(), data@).0,
            final(self).request_stream() == old(self).request_stream(),
            step_matches(r, read_step(old(self).response_stream(), data@).1),
    {
        self.response_processor.process_response_chunk(data)
    }

    /// A connection was handled to its end: one fewer is active.
    pub fn end_connection(&mut self)
        requires
            old(self).active() > 0,
        ensures
            final(self).wf() == old(self).wf(),
            final(self).max() == old(self).max(),
            final(self).active() == old(self).active() - 1,
            final(self).request_stream() == old(self).request_stream(),
            final(self).response_stream() == old(self).response_stream(),
    {
        self.active_connections = self.active_connections - 1;
    }

    /// The number of connections being handled.
    pub fn active_connections(&self) -> (r: usize)
        ensures
            r == self.active(),
    {
        self.active_connections
    }

    /// True once the request body was decoded to its end.
    pub fn request_complete(&self) -> (r: bool)
        ensures
            r == self.request_stream().complete,
    {
        self.request_processor.is_complete()
    }

    /// True once the response body was decoded to its end.
    pub fn response_complete(&self) -> (r: bool)
        ensures
            r == self.response_stream().complete,
    {
        self.response_processor.is_complete()
    }

    /// True while another connection can be taken on.
    pub fn can_accept_connection(&self) -> (r: bool)
        ensures
            r == (self.active() < self.max()),
    {
        self.active_connections < self.max_connections
    }
}

} // verus!
