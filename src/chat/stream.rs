//! Incremental assembly of server-sent-event frames.
//!
//! A streamed chat completion arrives as text of the shape
//! `data: <json>\n\ndata: <json>\n\n...`, cut by the transport at arbitrary
//! places. The assembler keeps the text that has not been decoded yet and,
//! on each poll, hands out the JSON payload of the first complete frame.
use vstd::prelude::*;
use vstd::utf8::{
    decode_utf8, decode_utf8_encode_utf8, encode_utf8, encode_utf8_decode_utf8, valid_utf8,
    valid_utf8_concat,
};

use crate::frames::{
    after_first, clean_cuts, data_prefix, drain, is_blank, is_blank_char,
    lemma_fragmentation_invariant, ends_with_brace, find_sep_from, first_segment, first_sep,
    lemma_find_sep_from_bounds, lemma_next_frame_shrinks, next_frame, run, wake_hint,
};

verus! {

/// Finds the first separator of `buf`.
fn find_sep(buf: &[char]) -> (r: Option<usize>)
    ensures
        match r {
            Some(i) => first_sep(buf@) == Some(i as int),
            None => first_sep(buf@) is None,
        },
{
    let n = buf.len();
    let mut i: usize = 0;
    while n - i > 1
        invariant
            n == buf@.len(),
            i <= n,
            first_sep(buf@) == find_sep_from(buf@, i as nat),
        decreases n - i,
    {
        if buf[i] == '\n' && buf[i + 1] == '\n' {
            return Some(i);
        }
        i = i + 1;
    }
    None
}

/// Whether `buf` holds only blank characters.
fn all_blank(buf: &[char]) -> (r: bool)
    ensures
        r == is_blank(buf@),
{
    let mut i: usize = 0;
    while i < buf.len()
        invariant
            i <= buf@.len(),
            forall|k: int| 0 <= k < i ==> is_blank_char(#[trigger] buf@[k]),
        decreases buf@.len() - i,
    {
        let c = buf[i];
        if !(c == ' ' || c == '\n' || c == '\r' || c == '\t') {
            return false;
        }
        i = i + 1;
    }
    true
}

/// Relies on `<[char]>::iter` collected into a `String`: the characters in order.
#[verifier::external_body]
fn string_from_chars(cs: &[char]) -> (r: String)
    ensures
        r@ == cs@,
{
    cs.iter().collect()
}

/// Relies on `str::chars` collected into a `Vec`: the characters in order.
#[verifier::external_body]
fn chars_of(s: &str) -> (r: Vec<char>)
    ensures
        r@ == s@,
{
    s.chars().collect()
}

/// Relies on `std::str::from_utf8`: it accepts exactly the valid UTF-8
/// byte strings, and then gives the text they encode.
#[verifier::external_body]
fn text_of_utf8(b: &[u8]) -> (r: Option<&str>)
    ensures
        match r {
            Some(t) => valid_utf8(b@) && t@ == decode_utf8(b@),
            None => !valid_utf8(b@),
        },
{
    std::str::from_utf8(b).ok()
}

/// One decoded frame of a streamed chat completion.
#[derive(Debug, Clone)]
pub struct ChatCompletionChunk {
    pub id: String,
    pub created: u32,
    pub model: String,
    pub choices: Vec<Choice>,
    pub system_fingerprint: Option<String>,
}

impl ChatCompletionChunk {
    /// The content fragment of the first choice; empty when it has none
    /// (as on the last chunk, which carries the finish reason).
    pub fn to_string(&self) -> (r: String)
        requires
            self.choices.len() > 0,
        ensures
            r@ == match self.choices@[0].delta.content {
                Some(c) => c@,
                None => Seq::<char>::empty(),
            },
    {
        match &self.choices[0].delta.content {
            Some(c) => c.clone(),
            None => String::new(),
        }
    }
}

#[derive(Debug, Clone)]
pub struct Choice {
    pub delta: ChoiceDelta,
    pub index: u32,
    pub finish_reason: Option<String>,
}

#[derive(Debug, Clone)]
pub struct ChoiceDelta {
    pub content: Option<String>,
}

/// The payload of one complete frame, as handed to the consumer.
#[derive(Debug)]
pub struct Frame {
    /// The JSON text after `data: `.
    pub payload: String,
    /// The next frame is already complete: poll again without waiting.
    pub wake: bool,
}

/// Why a stream ended in failure.
#[derive(Debug)]
pub enum StreamError {
    /// The transport failed; its message.
    Transport(String),
    /// A chunk was not valid UTF-8.
    NotUtf8,
    /// The body ended while the buffer still held text that is not blank
    /// (a frame cut short).
    Truncated,
    /// A complete frame did not decode as a chunk; the decoder's message.
    Decode(String),
}

/// What the transport answered when it was polled.
#[derive(Debug)]
pub enum SourceEvent {
    /// No bytes are ready yet.
    Pending,
    /// The next bytes of the body.
    Chunk(Vec<u8>),
    /// The transport failed, with its message.
    Error(String),
    /// The body ended cleanly.
    End,
}

/// The outcome of one poll of the stream.
#[derive(Debug)]
pub enum StreamPoll {
    /// The payload of the next frame; `wake` asks for an immediate re-poll.
    Produced { payload: String, wake: bool },
    /// No frame is complete yet; `wake` asks for an immediate re-poll.
    Pending { wake: bool },
    /// The stream has ended.
    Done,
    /// The stream has failed; it produces nothing more.
    Failed(StreamError),
}

/// The state of a streamed response: the text not decoded yet, and whether
/// the stream has ended (cleanly or not).
pub struct StreamState {
    pub buffer: Seq<char>,
    pub closed: bool,
}

/// Assembles server-sent-event frames out of the chunks of a response body.
pub struct ChatCompletionChunkStream {
    buf: Vec<char>,
    closed: bool,
}

impl View for ChatCompletionChunkStream {
    type V = StreamState;

    closed spec fn view(&self) -> StreamState {
        StreamState { buffer: self.buf@, closed: self.closed }
    }
}

impl ChatCompletionChunkStream {
    /// A stream that has received nothing yet.
    pub fn new() -> (r: Self)
        ensures
            r@.buffer == Seq::<char>::empty(),
            !r@.closed,
    {
        ChatCompletionChunkStream { buf: Vec::new(), closed: false }
    }

    /// Takes the first complete frame out of the buffer, if there is one.
    pub fn next_frame(&mut self) -> (r: Option<Frame>)
        ensures
            final(self)@.closed == old(self)@.closed,
            match next_frame(old(self)@.buffer) {
                Some((p, rest)) => r matches Some(f) && f.payload@ == p && f.wake == wake_hint(
                    old(self)@.buffer,
                ) && final(self)@.buffer == rest,
                None => r is None && final(self)@.buffer == old(self)@.buffer,
            },
    {
        let ghost s = self.buf@;
        let n = self.buf.len();
        let sep = find_sep(self.buf.as_slice());
        let end = match sep {
            Some(i) => i,
            None => n,
        };
        proof {
            lemma_find_sep_from_bounds(s, 0);
            assert(first_segment(s) == s.take(end as int));
        }
        if end < 7 || self.buf[0] != 'd' || self.buf[1] != 'a' || self.buf[2] != 't'
            || self.buf[3] != 'a' || self.buf[4] != ':' || self.buf[5] != ' '
            || self.buf[end - 1] != '}' {
            proof {
                let seg = s.take(end as int);
                if seg.len() >= 6 && seg.take(6) == data_prefix() && ends_with_brace(seg.skip(6)) {
                    assert(seg.take(6)[0] == 'd');
                    assert(seg.take(6)[1] == 'a');
                    assert(seg.take(6)[2] == 't');
                    assert(seg.take(6)[3] == 'a');
                    assert(seg.take(6)[4] == ':');
                    assert(seg.take(6)[5] == ' ');
                }
            }
            return None;
        }
        proof {
            assert(s.take(end as int).take(6) =~= data_prefix());
        }
        let payload = string_from_chars(&self.buf.as_slice()[6..end]);
        assert(payload@ =~= first_segment(s).skip(6));
        let rest = match sep {
            Some(i) => self.buf.split_off(i + 2),
            None => Vec::new(),
        };
        assert(rest@ =~= after_first(s));
        let wake = match sep {
            Some(_) => {
                let j = find_sep(rest.as_slice());
                let e = match j {
                    Some(j) => j,
                    None => rest.len(),
                };
                proof {
                    lemma_find_sep_from_bounds(rest@, 0);
                    assert(first_segment(rest@) == rest@.take(e as int));
                }
                e > 0 && rest[e - 1] == '}'
            },
            None => false,
        };
        self.buf = rest;
        Some(Frame { payload, wake })
    }

    /// First half of a poll: hands out the next frame that the buffer
    /// already holds. `None` means that the transport must be polled next
    /// (see `on_source`). A stream that has ended reports `Done` and stays
    /// as it is.
    pub fn poll_buffered(&mut self) -> (r: Option<StreamPoll>)
        ensures
            old(self)@.closed ==> (r matches Some(StreamPoll::Done) && final(self)@ == old(self)@),
            !old(self)@.closed ==> !final(self)@.closed && match next_frame(old(self)@.buffer) {
                Some((p, rest)) => r matches Some(StreamPoll::Produced { payload, wake })
                    && payload@ == p && wake == wake_hint(old(self)@.buffer)
                    && final(self)@.buffer == rest,
                None => r is None && final(self)@.buffer == old(self)@.buffer,
            },
    {
        if self.closed {
            return Some(StreamPoll::Done);
        }
        match self.next_frame() {
            Some(f) => Some(StreamPoll::Produced { payload: f.payload, wake: f.wake }),
            None => None,
        }
    }

    /// Second half of a poll: takes what the transport answered. A chunk is
    /// appended to the buffer, and the first frame is handed out if it is now
    /// complete; otherwise the consumer is asked to poll again at once, as
    /// the transport may hold more. A transport error, a chunk that is not
    /// UTF-8 and the end of the body all end the stream. The end of the body
    /// is a clean end only when the buffer holds nothing but blanks; text
    /// left over there (a frame cut short) makes it a failure.
    pub fn on_source(&mut self, ev: SourceEvent) -> (r: StreamPoll)
        ensures
            old(self)@.closed ==> r is Done && final(self)@ == old(self)@,
            !old(self)@.closed ==> match ev {
                SourceEvent::Pending => r == (StreamPoll::Pending { wake: false })
                    && final(self)@ == old(self)@,
                SourceEvent::End => final(self)@.closed && final(self)@.buffer == old(
                    self,
                )@.buffer && if is_blank(old(self)@.buffer) {
                    r is Done
                } else {
                    r matches StreamPoll::Failed(StreamError::Truncated)
                },
                SourceEvent::Error(m) => r matches StreamPoll::Failed(StreamError::Transport(e))
                    && e@ == m@ && final(self)@.closed && final(self)@.buffer == old(self)@.buffer,
                SourceEvent::Chunk(b) => if !valid_utf8(b@) {
                    r matches StreamPoll::Failed(StreamError::NotUtf8) && final(self)@.closed
                        && final(self)@.buffer == old(self)@.buffer
                } else {
                    let t = old(self)@.buffer + decode_utf8(b@);
                    !final(self)@.closed && match next_frame(t) {
                        Some((p, rest)) => r matches StreamPoll::Produced { payload, wake }
                            && payload@ == p && wake == wake_hint(t) && final(self)@.buffer == rest,
                        None => r == (StreamPoll::Pending { wake: true }) && final(self)@.buffer
                            == t,
                    }
                },
            },
    {
        if self.closed {
            return StreamPoll::Done;
        }
        match ev {
            SourceEvent::Pending => StreamPoll::Pending { wake: false },
            SourceEvent::End => {
                self.closed = true;
                if all_blank(self.buf.as_slice()) {
                    StreamPoll::Done
                } else {
                    StreamPoll::Failed(StreamError::Truncated)
                }
            },
            SourceEvent::Error(m) => {
                self.closed = true;
                StreamPoll::Failed(StreamError::Transport(m))
            },
            SourceEvent::Chunk(b) => match text_of_utf8(b.as_slice()) {
                None => {
                    self.closed = true;
                    StreamPoll::Failed(StreamError::NotUtf8)
                },
                Some(text) => {
                    let mut cs = chars_of(text);
                    self.buf.append(&mut cs);
                    match self.next_frame() {
                        Some(f) => StreamPoll::Produced { payload: f.payload, wake: f.wake },
                        None => StreamPoll::Pending { wake: true },
                    }
                },
            },
        }
    }

    /// Records that the consumer could not decode the payload it was handed
    /// last: the stream fails and produces nothing more, whatever the buffer
    /// still holds.
    pub fn reject_frame(&mut self, msg: String) -> (r: StreamPoll)
        ensures
            final(self)@.closed,
            final(self)@.buffer == old(self)@.buffer,
            old(self)@.closed ==> r is Done,
            !old(self)@.closed ==> (r matches StreamPoll::Failed(StreamError::Decode(e)) && e@
                == msg@),
    {
        if self.closed {
            return StreamPoll::Done;
        }
        self.closed = true;
        StreamPoll::Failed(StreamError::Decode(msg))
    }
}

/// The text of each chunk of a body, read as UTF-8.
pub open spec fn chunk_texts(chunks: Seq<Vec<u8>>) -> Seq<Seq<char>> {
    chunks.map_values(|c: Vec<u8>| decode_utf8(c@))
}

/// Every chunk is valid UTF-8.
pub open spec fn all_valid_utf8(chunks: Seq<Vec<u8>>) -> bool {
    forall|i: int| 0 <= i < chunks.len() ==> valid_utf8(#[trigger] chunks[i]@)
}

/// The bytes of a body received as the given chunks.
pub open spec fn body_bytes(chunks: Seq<Vec<u8>>) -> Seq<u8> {
    chunks.map_values(|c: Vec<u8>| c@).flatten()
}

proof fn lemma_encode_concat(a: Seq<char>, b: Seq<char>)
    ensures
        encode_utf8(a + b) == encode_utf8(a) + encode_utf8(b),
    decreases a.len(),
{
    if a.len() == 0 {
        assert(a + b =~= b);
        assert(encode_utf8(a) + encode_utf8(b) =~= encode_utf8(b));
    } else {
        assert((a + b).drop_first() =~= a.drop_first() + b);
        lemma_encode_concat(a.drop_first(), b);
        assert(encode_utf8(a + b) =~= encode_utf8(a) + encode_utf8(b));
    }
}

/// Decoding two valid byte strings one after the other reads the same text
/// as decoding them joined.
proof fn lemma_decode_concat(x: Seq<u8>, y: Seq<u8>)
    requires
        valid_utf8(x),
        valid_utf8(y),
    ensures
        valid_utf8(x + y),
        decode_utf8(x + y) == decode_utf8(x) + decode_utf8(y),
{
    valid_utf8_concat(x, y);
    let c = decode_utf8(x) + decode_utf8(y);
    lemma_encode_concat(decode_utf8(x), decode_utf8(y));
    decode_utf8_encode_utf8(x);
    decode_utf8_encode_utf8(y);
    encode_utf8_decode_utf8(c);
}

/// Chunks of valid UTF-8 carry, one after the other, the text of the whole
/// body.
pub proof fn lemma_chunk_texts_join(chunks: Seq<Vec<u8>>)
    requires
        all_valid_utf8(chunks),
    ensures
        valid_utf8(body_bytes(chunks)),
        chunk_texts(chunks).flatten() == decode_utf8(body_bytes(chunks)),
    decreases chunks.len(),
{
    if chunks.len() == 0 {
        assert(body_bytes(chunks) =~= Seq::<u8>::empty());
        assert(chunk_texts(chunks).flatten() =~= Seq::<char>::empty());
    } else {
        let rest = chunks.drop_first();
        assert(chunk_texts(rest) =~= chunk_texts(chunks).drop_first());
        assert(rest.map_values(|c: Vec<u8>| c@) =~= chunks.map_values(|c: Vec<u8>| c@).drop_first());
        assert(all_valid_utf8(rest)) by {
            assert(forall|i: int| 0 <= i < rest.len() ==> #[trigger] rest[i] == chunks[i + 1]);
        }
        lemma_chunk_texts_join(rest);
        assert(valid_utf8(chunks[0]@));
        lemma_decode_concat(chunks[0]@, body_bytes(rest));
    }
}

/// Order preservation over bytes: two chunkings of the same body, each chunk
/// valid UTF-8 and no cut leaving an unterminated frame that already looks
/// complete, give the same frames in the same order and the same leftover,
/// so `collect_frames` gives the same result on both.
pub proof fn lemma_byte_fragmentation_invariant(a: Seq<Vec<u8>>, b: Seq<Vec<u8>>)
    requires
        body_bytes(a) == body_bytes(b),
        all_valid_utf8(a),
        all_valid_utf8(b),
        clean_cuts(chunk_texts(a)),
        clean_cuts(chunk_texts(b)),
    ensures
        run(chunk_texts(a)) == run(chunk_texts(b)),
{
    lemma_chunk_texts_join(a);
    lemma_chunk_texts_join(b);
    lemma_fragmentation_invariant(chunk_texts(a), chunk_texts(b));
}

pub open spec fn texts_of(v: Seq<String>) -> Seq<Seq<char>> {
    v.map_values(|s: String| s@)
}

/// The payloads of every frame of a body received as the given chunks, as
/// a consumer polling a stream over them receives them, up to its end. It
/// fails with `NotUtf8` when a chunk is not valid UTF-8, and with
/// `Truncated` when the body ends inside a frame.
pub fn collect_frames(chunks: &Vec<Vec<u8>>) -> (r: Result<Vec<String>, StreamError>)
    ensures
        (exists|i: int| 0 <= i < chunks@.len() && !valid_utf8(#[trigger] chunks@[i]@)) <==> (
        r matches Err(StreamError::NotUtf8)),
        all_valid_utf8(chunks@) ==> if is_blank(run(chunk_texts(chunks@)).1) {
            r matches Ok(v) && texts_of(v@) == run(chunk_texts(chunks@)).0
        } else {
            r matches Err(StreamError::Truncated)
        },
{
    let ghost texts = chunk_texts(chunks@);
    let mut s = ChatCompletionChunkStream::new();
    let mut out: Vec<String> = Vec::new();
    let mut i: usize = 0;
    while i < chunks.len()
        invariant
            i <= chunks@.len(),
            texts == chunk_texts(chunks@),
            !s@.closed,
            forall|k: int| 0 <= k < i ==> valid_utf8(#[trigger] chunks@[k]@),
            texts_of(out@) == run(texts.take(i as int)).0,
            s@.buffer == run(texts.take(i as int)).1,
        decreases chunks@.len() - i,
    {
        let ghost prev = run(texts.take(i as int));
        proof {
            assert(texts.take(i + 1).drop_last() =~= texts.take(i as int));
        }
        let ev = SourceEvent::Chunk(chunks[i].clone());
        let first = s.on_source(ev);
        match first {
            StreamPoll::Produced { payload, .. } => {
                proof {
                    lemma_next_frame_shrinks(prev.1 + texts[i as int]);
                }
                out.push(payload);
            },
            StreamPoll::Pending { .. } => {},
            _ => {
                proof {
                    assert(!valid_utf8(chunks@[i as int]@));
                }
                return Err(StreamError::NotUtf8);
            },
        }
        proof {
            assert(texts_of(out@) + drain(s@.buffer).0 =~= run(texts.take(i + 1)).0);
        }
        loop
            invariant
                texts == chunk_texts(chunks@),
                i < chunks@.len(),
                !s@.closed,
                texts_of(out@) + drain(s@.buffer).0 == run(texts.take(i + 1)).0,
                drain(s@.buffer).1 == run(texts.take(i + 1)).1,
            ensures
                !s@.closed,
                texts_of(out@) == run(texts.take(i + 1)).0,
                s@.buffer == run(texts.take(i + 1)).1,
            decreases s@.buffer.len(),
        {
            let ghost b = s@.buffer;
            proof {
                lemma_next_frame_shrinks(b);
            }
            match s.poll_buffered() {
                Some(StreamPoll::Produced { payload, .. }) => {
                    let ghost before = texts_of(out@);
                    out.push(payload);
                    proof {
                        assert(texts_of(out@) =~= before.push(payload@));
                        assert(before + drain(b).0 =~= texts_of(out@) + drain(s@.buffer).0);
                    }
                },
                _ => {
                    proof {
                        assert(drain(b) == (Seq::<Seq<char>>::empty(), b));
                        assert(texts_of(out@) + drain(b).0 =~= texts_of(out@));
                    }
                    break;
                },
            }
        }
        i = i + 1;
    }
    proof {
        assert(texts.take(i as int) =~= texts);
    }
    match s.on_source(SourceEvent::End) {
        StreamPoll::Failed(e) => Err(e),
        _ => Ok(out),
    }
}

} // verus!
