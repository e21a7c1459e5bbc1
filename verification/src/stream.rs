//! Decoding of a streamed chat completion: server-sent-event lines in, chunk
//! and completion events out.
//!
//! The application reads the response body and parses each JSON payload; the
//! decoder frames lines, recognises the stream markers and accumulates the
//! completion text.
use vstd::prelude::*;
use crate::context::concat_all;
use crate::text::{chars_of, first_newline, has_prefix, push_all, slice_chars, starts_with,
    string_from_chars, trim, trim_chars, eq_str, find_chars, lemma_first_newline};

verus! {

/// What a streamed completion tells its consumer.
pub enum StreamEvent {
    /// A piece of the completion text, as it arrived.
    Chunk(String),
    /// The completion ended; the whole text so far.
    Done(String),
    /// The completion failed.
    Error(String),
}

/// The view of an event: its kind (0 chunk, 1 done, 2 error) and its text.
pub open spec fn event_view(e: StreamEvent) -> (int, Seq<char>) {
    match e {
        StreamEvent::Chunk(s) => (0, s@),
        StreamEvent::Done(s) => (1, s@),
        StreamEvent::Error(s) => (2, s@),
    }
}

/// One complete line of the event stream, classified.
pub enum SseLine {
    /// A blank line, or one that carries no `data: ` field.
    Skip,
    /// The `data: [DONE]` marker.
    Finished,
    /// The payload of a `data: ` line.
    Payload(String),
}

/// The prefix of a data line.
pub open spec fn data_prefix() -> Seq<char> {
    "data: "@
}

/// The payload that marks the end of the stream.
pub open spec fn done_marker() -> Seq<char> {
    "[DONE]"@
}

/// How a raw line (before trimming) is classified: trimmed, a blank line or
/// one without the data prefix is skipped, the end marker finishes the
/// stream, anything else after the prefix is a payload.
pub open spec fn classify(raw: Seq<char>) -> (int, Seq<char>) {
    let line = trim(raw);
    if line.len() == 0 || !has_prefix(line, data_prefix()) {
        (0, seq![])
    } else {
        let data = line.skip(data_prefix().len() as int);
        if data == done_marker() {
            (1, seq![])
        } else {
            (2, data)
        }
    }
}

/// The view of a classified line, in the shape of `classify`.
pub open spec fn line_view(l: SseLine) -> (int, Seq<char>) {
    match l {
        SseLine::Skip => (0, seq![]),
        SseLine::Finished => (1, seq![]),
        SseLine::Payload(s) => (2, s@),
    }
}

/// The state of one streamed completion: the text received but not yet
/// framed into lines, and the completion text accumulated so far, which is
/// always the concatenation of the chunks handed on.
pub struct SseDecoder {
    buffer: Vec<char>,
    full: Vec<char>,
    sent: Ghost<Seq<Seq<char>>>,
}

impl SseDecoder {
    /// The decoder's invariant: its text is the concatenation of the chunks it
    /// handed on.
    pub closed spec fn wf(&self) -> bool {
        self.full@ == concat_all(self.sent@)
    }

    /// The chunk texts handed on so far, in order.
    pub closed spec fn sent(&self) -> Seq<Seq<char>> {
        self.sent@
    }

    /// The characters received that do not yet end in a line feed.
    pub closed spec fn pending(&self) -> Seq<char> {
        self.buffer@
    }

    /// The completion text accumulated so far.
    pub closed spec fn text(&self) -> Seq<char> {
        self.full@
    }

    /// A decoder that has received nothing.
    pub fn new() -> (d: SseDecoder)
        ensures
            d.pending() == Seq::<char>::empty(),
            d.text() == Seq::<char>::empty(),
            d.sent() == Seq::<Seq<char>>::empty(),
            d.wf(),
    {
        SseDecoder { buffer: Vec::new(), full: Vec::new(), sent: Ghost(Seq::empty()) }
    }

    /// Appends received text to the part not yet framed.
    pub fn push_text(&mut self, received: &str)
        requires
            old(self).wf(),
        ensures
            final(self).wf(),
            final(self).pending() == old(self).pending() + received@,
            final(self).text() == old(self).text(),
            final(self).sent() == old(self).sent(),
    {
        let v = chars_of(received);
        push_all(&mut self.buffer, &v);
    }

    /// Takes the next complete line, if one has arrived, and classifies it.
    /// Without a line feed in the pending text nothing changes.
    pub fn next_line(&mut self) -> (r: Option<SseLine>)
        requires
            old(self).wf(),
        ensures
            final(self).wf(),
            final(self).text() == old(self).text(),
            final(self).sent() == old(self).sent(),
            match first_newline(old(self).pending()) {
                None => r is None && final(self).pending() == old(self).pending(),
                Some(p) => {
                    &&& r matches Some(l) && line_view(l) == classify(old(self).pending().take(p))
                    &&& final(self).pending() == old(self).pending().skip(p + 1)
                },
            },
    {
        let nl = vec!['\n'];
        assert(nl@ =~= seq!['\n']);
        proof {
            lemma_first_newline(self.buffer@);
        }
        match find_chars(&self.buffer, &nl) {
            None => None,
            Some(pos) => {
                assert(first_newline(self.buffer@) == Some(pos as int));
                let n = self.buffer.len();
                assert(pos < n);
                let raw = slice_chars(&self.buffer, 0, pos);
                let rest = slice_chars(&self.buffer, pos + 1, n);
                assert(raw@ == self.buffer@.take(pos as int));
                assert(rest@ == self.buffer@.skip(pos + 1));
                self.buffer = rest;
                Some(classify_line(&raw))
            },
        }
    }

    /// Takes in the parsed payload of one data line: the content it carries,
    /// if any, and whether it reports a finish reason. The content is added to
    /// the completion text and handed on as a chunk; a finish reason ends the
    /// completion with the whole text.
    pub fn apply_delta(&mut self, content: Option<String>, finished: bool) -> (events: Vec<
        StreamEvent,
    >)
        requires
            old(self).wf(),
        ensures
            final(self).wf(),
            final(self).pending() == old(self).pending(),
            final(self).text() == old(self).text() + (match content {
                Some(c) => c@,
                None => Seq::<char>::empty(),
            }),
            final(self).sent() == old(self).sent() + (match content {
                Some(c) => seq![c@],
                None => Seq::<Seq<char>>::empty(),
            }),
            final(self).text() == concat_all(final(self).sent()),
            events@.map_values(|e: StreamEvent| event_view(e)) == (match content {
                Some(c) => seq![(0int, c@)],
                None => Seq::<(int, Seq<char>)>::empty(),
            }) + (if finished {
                seq![(1int, final(self).text())]
            } else {
                Seq::<(int, Seq<char>)>::empty()
            }),
    {
        let mut events: Vec<StreamEvent> = Vec::new();
        match content {
            Some(c) => {
                let v = chars_of(c.as_str());
                push_all(&mut self.full, &v);
                let ghost sent = self.sent@.push(c@);
                assert(sent.drop_last() =~= self.sent@);
                assert(concat_all(sent) == concat_all(self.sent@) + c@);
                self.sent = Ghost(sent);
                events.push(StreamEvent::Chunk(c));
            },
            None => {},
        }
        if finished {
            events.push(StreamEvent::Done(string_from_chars(&self.full)));
        }
        proof {
            let evs = events@.map_values(|e: StreamEvent| event_view(e));
            assert(evs.len() == events@.len());
        }
        assert(events@.map_values(|e: StreamEvent| event_view(e)) =~= (match content {
            Some(c) => seq![(0int, c@)],
            None => Seq::<(int, Seq<char>)>::empty(),
        }) + (if finished {
            seq![(1int, self.full@)]
        } else {
            Seq::<(int, Seq<char>)>::empty()
        }));
        events
    }

    /// The event that ends the completion with the text accumulated so far:
    /// sent on the end marker, when the body ends, or when the request is
    /// cancelled.
    pub fn done(&self) -> (e: StreamEvent)
        requires
            self.wf(),
        ensures
            event_view(e) == (1int, self.text()),
            self.text() == concat_all(self.sent()),
    {
        StreamEvent::Done(string_from_chars(&self.full))
    }
}

/// Classifies one raw line (without its line feed).
pub fn classify_line(raw: &Vec<char>) -> (l: SseLine)
    ensures
        line_view(l) == classify(raw@),
{
    let line = trim_chars(raw);
    let prefix = chars_of("data: ");
    if line.len() == 0 || !starts_with(&line, &prefix) {
        return SseLine::Skip;
    }
    proof {
        reveal_strlit("data: ");
    }
    let data = slice_chars(&line, 6, line.len());
    assert(data@ == line@.skip(data_prefix().len() as int));
    if eq_str(&data, "[DONE]") {
        SseLine::Finished
    } else {
        SseLine::Payload(string_from_chars(&data))
    }
}

/// The message of the error event sent when the service answers with a
/// status other than success: the status line and the body.
pub fn status_error(status: &str, body: &str) -> (e: StreamEvent)
    ensures
        event_view(e) == (2int, "OpenRouter "@ + status@ + ": "@ + body@),
{
    let mut v: Vec<char> = Vec::new();
    crate::text::push_str(&mut v, "OpenRouter ");
    crate::text::push_str(&mut v, status);
    crate::text::push_str(&mut v, ": ");
    crate::text::push_str(&mut v, body);
    StreamEvent::Error(string_from_chars(&v))
}

} // verus!
