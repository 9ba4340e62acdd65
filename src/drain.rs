use vstd::prelude::*;
use vstd::utf8::{decode_utf8, valid_utf8};
use crate::classify::{classify, classify_line, describes, lemma_valid_line_body, LogEvent, Severity};
use crate::lines::{
    all_lines, concat_chunks, feed, lemma_chunked_round_trip, lemma_lines_of_valid_text, lines_view, split_lines, LineReassembler,
};

verus! {

/// What one read of the child's output stream gave.
pub enum ReadOutcome {
    /// Bytes were read; an empty read means the stream has closed.
    Data(Vec<u8>),
    /// The stream reported end of file.
    Closed,
    /// The read failed; the description says how.
    Failed(String),
}

/// What the read loop does after one read: log `events` in order, then read
/// again or stop. `read_failed` says the stop came from a failed read.
pub struct DrainStep {
    pub events: Vec<LogEvent>,
    pub stop: bool,
    pub read_failed: bool,
}

/// `evs` are the classifications of `ls`, one for one and in order.
pub open spec fn events_of(evs: Seq<LogEvent>, ls: Seq<Seq<u8>>) -> bool {
    evs.len() == ls.len() && forall|i: int| 0 <= i < ls.len() ==> describes(#[trigger] evs[i], ls[i])
}

/// The events of several steps, one after the other.
pub open spec fn concat_events(evs: Seq<Seq<LogEvent>>) -> Seq<LogEvent>
    decreases evs.len(),
{
    if evs.len() == 0 {
        Seq::empty()
    } else {
        concat_events(evs.drop_last()) + evs.last()
    }
}

proof fn lemma_events_append(a: Seq<LogEvent>, la: Seq<Seq<u8>>, b: Seq<LogEvent>, lb: Seq<Seq<u8>>)
    requires
        events_of(a, la),
        events_of(b, lb),
    ensures
        events_of(a + b, la + lb),
{
    assert forall|i: int| 0 <= i < (la + lb).len() implies describes(#[trigger] (a + b)[i], (la
        + lb)[i]) by {
        if i >= la.len() {
            assert(describes(b[i - la.len()], lb[i - la.len()]));
        }
    }
}

proof fn lemma_steps_events(chunks: Seq<Seq<u8>>, evs: Seq<Seq<LogEvent>>, n: int)
    requires
        0 <= n <= chunks.len(),
        evs.len() == chunks.len(),
        forall|i: int|
            0 <= i < chunks.len() ==> events_of(
                #[trigger] evs[i],
                split_lines(feed(Seq::empty(), chunks.take(i)).1 + chunks[i]).0,
            ),
    ensures
        events_of(concat_events(evs.take(n)), feed(Seq::empty(), chunks.take(n)).0),
    decreases n,
{
    if n > 0 {
        lemma_steps_events(chunks, evs, n - 1);
        assert(chunks.take(n).drop_last() =~= chunks.take(n - 1));
        assert(evs.take(n).drop_last() =~= evs.take(n - 1));
        assert(events_of(evs[n - 1], split_lines(feed(Seq::empty(), chunks.take(n - 1)).1
            + chunks[n - 1]).0));
        lemma_events_append(
            concat_events(evs.take(n - 1)),
            feed(Seq::empty(), chunks.take(n - 1)).0,
            evs[n - 1],
            split_lines(feed(Seq::empty(), chunks.take(n - 1)).1 + chunks[n - 1]).0,
        );
    } else {
        assert(chunks.take(0) =~= Seq::<Seq<u8>>::empty());
        assert(evs.take(0) =~= Seq::<Seq<LogEvent>>::empty());
    }
}

/// A drain fed a stream in non-empty chunks and then closed classifies every
/// line of the stream, in order, whatever the chunk boundaries (also inside a
/// multi-byte character): `evs[i]` are the events of the step that took
/// `chunks[i]`, as that step's contract gives them, and `last` those of the
/// step that saw the stream close. When the stream is valid UTF-8, each
/// event's text is exactly the decoded text after the marker, so no
/// replacement character appears that the stream did not hold.
pub proof fn lemma_drain_round_trip(chunks: Seq<Seq<u8>>, evs: Seq<Seq<LogEvent>>, last: Seq<LogEvent>)
    requires
        evs.len() == chunks.len(),
        forall|i: int|
            0 <= i < chunks.len() ==> events_of(
                #[trigger] evs[i],
                split_lines(feed(Seq::empty(), chunks.take(i)).1 + chunks[i]).0,
            ),
        feed(Seq::empty(), chunks).1.len() == 0 ==> last.len() == 0,
        feed(Seq::empty(), chunks).1.len() > 0 ==> events_of(last, seq![feed(Seq::empty(), chunks).1]),
    ensures
        events_of(concat_events(evs) + last, all_lines(concat_chunks(chunks))),
        valid_utf8(concat_chunks(chunks)) ==> forall|i: int|
            0 <= i < all_lines(concat_chunks(chunks)).len() ==> (#[trigger] (concat_events(evs)
                + last)[i]).text@ == decode_utf8(classify_line(all_lines(concat_chunks(chunks))[i]).1),
{
    lemma_steps_events(chunks, evs, chunks.len() as int);
    assert(chunks.take(chunks.len() as int) =~= chunks);
    assert(evs.take(evs.len() as int) =~= evs);
    lemma_chunked_round_trip(chunks);
    let (ls, rest) = feed(Seq::empty(), chunks);
    if rest.len() == 0 {
        assert(last =~= Seq::<LogEvent>::empty());
        assert(concat_events(evs) + last =~= concat_events(evs));
    } else {
        lemma_events_append(concat_events(evs), ls, last, seq![rest]);
        assert(ls + seq![rest] =~= ls.push(rest));
    }
    let t = concat_chunks(chunks);
    if valid_utf8(t) {
        lemma_lines_of_valid_text(t);
        assert forall|i: int| 0 <= i < all_lines(t).len() implies (#[trigger] (concat_events(evs)
            + last)[i]).text@ == decode_utf8(classify_line(all_lines(t)[i]).1) by {
            lemma_valid_line_body(all_lines(t)[i]);
            assert(describes((concat_events(evs) + last)[i], all_lines(t)[i]));
        }
    }
}

/// The decisions of the loop that drains a child's output: it reassembles
/// lines, classifies them, and stops for good once the stream closes or
/// fails. At the end of the stream the unterminated remainder is handed out
/// as a last line. A failed read breaks the stream: the remainder, whose end
/// was lost, is dropped, and one Error event reports the failure.
pub struct DrainTask {
    lines: LineReassembler,
    stopped: bool,
}

impl DrainTask {
    pub closed spec fn pending(&self) -> Seq<u8> {
        self.lines@
    }

    pub closed spec fn is_stopped(&self) -> bool {
        self.stopped
    }

    pub closed spec fn wf(&self) -> bool {
        self.lines.wf() && (self.stopped ==> self.lines@.len() == 0)
    }

    pub fn new() -> (r: DrainTask)
        ensures
            r.wf(),
            !r.is_stopped(),
            r.pending() == Seq::<u8>::empty(),
    {
        DrainTask { lines: LineReassembler::new(), stopped: false }
    }

    pub fn stopped(&self) -> (r: bool)
        ensures
            r == self.is_stopped(),
    {
        self.stopped
    }

    fn classify_all(ls: &Vec<Vec<u8>>) -> (evs: Vec<LogEvent>)
        ensures
            events_of(evs@, lines_view(ls@)),
    {
        let mut evs: Vec<LogEvent> = Vec::new();
        let mut i: usize = 0;
        while i < ls.len()
            invariant
                i <= ls@.len(),
                evs@.len() == i,
                forall|j: int| 0 <= j < i ==> describes(#[trigger] evs@[j], ls@[j]@),
            decreases ls@.len() - i,
        {
            evs.push(classify(ls[i].as_slice()));
            i = i + 1;
        }
        evs
    }

    /// Takes the outcome of one read and says what to log and whether to go on.
    pub fn step(&mut self, outcome: ReadOutcome) -> (r: DrainStep)
        requires
            old(self).wf(),
        ensures
            final(self).wf(),
            old(self).is_stopped() ==> r.events@.len() == 0 && r.stop && !r.read_failed
                && final(self).is_stopped(),
            !old(self).is_stopped() ==> match outcome {
                ReadOutcome::Data(bytes) if bytes@.len() > 0 => {
                    let (ls, rest) = split_lines(old(self).pending() + bytes@);
                    &&& events_of(r.events@, ls)
                    &&& final(self).pending() == rest
                    &&& !r.stop && !r.read_failed && !final(self).is_stopped()
                },
                ReadOutcome::Failed(why) => {
                    &&& r.events@.len() == 1
                    &&& r.events@[0].severity == Severity::Error
                    &&& r.events@[0].text@ == why@
                    &&& r.stop && r.read_failed && final(self).is_stopped()
                },
                _ => {
                    &&& old(self).pending().len() == 0 ==> r.events@.len() == 0
                    &&& old(self).pending().len() > 0 ==> events_of(r.events@, seq![old(self).pending()])
                    &&& r.stop && !r.read_failed && final(self).is_stopped()
                },
            },
    {
        if self.stopped {
            return DrainStep { events: Vec::new(), stop: true, read_failed: false };
        }
        match outcome {
            ReadOutcome::Data(bytes) => {
                if bytes.len() > 0 {
                    let ls = self.lines.push(bytes.as_slice());
                    let events = Self::classify_all(&ls);
                    return DrainStep { events, stop: false, read_failed: false };
                }
            },
            ReadOutcome::Failed(why) => {
                let _ = self.lines.finish();
                self.stopped = true;
                let mut events: Vec<LogEvent> = Vec::new();
                events.push(LogEvent { severity: Severity::Error, text: why });
                return DrainStep { events, stop: true, read_failed: true };
            },
            ReadOutcome::Closed => {},
        }
        let mut events: Vec<LogEvent> = Vec::new();
        match self.lines.finish() {
            Some(last) => {
                events.push(classify(last.as_slice()));
            },
            None => {},
        }
        self.stopped = true;
        DrainStep { events, stop: true, read_failed: false }
    }
}

} // verus!
