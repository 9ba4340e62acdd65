use vstd::prelude::*;
use vstd::utf8::{decode_utf8, pop_first_scalar, valid_utf8};
use crate::text::{decode_lossy, lossy_text};

verus! {

/// How serious a line of the child's output is.
#[derive(Clone, Copy, Debug, PartialEq, Eq, Structural)]
pub enum Severity {
    Debug,
    Info,
    Error,
}

/// One classified line of output, its marker stripped.
#[derive(Debug)]
pub struct LogEvent {
    pub severity: Severity,
    pub text: String,
}

/// The prefix that marks a line of the given severity, in ASCII codes:
/// `[DEBUG]   - `, `[INFO]    - ` and `[ERROR]   - ` (the level in brackets,
/// padded with spaces, then a dash and a space).
pub open spec fn marker_of(sev: Severity) -> Seq<u8> {
    match sev {
        Severity::Debug => seq![91u8, 68, 69, 66, 85, 71, 93, 32, 32, 32, 45, 32],
        Severity::Info => seq![91u8, 73, 78, 70, 79, 93, 32, 32, 32, 32, 45, 32],
        Severity::Error => seq![91u8, 69, 82, 82, 79, 82, 93, 32, 32, 32, 45, 32],
    }
}

pub open spec fn starts_with(line: Seq<u8>, prefix: Seq<u8>) -> bool {
    prefix.len() <= line.len() && line.take(prefix.len() as int) == prefix
}

/// The severity of a line and its text without the marker. Markers count only
/// at the start of the line and are tried in the order Debug, Info, Error; an
/// unmarked line is Info and keeps all its text.
pub open spec fn classify_line(line: Seq<u8>) -> (Severity, Seq<u8>) {
    if starts_with(line, marker_of(Severity::Debug)) {
        (Severity::Debug, line.skip(marker_of(Severity::Debug).len() as int))
    } else if starts_with(line, marker_of(Severity::Info)) {
        (Severity::Info, line.skip(marker_of(Severity::Info).len() as int))
    } else if starts_with(line, marker_of(Severity::Error)) {
        (Severity::Error, line.skip(marker_of(Severity::Error).len() as int))
    } else {
        (Severity::Info, line)
    }
}

/// `ev` is what classifying `line` gives.
pub open spec fn describes(ev: LogEvent, line: Seq<u8>) -> bool {
    &&& ev.severity == classify_line(line).0
    &&& ev.text@ == lossy_text(classify_line(line).1)
    &&& valid_utf8(classify_line(line).1) ==> ev.text@ == decode_utf8(classify_line(line).1)
}

/// A line that starts with one severity's marker is of that severity, and its
/// text is exactly what follows the marker.
pub proof fn lemma_marker_stripped(sev: Severity, body: Seq<u8>)
    ensures
        classify_line(marker_of(sev) + body) == (sev, body),
{
    let line = marker_of(sev) + body;
    assert(line.take(12) =~= marker_of(sev));
    assert(line.skip(12) =~= body);
    if sev != Severity::Debug {
        assert(line.take(12)[1] != marker_of(Severity::Debug)[1]);
    }
    if sev == Severity::Error {
        assert(line.take(12)[1] != marker_of(Severity::Info)[1]);
    }
}

/// A line that does not start with a marker is Info and keeps all its text,
/// whatever markers stand later in it.
pub proof fn lemma_unmarked_default(line: Seq<u8>)
    requires
        !starts_with(line, marker_of(Severity::Debug)),
        !starts_with(line, marker_of(Severity::Info)),
        !starts_with(line, marker_of(Severity::Error)),
    ensures
        classify_line(line) == (Severity::Info, line),
{
}

proof fn lemma_valid_after_ascii(p: Seq<u8>, b: Seq<u8>)
    requires
        valid_utf8(p + b),
        forall|j: int| 0 <= j < p.len() ==> p[j] < 128,
    ensures
        valid_utf8(b),
    decreases p.len(),
{
    if p.len() == 0 {
        assert(p + b =~= b);
    } else {
        assert(p[0] < 128);
        assert((p + b)[0] == p[0]);
        assert(pop_first_scalar(p + b) =~= p.drop_first() + b);
        lemma_valid_after_ascii(p.drop_first(), b);
    }
}

/// The text that classifying a valid UTF-8 line keeps is valid UTF-8 too, so
/// its event holds exactly the decoded text, with no replacement characters
/// added.
pub proof fn lemma_valid_line_body(line: Seq<u8>)
    requires
        valid_utf8(line),
    ensures
        valid_utf8(classify_line(line).1),
{
    let (sev, body) = classify_line(line);
    if body != line {
        let m = marker_of(sev);
        assert(line =~= line.take(12) + body);
        assert(line.take(12) == m);
        lemma_valid_after_ascii(line.take(12), body);
    }
}

fn marker(sev: Severity) -> (r: Vec<u8>)
    ensures
        r@ == marker_of(sev),
{
    let r = match sev {
        Severity::Debug => vec![91u8, 68, 69, 66, 85, 71, 93, 32, 32, 32, 45, 32],
        Severity::Info => vec![91u8, 73, 78, 70, 79, 93, 32, 32, 32, 32, 45, 32],
        Severity::Error => vec![91u8, 69, 82, 82, 79, 82, 93, 32, 32, 32, 45, 32],
    };
    assert(r@ =~= marker_of(sev));
    r
}

fn has_prefix(line: &[u8], prefix: &[u8]) -> (r: bool)
    ensures
        r == starts_with(line@, prefix@),
{
    if prefix.len() > line.len() {
        return false;
    }
    let mut i: usize = 0;
    while i < prefix.len()
        invariant
            prefix@.len() <= line@.len(),
            i <= prefix@.len(),
            forall|j: int| 0 <= j < i ==> line@[j] == prefix@[j],
        decreases prefix@.len() - i,
    {
        if line[i] != prefix[i] {
            assert(line@.take(prefix@.len() as int)[i as int] != prefix@[i as int]);
            return false;
        }
        i = i + 1;
    }
    assert(line@.take(prefix@.len() as int) =~= prefix@);
    true
}

fn tail_of(line: &[u8], start: usize) -> (r: Vec<u8>)
    requires
        start <= line@.len(),
    ensures
        r@ == line@.skip(start as int),
{
    let mut r: Vec<u8> = Vec::new();
    let mut i: usize = start;
    while i < line.len()
        invariant
            start <= i <= line@.len(),
            r@ == line@.subrange(start as int, i as int),
        decreases line@.len() - i,
    {
        r.push(line[i]);
        i = i + 1;
        assert(r@ =~= line@.subrange(start as int, i as int));
    }
    assert(r@ =~= line@.skip(start as int));
    r
}

/// Classifies one complete line of the child's output.
pub fn classify(line: &[u8]) -> (ev: LogEvent)
    ensures
        describes(ev, line@),
{
    let order = [Severity::Debug, Severity::Info, Severity::Error];
    let mut k: usize = 0;
    while k < 3
        invariant
            order@ == seq![Severity::Debug, Severity::Info, Severity::Error],
            k <= 3,
            forall|j: int| 0 <= j < k ==> !starts_with(line@, #[trigger] marker_of(order@[j])),
        decreases 3 - k,
    {
        let sev = order[k];
        let m = marker(sev);
        if has_prefix(line, m.as_slice()) {
            let body = tail_of(line, m.len());
            let text = decode_lossy(body.as_slice());
            assert(marker_of(order@[0]) == marker_of(Severity::Debug));
            assert(marker_of(order@[1]) == marker_of(Severity::Info));
            return LogEvent { severity: sev, text };
        }
        k = k + 1;
    }
    assert(marker_of(order@[0]) == marker_of(Severity::Debug));
    assert(marker_of(order@[1]) == marker_of(Severity::Info));
    assert(marker_of(order@[2]) == marker_of(Severity::Error));
    LogEvent { severity: Severity::Info, text: decode_lossy(line) }
}

} // verus!
