use fpga_console::classify::Severity;
use fpga_console::drain::{DrainTask, ReadOutcome};

fn summary(evs: &[fpga_console::classify::LogEvent]) -> Vec<(Severity, String)> {
    evs.iter().map(|e| (e.severity, e.text.clone())).collect()
}

#[test]
fn drain_emits_events_in_order() {
    let mut t = DrainTask::new();
    let step = t.step(ReadOutcome::Data(b"[ERROR]   - disk full\n[INFO]    - retrying\n".to_vec()));
    assert!(!step.stop);
    assert_eq!(
        summary(&step.events),
        vec![(Severity::Error, "disk full".to_string()), (Severity::Info, "retrying".to_string())]
    );
    let end = t.step(ReadOutcome::Closed);
    assert!(end.stop);
    assert!(!end.read_failed);
    assert!(end.events.is_empty());
}

#[test]
fn drain_across_reads() {
    let mut t = DrainTask::new();
    let a = t.step(ReadOutcome::Data(b"[ERROR]   - di".to_vec()));
    assert!(a.events.is_empty());
    let b = t.step(ReadOutcome::Data(b"sk full\n[INFO]    - re".to_vec()));
    assert_eq!(summary(&b.events), vec![(Severity::Error, "disk full".to_string())]);
    let c = t.step(ReadOutcome::Data(b"trying\n".to_vec()));
    assert_eq!(summary(&c.events), vec![(Severity::Info, "retrying".to_string())]);
}

#[test]
fn empty_read_ends_the_stream_and_flushes() {
    let mut t = DrainTask::new();
    let a = t.step(ReadOutcome::Data(b"tail".to_vec()));
    assert!(a.events.is_empty());
    let b = t.step(ReadOutcome::Data(Vec::new()));
    assert!(b.stop);
    assert!(!b.read_failed);
    assert_eq!(summary(&b.events), vec![(Severity::Info, "tail".to_string())]);
    assert!(t.stopped());
}

#[test]
fn failed_read_stops_and_reports() {
    let mut t = DrainTask::new();
    t.step(ReadOutcome::Data(b"[DEBUG]   - half".to_vec()));
    let b = t.step(ReadOutcome::Failed("Error reading from stdout: broken pipe".to_string()));
    assert!(b.stop);
    assert!(b.read_failed);
    assert_eq!(
        summary(&b.events),
        vec![(Severity::Error, "Error reading from stdout: broken pipe".to_string())]
    );
    let c = t.step(ReadOutcome::Data(b"more\n".to_vec()));
    assert!(c.stop);
    assert!(c.events.is_empty());
}

#[test]
fn chunk_boundaries_do_not_change_events() {
    let text = "[INFO]    - caf\u{e9}\n[ERROR]   - \u{2713} done\nlast".as_bytes();
    let run = |cuts: &[usize]| {
        let mut t = DrainTask::new();
        let mut all = Vec::new();
        let mut from = 0;
        for &c in cuts.iter().chain(std::iter::once(&text.len())) {
            if c > from {
                all.extend(summary(&t.step(ReadOutcome::Data(text[from..c].to_vec())).events));
                from = c;
            }
        }
        all.extend(summary(&t.step(ReadOutcome::Closed).events));
        all
    };
    let whole = run(&[]);
    assert_eq!(
        whole,
        vec![
            (Severity::Info, "caf\u{e9}".to_string()),
            (Severity::Error, "\u{2713} done".to_string()),
            (Severity::Info, "last".to_string()),
        ]
    );
    for cut in 1..text.len() {
        assert_eq!(run(&[cut]), whole);
    }
}

#[test]
fn stopped_drain_stays_stopped() {
    let mut t = DrainTask::new();
    t.step(ReadOutcome::Closed);
    let b = t.step(ReadOutcome::Data(b"late\n".to_vec()));
    assert!(b.stop);
    assert!(b.events.is_empty());
    assert!(t.stopped());
}
