use std::sync::Mutex;
use syncor::progress::{ItemTotal, Phase, ProgressReporter};
use syncor::transport::git_progress::{
    phase_for, read_line, Amount, GitProgressParser, ProgressEvent, ProgressLine, State,
};
use syncor::transport::git_stream::StderrReader;

#[derive(Default)]
struct RecordingReporter {
    events: Mutex<Vec<String>>,
}

impl ProgressReporter for RecordingReporter {
    fn phase_start(&self, phase: Phase, total: ItemTotal) {
        self.events.lock().unwrap().push(match total {
            ItemTotal::Unknown => format!("start {:?} unknown", phase),
            ItemTotal::Count(n) => format!("start {:?} count={}", phase, n),
            ItemTotal::Bytes { items, bytes } => {
                format!("start {:?} items={} bytes={}", phase, items, bytes)
            }
        });
    }
    fn phase_tick(&self, items: u64, bytes: u64) {
        self.events
            .lock()
            .unwrap()
            .push(format!("tick items+{} bytes+{}", items, bytes));
    }
    fn phase_end(&self, phase: Phase) {
        self.events.lock().unwrap().push(format!("end {:?}", phase));
    }
    fn log(&self, msg: &str) {
        self.events.lock().unwrap().push(format!("log {}", msg));
    }
}

fn feed(parser: &mut GitProgressParser<'_>, s: &str) {
    // Split on \r and \n, feed each line.
    for line in s.split(['\r', '\n']) {
        let trimmed = line.trim();
        if !trimmed.is_empty() {
            parser.feed_line(trimmed);
        }
    }
    parser.finish();
}

const PUSH: &str = "Enumerating objects: 26, done.\n\
    Counting objects:   3% (1/26)\rCounting objects:  50% (13/26)\r\
    Counting objects: 100% (26/26), done.\n\
    Delta compression using up to 8 threads\n\
    Compressing objects:   5% (1/18)\rCompressing objects: 100% (18/18), done.\n\
    Writing objects:   3% (1/26)\rWriting objects:  50% (13/26), 2.00 KiB | 2.00 MiB/s\r\
    Writing objects: 100% (26/26), 5.24 KiB | 5.24 MiB/s, done.\n\
    Total 26 (delta 4), reused 0 (delta 0), pack-reused 0\n\
    remote: Resolving deltas:   0% (0/4)\rremote: Resolving deltas: 100% (4/4), done.\n\
    To /tmp/remote.git\n * [new branch]      main -> main\n";

const FETCH: &str = "remote: Enumerating objects: 5, done.\n\
    remote: Counting objects:  20% (1/5)\rremote: Counting objects: 100% (5/5), done.\n\
    remote: Compressing objects:  50% (1/2)\rremote: Compressing objects: 100% (2/2), done.\n\
    remote: Total 3 (delta 0), reused 0 (delta 0), pack-reused 0\n\
    From /tmp/remote\n * branch            main       -> FETCH_HEAD\n";

const CLONE: &str = "Cloning into '.'...\n\
    remote: Enumerating objects: 26, done.\n\
    remote: Counting objects: 100% (26/26), done.\n\
    remote: Compressing objects: 100% (18/18), done.\n\
    remote: Total 26 (delta 4), reused 26 (delta 4), pack-reused 0\n\
    Receiving objects:   3% (1/26)\rReceiving objects:  50% (13/26)\r\
    Receiving objects: 100% (26/26), 5.24 KiB | 5.24 MiB/s, done.\n\
    Resolving deltas:   0% (0/4)\rResolving deltas: 100% (4/4), done.\n";

#[test]
fn parses_push_fixture() {
    let r = RecordingReporter::default();
    let mut p = GitProgressParser::new(&r);
    feed(&mut p, PUSH);
    let events = r.events.lock().unwrap();
    // At minimum, we expect a GitEnumerate start, a GitWrite start,
    // and a terminal end.
    let starts: Vec<&String> = events.iter().filter(|e| e.starts_with("start")).collect();
    assert!(
        starts.iter().any(|e| e.contains("GitEnumerate")),
        "missing GitEnumerate start in events: {:?}",
        starts
    );
    assert!(
        starts.iter().any(|e| e.contains("GitWrite")),
        "missing GitWrite start in events: {:?}",
        starts
    );
    assert!(events.iter().any(|e| e.starts_with("end ")));
}

#[test]
fn parses_fetch_fixture() {
    let r = RecordingReporter::default();
    let mut p = GitProgressParser::new(&r);
    feed(&mut p, FETCH);
    let events = r.events.lock().unwrap();
    let starts: Vec<&String> = events.iter().filter(|e| e.starts_with("start")).collect();
    assert!(
        starts
            .iter()
            .any(|e| e.contains("GitReceive") || e.contains("GitEnumerate")),
        "expected GitReceive or GitEnumerate in fetch fixture: {:?}",
        starts
    );
}

#[test]
fn parses_clone_fixture() {
    let r = RecordingReporter::default();
    let mut p = GitProgressParser::new(&r);
    feed(&mut p, CLONE);
    let events = r.events.lock().unwrap();
    let starts: Vec<&String> = events.iter().filter(|e| e.starts_with("start")).collect();
    assert!(
        starts.iter().any(|e| e.contains("GitReceive")),
        "expected GitReceive in clone fixture: {:?}",
        starts
    );
}

#[test]
fn unmatched_lines_become_logs() {
    let r = RecordingReporter::default();
    let mut p = GitProgressParser::new(&r);
    feed(&mut p, "something weird happened\n");
    let events = r.events.lock().unwrap();
    assert!(events.iter().any(|e| e.starts_with("log ")));
}

#[test]
fn remote_prefix_is_handled() {
    let r = RecordingReporter::default();
    let mut p = GitProgressParser::new(&r);
    feed(
        &mut p,
        "remote: Counting objects:  50% (1/2)\rremote: Counting objects: 100% (2/2), done.\n",
    );
    let events = r.events.lock().unwrap();
    assert!(events.iter().any(|e| e.contains("GitCount")));
}

#[test]
fn percent_ticks_accumulate_deltas() {
    let r = RecordingReporter::default();
    let mut p = GitProgressParser::new(&r);
    feed(
        &mut p,
        "Writing objects:  10% (1/10)\rWriting objects:  50% (5/10)\rWriting objects: 100% (10/10), done.\n",
    );
    let events = r.events.lock().unwrap();
    // Expect tick deltas: +1, +4, +5 (total = 10)
    let tick_sum: u64 = events
        .iter()
        .filter_map(|e| {
            e.strip_prefix("tick items+")
                .and_then(|s| s.split_whitespace().next())
                .and_then(|s| s.parse::<u64>().ok())
        })
        .sum();
    assert_eq!(tick_sum, 10, "events: {:?}", events);
}

#[test]
fn writing_objects_captures_bytes() {
    let r = RecordingReporter::default();
    let mut p = GitProgressParser::new(&r);
    feed(
        &mut p,
        "Writing objects:  50% (5/10), 1.00 KiB\r\
         Writing objects: 100% (10/10), 5.24 KiB | 5.24 MiB/s, done.\n",
    );
    let events = r.events.lock().unwrap();
    assert!(
        events
            .iter()
            .any(|e| e.starts_with("start GitWrite")
                && (e.contains("bytes=") || e.contains("count="))),
        "events: {:?}",
        events
    );
    // Tick deltas in bytes should sum to a value > 0
    let byte_sum: u64 = events
        .iter()
        .filter_map(|e| {
            e.strip_prefix("tick items+")?;
            let parts: Vec<_> = e.split("bytes+").collect();
            parts.get(1)?.parse::<u64>().ok()
        })
        .sum();
    assert!(
        byte_sum > 0,
        "expected nonzero byte tick, events: {:?}",
        events
    );
}

#[test]
fn events_of_a_push_in_order() {
    let r = RecordingReporter::default();
    let mut p = GitProgressParser::new(&r);
    feed(
        &mut p,
        "Enumerating objects: 26, done.\n\
         Writing objects:  50% (13/26), 1.00 KiB\r\
         hello\r\
         Writing objects: 100% (26/26), 5.24 KiB | 5.24 MiB/s, done.\n",
    );
    let events = r.events.lock().unwrap();
    assert_eq!(
        *events,
        vec![
            "start GitEnumerate count=26",
            "tick items+26 bytes+0",
            "end GitEnumerate",
            "start GitWrite count=26",
            "tick items+13 bytes+1024",
            "log hello",
            "tick items+13 bytes+4341",
            "end GitWrite",
        ]
    );
}

#[test]
fn steps_of_the_parser() {
    let (st, events) = State::Idle.step("Counting objects:  50% (5/10)");
    assert_eq!(
        st,
        State::Active { phase: Phase::GitCount, last_cur: 5, last_bytes: 0 }
    );
    assert!(matches!(
        events[..],
        [
            ProgressEvent::Start { phase: Phase::GitCount, total: ItemTotal::Count(10) },
            ProgressEvent::Tick { items: 5, bytes: 0 },
        ]
    ));
    let (same, events) = st.step("hm");
    assert_eq!(same, st);
    assert!(matches!(&events[..], [ProgressEvent::Log { text }] if text == "hm"));
    let (st, events) = st.step("Resolving deltas: 3, done.");
    assert_eq!(
        st,
        State::Active { phase: Phase::GitResolve, last_cur: 3, last_bytes: 0 }
    );
    assert!(matches!(
        events[..],
        [
            ProgressEvent::End { phase: Phase::GitCount },
            ProgressEvent::Start { phase: Phase::GitResolve, total: ItemTotal::Count(3) },
            ProgressEvent::Tick { items: 3, bytes: 0 },
        ]
    ));
    assert!(st.switch_to(Phase::GitResolve, 9).1.is_empty());
    assert!(matches!(st.close()[..], [ProgressEvent::End { phase: Phase::GitResolve }]));
    assert!(State::Idle.close().is_empty());
}

#[test]
fn falling_counts_do_not_tick() {
    let r = RecordingReporter::default();
    let mut p = GitProgressParser::new(&r);
    feed(
        &mut p,
        "Counting objects:  50% (5/10)\rCounting objects:  30% (3/10)\rCounting objects:  60% (6/10)\n",
    );
    let events = r.events.lock().unwrap();
    assert_eq!(
        *events,
        vec![
            "start GitCount count=10",
            "tick items+5 bytes+0",
            "tick items+3 bytes+0",
            "end GitCount",
        ]
    );
}

#[test]
fn every_phase_started_is_ended_once() {
    for text in [PUSH, FETCH, CLONE] {
        let r = RecordingReporter::default();
        let mut p = GitProgressParser::new(&r);
        feed(&mut p, text);
        let mut open: Option<String> = None;
        for e in r.events.lock().unwrap().iter() {
            let words: Vec<&str> = e.split(' ').collect();
            match words[0] {
                "start" => {
                    assert!(open.is_none());
                    open = Some(words[1].to_string());
                }
                "end" => assert_eq!(open.take().as_deref(), Some(words[1])),
                "tick" => assert!(open.is_some()),
                _ => {}
            }
        }
        assert!(open.is_none());
    }
}

#[test]
fn names_of_phases() {
    assert_eq!(phase_for("Enumerating"), Phase::GitEnumerate);
    assert_eq!(phase_for("Counting"), Phase::GitCount);
    assert_eq!(phase_for("Compressing"), Phase::GitCompress);
    assert_eq!(phase_for("Writing"), Phase::GitWrite);
    assert_eq!(phase_for("Receiving"), Phase::GitReceive);
    assert_eq!(phase_for("Resolving"), Phase::GitResolve);
}

#[test]
fn amounts_of_data() {
    let bytes = |tail: &str| {
        read_line(&format!("Writing objects: 100% (1/1), {}", tail))
            .unwrap()
            .bytes
    };
    assert_eq!(bytes("5.24 KiB"), Some(5365));
    assert_eq!(bytes("1.00 MiB | 1 MiB/s"), Some(1048576));
    assert_eq!(bytes("1.5 GiB"), Some(1610612736));
    assert_eq!(bytes("3 KB"), Some(3000));
    assert_eq!(bytes("2MB"), Some(2000000));
    assert_eq!(bytes(".5KiB"), Some(512));
    assert_eq!(bytes("5.KiB"), Some(5120));
    assert_eq!(bytes("1.2.3 KiB"), Some(0));
    assert_eq!(bytes(". KiB"), Some(0));
    assert_eq!(bytes("0.999999999999999999999999999999 KiB"), Some(1023));
    assert_eq!(bytes("99999999999999999999 GiB"), Some(u64::MAX));
    assert_eq!(bytes("12 bytes"), None);
    assert_eq!(bytes("done."), None);
}

#[test]
fn lines_read_as_the_pattern_says() {
    let pattern = regex::Regex::new(
        r"^(?:remote:\s+)?(?P<phase>Enumerating|Counting|Compressing|Writing|Receiving|Resolving)\s+(?:objects|deltas):\s+(?:(?P<pct>\d+)%\s+\((?P<cur>\d+)/(?P<total>\d+)\)|(?P<count>\d+))(?:,\s*(?P<bytes>[\d.]+)\s*(?P<unit>[KMG]i?B))?",
    )
    .unwrap();
    let heads = ["", "remote: ", "remote:", "remote:\t\u{a0}", " ", "Remote: ", "remote: remote: "];
    let names = [
        "Enumerating",
        "Counting",
        "Compressing",
        "Writing",
        "Receiving",
        "Resolving",
        "writing",
        "Writings",
    ];
    let nouns = [" objects: ", "  deltas:\t", " objects:", "objects: ", " things: ", "\u{2003}objects:\u{3000}"];
    let amounts = [
        "26",
        "50% (13/26)",
        "50%  (13/26)",
        "50%(13/26)",
        "50% (13/26",
        "50% 13/26",
        "50% (/26)",
        "50% (13/)",
        "%",
        "",
        "\u{661}\u{662}",
        "18446744073709551616",
        "7% (18446744073709551615/99999999999999999999)",
    ];
    let tails = [
        "",
        ", done.",
        ", 5.24 KiB",
        ",5.24KiB | 3 MiB/s, done.",
        ", 12 B",
        ", 1.2.3 MB",
        ", . GiB",
        ",  7 KiX",
        ", 7 K",
        " , 7 KiB",
    ];
    let value = |s: &str| s.parse::<u64>().unwrap_or(0);
    let mut matched = 0;
    for h in heads {
        for n in names {
            for o in nouns {
                for a in amounts {
                    for t in tails {
                        let line = format!("{h}{n}{o}{a}{t}");
                        let got = read_line(&line);
                        match pattern.captures(&line) {
                            None => assert!(got.is_none(), "{line:?}"),
                            Some(c) => {
                                matched += 1;
                                let got = got.unwrap_or_else(|| panic!("{line:?}"));
                                assert_eq!(got.phase, phase_for(&c["phase"]), "{line:?}");
                                let amount = match c.name("count") {
                                    Some(n) => Amount::Count(value(n.as_str())),
                                    None => Amount::Share {
                                        cur: value(&c["cur"]),
                                        total: value(&c["total"]),
                                    },
                                };
                                assert_eq!(got.amount, amount, "{line:?}");
                                assert_eq!(got.bytes.is_some(), c.name("bytes").is_some(), "{line:?}");
                                if let Some(b) = c.name("bytes") {
                                    let step: f64 = if c["unit"].contains('i') { 1024.0 } else { 1000.0 };
                                    let unit = match &c["unit"][..1] {
                                        "K" => step,
                                        "M" => step * step,
                                        _ => step * step * step,
                                    };
                                    let want = b.as_str().parse::<f64>().map(|f| (f * unit) as u64);
                                    assert_eq!(got.bytes, Some(want.unwrap_or(0)), "{line:?}");
                                }
                            }
                        }
                    }
                }
            }
        }
    }
    assert!(matched > 1000);
}

#[test]
fn lines_as_git_writes_them_read_back() {
    for (name, phase) in [
        ("Enumerating", Phase::GitEnumerate),
        ("Counting", Phase::GitCount),
        ("Compressing", Phase::GitCompress),
        ("Writing", Phase::GitWrite),
        ("Receiving", Phase::GitReceive),
        ("Resolving", Phase::GitResolve),
    ] {
        for prefix in ["", "remote: "] {
            for noun in ["objects", "deltas"] {
                let line = format!("{prefix}{name} {noun}: 42% (7/{}), 1.50 MiB | 2 MiB/s", u64::MAX);
                assert_eq!(
                    read_line(&line),
                    Some(ProgressLine {
                        phase,
                        amount: Amount::Share { cur: 7, total: u64::MAX },
                        bytes: Some(1572864),
                    })
                );
                let line = format!("{prefix}{name} {noun}: 26, done.");
                assert_eq!(
                    read_line(&line),
                    Some(ProgressLine { phase, amount: Amount::Count(26), bytes: None })
                );
            }
        }
    }
}

#[test]
fn digits_of_other_scripts_count_as_digits_only() {
    let line = read_line("Counting objects: \u{661}\u{662}% (1/2)").unwrap();
    assert_eq!(
        line,
        ProgressLine {
            phase: Phase::GitCount,
            amount: Amount::Share { cur: 1, total: 2 },
            bytes: None,
        }
    );
    let digits = regex::Regex::new(r"^\d$").unwrap();
    for c in (0..=0x10ffffu32).filter_map(char::from_u32) {
        let mut text = String::new();
        text.push(c);
        assert_eq!(
            syncor::unicode::decimal_number(c),
            digits.is_match(&text),
            "{:x}",
            c as u32
        );
    }
}

fn stream(text: &[u8], chunk: usize) -> (String, Vec<String>) {
    let r = RecordingReporter::default();
    let mut reader = StderrReader::new(&r);
    for part in text.chunks(chunk) {
        reader.take(part);
    }
    let raw = reader.close();
    let events = r.events.lock().unwrap().clone();
    (raw, events)
}

#[test]
fn chunks_of_a_stream_do_not_matter() {
    for text in [PUSH, CLONE, "", "no terminator", "a\r\n\r\n  b  \rsch\u{f6}n\n"] {
        let whole = stream(text.as_bytes(), 4096);
        for n in 1..20 {
            assert_eq!(stream(text.as_bytes(), n), whole);
        }
    }
}

#[test]
fn a_stream_keeps_its_raw_text() {
    let (raw, events) = stream("a\r\n  b  \rlast".as_bytes(), 3);
    assert_eq!(raw, "a\n\n  b  \nlast");
    assert_eq!(events, vec!["log a", "log b", "log last"]);
}

#[test]
fn bytes_that_are_no_text_are_replaced() {
    let (raw, events) = stream(b"x\xffy\n\xc3", 1);
    assert_eq!(raw, "x\u{fffd}y\n\u{fffd}");
    assert_eq!(events, vec!["log x\u{fffd}y", "log \u{fffd}"]);
}

#[test]
fn blocks_of_one_stream_differ_and_streams_may_repeat() {
    let r = RecordingReporter::default();
    let mut p = GitProgressParser::new(&r);
    p.feed_line("Counting objects: 50% (1/2)");
    p.feed_line("Counting objects: 50% (1/2)");
    p.feed_line("a message");
    p.feed_line("Counting objects: 100% (2/2)");
    p.feed_line("Writing objects: 0% (0/2)");
    p.finish();
    p.finish();
    p.feed_line("Writing objects: 100% (2/2)");
    p.finish();
    assert_eq!(
        *r.events.lock().unwrap(),
        vec![
            "start GitCount count=2",
            "tick items+1 bytes+0",
            "log a message",
            "tick items+1 bytes+0",
            "end GitCount",
            "start GitWrite count=2",
            "end GitWrite",
            "start GitWrite count=2",
            "tick items+2 bytes+0",
            "end GitWrite",
        ]
    );
}

#[test]
fn rising_counts_add_up_to_the_last() {
    let r = RecordingReporter::default();
    let mut p = GitProgressParser::new(&r);
    p.feed_line("Enumerating objects: 3");
    let seen = r.events.lock().unwrap().len();
    let counts = [2u64, 2, 9, 40, 41];
    for c in counts {
        p.feed_line(&format!("remote: Counting objects: {}% ({}/50)", c * 2, c));
        p.feed_line("something else");
    }
    let events = r.events.lock().unwrap();
    let run = &events[seen..];
    assert_eq!(run[0], "end GitEnumerate");
    assert_eq!(run[1], "start GitCount count=50");
    let mut sum = 0;
    for e in &run[2..] {
        match e.strip_prefix("tick items+") {
            Some(rest) => sum += rest.strip_suffix(" bytes+0").unwrap().parse::<u64>().unwrap(),
            None => assert_eq!(e, "log something else"),
        }
    }
    assert_eq!(sum, 41);
    assert_eq!(run.iter().filter(|e| e.starts_with("log")).count(), counts.len());
}
