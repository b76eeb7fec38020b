use blackcap::song::{arrange, parse_lane, Cell, CompiledSong, Event, Note, PatternDef};

#[test]
fn note_parsing() {
    assert_eq!(Note::parse("a4").unwrap().midi, 69);
    assert_eq!(Note::parse("c4").unwrap().midi, 60);
    assert_eq!(Note::parse("c5").unwrap().midi, 72);
    assert_eq!(Note::parse("eb5").unwrap().midi, 75);
    assert_eq!(Note::parse("f#3").unwrap().midi, 54);
    assert_eq!(Note::parse("fs3").unwrap().midi, 54);
    assert_eq!(Note::parse("bb2").unwrap().midi, 46); // B flat, not B-then-flat-letter
    assert_eq!(Note::parse("a1").unwrap().midi, 33); // drop-A, 55 Hz
    assert!(Note::parse("h5").is_err());
    assert!(Note::parse("c").is_err());
}

#[test]
fn lane_tokeniser_splits_notes_and_symbols() {
    // Notes are whole tokens; symbol runs are per-char.
    let cells = parse_lane("a1 . . -  X-x-").unwrap();
    assert_eq!(cells.len(), 8);
    assert!(matches!(cells[0], Cell::Note(_)));
    assert!(matches!(cells[1], Cell::GhostNote));
    assert!(matches!(cells[3], Cell::Off));
    assert!(matches!(cells[4], Cell::Hit { accent: true }));
    assert!(matches!(cells[5], Cell::Off));
    assert!(matches!(cells[6], Cell::Hit { accent: false }));
}

#[test]
fn note_parsing_edges() {
    assert_eq!(Note::parse("  C4 ").unwrap().midi, 60);
    assert_eq!(Note::parse("c-1").unwrap().midi, 0);
    assert_eq!(Note::parse("cb0").unwrap().midi, 11);
    assert_eq!(Note::parse("b+3").unwrap().midi, 59);
    assert_eq!(Note::from_midi(42).midi, 42);
    assert_eq!(Note::parse("").unwrap_err(), "empty note");
    assert_eq!(Note::parse(" \t ").unwrap_err(), "empty note");
    assert_eq!(Note::parse("h5").unwrap_err(), "bad note letter 'h' in \"h5\"");
    assert_eq!(Note::parse(" c ").unwrap_err(), "bad octave in note \"c\"");
    assert_eq!(Note::parse("c#").unwrap_err(), "bad octave in note \"c#\"");
    assert_eq!(Note::parse("c4x").unwrap_err(), "bad octave in note \"c4x\"");
    assert_eq!(Note::parse("c99999999999").unwrap_err(), "bad octave in note \"c99999999999\"");
    // The octave fits an i32 but the note number does not.
    assert_eq!(Note::parse("c2147483647").unwrap_err(), "bad octave in note \"c2147483647\"");
}

#[test]
fn lane_errors_and_notes() {
    assert_eq!(parse_lane("x ? x").unwrap_err(), "unexpected symbol '?'");
    assert_eq!(parse_lane("xx-y").unwrap_err(), "unexpected symbol 'y'");
    assert_eq!(parse_lane("c4 h4").unwrap_err(), "bad note letter 'h' in \"h4\"");
    assert_eq!(parse_lane("   ").unwrap().len(), 0);
    let cells = parse_lane("eb5\u{a0}g5").unwrap();
    assert_eq!(cells, vec![Cell::Note(Note { midi: 75 }), Cell::Note(Note { midi: 79 })]);
}

const PATTERNS: &[PatternDef] = &[
    ("p", 0, &[("lead", "c4 - - -"), ("hat", "x x x x x")]),
    ("slow", 60, &[("c", "x x")]),
    ("bad", 0, &[("ok", "x"), ("broken", "x q")]),
];

#[test]
fn arrange_resolves_the_play_order() {
    let secs = arrange(PATTERNS, &["p", "slow", "p"]).unwrap();
    assert_eq!(secs.len(), 3);
    assert_eq!(secs[0].tempo, 0);
    assert_eq!(secs[0].rows, 5);
    assert_eq!(secs[0].lanes.len(), 2);
    assert_eq!(secs[0].lanes[0].name, "lead");
    assert_eq!(secs[0].lanes[0].cells[0], Cell::Note(Note { midi: 60 }));
    assert_eq!(secs[0].lanes[1].cells.len(), 5);
    assert_eq!(secs[1].tempo, 60);
    assert_eq!(secs[1].rows, 2);
    assert_eq!(secs[2].rows, 5);
}

#[test]
fn arrange_rejects_unknown_pattern() {
    let err = arrange(PATTERNS, &["p", "missing", "bad"]).err().unwrap();
    assert_eq!(err, "sequence references unknown pattern \"missing\"");
}

#[test]
fn arrange_names_the_broken_lane() {
    let err = arrange(PATTERNS, &["p", "bad"]).err().unwrap();
    assert_eq!(err, "pattern \"bad\" lane \"broken\": unexpected symbol 'q'");
}

fn ev(frame: u64, lane: &'static str) -> Event {
    Event { frame, lane, cell: Cell::Off }
}

#[test]
fn compiled_song_sorts_stably() {
    let song = CompiledSong::new(
        vec![ev(6000, "a"), ev(0, "a"), ev(6000, "b"), ev(0, "b"), ev(3000, "c")],
        48_000,
    );
    assert_eq!(song.duration_frames(), 48_000);
    let order: Vec<(u64, &str)> = song.events().iter().map(|e| (e.frame, e.lane)).collect();
    assert_eq!(order, vec![(0, "a"), (0, "b"), (3000, "c"), (6000, "a"), (6000, "b")]);
}

#[test]
fn events_in_range_takes_one_block() {
    let song = CompiledSong::new(
        vec![ev(0, "lead"), ev(0, "hat"), ev(1023, "x"), ev(1024, "y"), ev(6000, "z")],
        12_000,
    );
    let first: Vec<&str> = song.events_in_range(0, 1024).iter().map(|e| e.lane).collect();
    assert_eq!(first, vec!["lead", "hat", "x"]);
    let second: Vec<&str> = song.events_in_range(1024, 1024).iter().map(|e| e.lane).collect();
    assert_eq!(second, vec!["y"]);
    assert!(song.events_in_range(2048, 1024).is_empty());
    // The end `start + num` may lie past `u64::MAX`; nothing wraps.
    let tail: Vec<&str> = song.events_in_range(6000, u64::MAX).iter().map(|e| e.lane).collect();
    assert_eq!(tail, vec!["z"]);
    let last = CompiledSong::new(vec![ev(u64::MAX - 1, "a"), ev(u64::MAX, "b")], 0);
    let both: Vec<&str> = last.events_in_range(u64::MAX - 1, 2).iter().map(|e| e.lane).collect();
    assert_eq!(both, vec!["a", "b"]);
    let top: Vec<&str> = last.events_in_range(u64::MAX, 1).iter().map(|e| e.lane).collect();
    assert_eq!(top, vec!["b"]);
    assert!(last.events_in_range(u64::MAX, 0).is_empty());
}

#[test]
fn consecutive_blocks_cover_every_event_once() {
    let song = CompiledSong::new(
        vec![ev(5, "a"), ev(10, "b"), ev(10, "c"), ev(15, "d"), ev(20, "e")],
        30,
    );
    let mut joined: Vec<&str> = song.events_in_range(5, 5).iter().map(|e| e.lane).collect();
    joined.extend(song.events_in_range(10, 7).iter().map(|e| e.lane));
    let whole: Vec<&str> = song.events_in_range(5, 12).iter().map(|e| e.lane).collect();
    assert_eq!(joined, whole);
    assert_eq!(whole, vec!["a", "b", "c", "d"]);
}
