use blackcap::cli::{scan_args, ArgItem, ArgStop};
use blackcap::front::{
    artist_text, crossfade_status, file_label, help_text, keep_selection, mmss, move_selection,
    on_key, rate_text, rescan_due, rescan_status, tags_text, timeline, title_text, underrun_text,
    watch_status, FrontAction, Key,
};
use blackcap::shared::NowPlaying;
use blackcap::text::{decimal_string, parse_i32, parse_unsigned, IntError};

fn args(v: &[&str]) -> Vec<String> {
    v.iter().map(|s| s.to_string()).collect()
}

#[test]
fn scan_reads_flags_values_and_cartridges() {
    let a = args(&["a.wasm", "--sine", "--fade-ms", "250", "--freq", "110.5", "--blocks", "+8", "-x"]);
    let r = scan_args(&a);
    assert!(matches!(r.stop, ArgStop::End));
    assert_eq!(
        r.items,
        vec![
            ArgItem::Cartridge { arg: 0 },
            ArgItem::Sine,
            ArgItem::FadeMs(250),
            ArgItem::Freq { arg: 5 },
            ArgItem::Blocks(8),
            ArgItem::Cartridge { arg: 8 },
        ]
    );
}

#[test]
fn scan_stops_at_help_and_errors() {
    let r = scan_args(&args(&["--watch", "-h", "--bogus"]));
    assert_eq!(r.items, vec![ArgItem::Watch]);
    assert!(matches!(r.stop, ArgStop::Help));

    let r = scan_args(&args(&["--dry-run", "--bogus"]));
    assert_eq!(r.items, vec![ArgItem::DryRun]);
    assert!(matches!(r.stop, ArgStop::Failed(ref m) if m == "unknown option: --bogus"));

    let r = scan_args(&args(&["--seconds"]));
    assert!(matches!(r.stop, ArgStop::Failed(ref m) if m == "--seconds requires a value"));

    let r = scan_args(&args(&["--sample-rate", "4294967296"]));
    assert!(matches!(r.stop, ArgStop::Failed(ref m) if m == "number too large to fit in target type"));

    let r = scan_args(&args(&["--block-frames", "-1"]));
    assert!(matches!(r.stop, ArgStop::Failed(ref m) if m == "invalid digit found in string"));

    let r = scan_args(&args(&["--fade-ms", ""]));
    assert!(matches!(r.stop, ArgStop::Failed(ref m) if m == "cannot parse integer from empty string"));
}

#[test]
fn integers_read_like_from_str() {
    let c: Vec<char> = "-2147483648".chars().collect();
    assert_eq!(parse_i32(&c, 0), Ok(i32::MIN));
    let c: Vec<char> = "2147483648".chars().collect();
    assert_eq!(parse_i32(&c, 0), Err(IntError::PosOverflow));
    let c: Vec<char> = "-2147483649".chars().collect();
    assert_eq!(parse_i32(&c, 0), Err(IntError::NegOverflow));
    let c: Vec<char> = "+".chars().collect();
    assert_eq!(parse_i32(&c, 0), Err(IntError::InvalidDigit));
    let c: Vec<char> = "x18446744073709551615".chars().collect();
    assert_eq!(parse_unsigned(&c, 1, u64::MAX), Ok(u64::MAX));
    let c: Vec<char> = "99999999999999999999x".chars().collect();
    assert_eq!(parse_unsigned(&c, 0, u64::MAX), Err(IntError::PosOverflow));
    assert_eq!(decimal_string(0), "0");
    assert_eq!(decimal_string(u64::MAX), u64::MAX.to_string());
}

#[test]
fn labels_and_selection() {
    assert_eq!(file_label(Some("foo.wasm")), "foo");
    assert_eq!(file_label(Some("foo.wasm.wasm")), "foo");
    assert_eq!(file_label(Some("bar")), "bar");
    assert_eq!(file_label(Some(".wasm")), "");
    assert_eq!(file_label(None), "?");
    assert_eq!(move_selection(Some(0), 3, -1), Some(2));
    assert_eq!(move_selection(Some(2), 3, 1), Some(0));
    assert_eq!(move_selection(None, 3, 1), Some(1));
    assert_eq!(move_selection(Some(5), 0, 1), Some(5));
    assert_eq!(keep_selection(Some(5), 3), Some(2));
    assert_eq!(keep_selection(Some(1), 3), Some(1));
    assert_eq!(keep_selection(Some(0), 0), None);
    assert_eq!(keep_selection(None, 2), Some(0));
    assert_eq!(keep_selection(None, 0), None);
}

#[test]
fn timeline_labels() {
    assert_eq!(mmss(0), "0:00");
    assert_eq!(mmss(70), "1:10");
    assert_eq!(mmss(3599), "59:59");
    let now = NowPlaying {
        title: "Eutectic Point".to_string(),
        artist: "blackcap".to_string(),
        sample_rate: 48_000,
        duration_frames: 48_000 * 70,
        origin_frame: 0,
        tags: vec![],
    };
    assert_eq!(timeline(48_000 * 10, &now), (48_000 * 10, "0:10 / 1:10".to_string()));
    assert_eq!(timeline(48_000 * 75, &now), (48_000 * 5, "0:05 / 1:10".to_string()));
    let generative = NowPlaying { duration_frames: 0, origin_frame: 48_000, ..now.clone() };
    assert_eq!(timeline(48_000 * 3, &generative), (0, "0:02 (generative)".to_string()));
    let idle = NowPlaying::default();
    assert_eq!(timeline(10, &idle), (0, "\u{2014}".to_string()));
}

#[test]
fn moving_there_and_back_returns() {
    for len in 1..6usize {
        for s in 0..len {
            for delta in [-7isize, -1, 0, 1, 2, 9] {
                let there = move_selection(Some(s), len, delta);
                assert_eq!(move_selection(there, len, -delta), Some(s));
            }
        }
    }
}

#[test]
fn front_keys_and_texts() {
    assert_eq!(on_key(Key::Quit, Some(1), 3), (Some(1), FrontAction::Stop));
    assert_eq!(on_key(Key::Up, Some(0), 3), (Some(2), FrontAction::Nothing));
    assert_eq!(on_key(Key::Down, Some(2), 3), (Some(0), FrontAction::Nothing));
    assert_eq!(on_key(Key::Down, None, 0), (None, FrontAction::Nothing));
    assert_eq!(on_key(Key::Rescan, None, 2), (None, FrontAction::Rescan));
    assert_eq!(on_key(Key::Enter, Some(1), 3), (Some(1), FrontAction::CrossfadeTo(1)));
    assert_eq!(on_key(Key::Enter, Some(3), 3), (Some(3), FrontAction::Nothing));
    assert_eq!(on_key(Key::Enter, None, 3), (None, FrontAction::Nothing));
    assert_eq!(on_key(Key::Other, Some(1), 3), (Some(1), FrontAction::Nothing));
    assert!(!rescan_due(0, 1_000_000_000));
    assert!(rescan_due(0, 1_000_000_001));
    assert!(!rescan_due(5, 1));
    assert_eq!(crossfade_status("foo", None), "\u{25b6} foo");
    assert_eq!(crossfade_status("foo", Some("bad")), "! bad");
    assert_eq!(rescan_status(2), "rescanned \u{2014} 2 cartridge(s)");
    assert_eq!(watch_status("/x"), "watching /x");
    assert_eq!(help_text("ok"), " \u{2191}/\u{2193} select   \u{23ce} play/crossfade   r rescan   q quit    ok");
    let now = NowPlaying {
        title: String::new(),
        artist: "blackcap".to_string(),
        sample_rate: 48_000,
        duration_frames: 0,
        origin_frame: 0,
        tags: vec!["synth-metal".to_string(), "live".to_string()],
    };
    assert_eq!(title_text(&now), "\u{2014}");
    assert_eq!(artist_text(&now), "by blackcap");
    assert_eq!(rate_text(&now), "48000 Hz");
    assert_eq!(tags_text(&now.tags), "synth-metal  \u{b7}  live");
    assert_eq!(tags_text(&[]), "");
    assert_eq!(underrun_text(0), None);
    assert_eq!(underrun_text(3), Some("\u{26a0} 3 underrun sample(s)".to_string()));
    let idle = NowPlaying::default();
    assert_eq!(artist_text(&idle), "");
    assert_eq!(rate_text(&idle), "");
}
