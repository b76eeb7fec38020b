use blackcap::cli::{ArgItem, Settings};
use blackcap::device::{pick_config, ConfigRange, PREFERRED_SAMPLE_RATE};
use blackcap::play::{
    fade_for, is_cartridge_file, is_new_drop, play_step, retire_after_ns, switch_verb, switched,
    PlayAction, PlayPlan, PlayState, SwitchTarget, RETIRE_MARGIN_MS,
};
use blackcap::fx::oversample_factor;
use blackcap::crossfade::Crossfade;
use blackcap::delay::DelayLine;
use blackcap::envelope::Stage;
use blackcap::noise::{white_bits, Noise, NoiseHat};
use blackcap::player::{check_render_len, check_sample_rate};
use blackcap::shared::{NowPlaying, Shared};

fn reference_xorshift(mut x: u64) -> u64 {
    if x == 0 {
        x = 0x9E37_79B9_7F4A_7C15;
    }
    x ^= x << 13;
    x ^= x >> 7;
    x ^= x << 17;
    x
}

#[test]
fn white_bits_steps_the_xorshift() {
    let mut state = 1u64;
    let bits = white_bits(&mut state);
    assert_eq!(state, reference_xorshift(1));
    assert_eq!(bits as u64, state >> 40);
    // A zero state is replaced before the step, so it never stays zero.
    let mut zero = 0u64;
    white_bits(&mut zero);
    assert_eq!(zero, reference_xorshift(0x9E37_79B9_7F4A_7C15));
    assert_ne!(zero, 0);
}

#[test]
fn noise_seeds_are_made_odd() {
    let mut a = Noise::new(4);
    let mut b = Noise::new(5);
    // 4 | 1 == 5: both generators run the same sequence.
    for _ in 0..16 {
        let x = a.next_bits();
        assert_eq!(x, b.next_bits());
        assert!(x < (1 << 24));
    }
    let mut hat = NoiseHat::new(4);
    hat.reset();
    let mut c = Noise::new(5);
    assert_eq!(hat.next_bits(), c.next_bits());
}

#[test]
fn shared_counts_frames_and_keeps_now_playing() {
    let shared = Shared::new();
    assert_eq!(shared.frames_played(), 0);
    shared.add_frames(1024);
    shared.add_frames(1024);
    assert_eq!(shared.frames_played(), 2048);
    shared.set_vu_bits(0.5f32.to_bits());
    assert_eq!(f32::from_bits(shared.vu_bits()), 0.5);
    assert_eq!(shared.now().title, "");
    shared.set_now(NowPlaying {
        title: "Eutectic Point".to_string(),
        artist: "blackcap".to_string(),
        sample_rate: 48_000,
        duration_frames: 48_000 * 70,
        origin_frame: 0,
        tags: vec!["synth-metal".to_string()],
    });
    let now = shared.now();
    assert_eq!(now.title, "Eutectic Point");
    assert_eq!(now.tags, vec!["synth-metal".to_string()]);
}

#[test]
fn first_switch_is_hard_then_crossfades_run_their_length() {
    let mut x: Crossfade<&str> = Crossfade::new();
    assert!(x.advance().is_none());
    // Nothing plays yet: even with a fade the first source comes in at once.
    x.switch("a", 3);
    assert_eq!(x.current, Some("a"));
    assert!(!x.is_fading());
    x.switch("b", 3);
    assert_eq!(x.current, Some("a"));
    assert_eq!(x.incoming, Some("b"));
    assert_eq!(x.advance(), Some((0, 3)));
    assert_eq!(x.advance(), Some((1, 3)));
    assert_eq!(x.current, Some("a"));
    assert_eq!(x.advance(), Some((2, 3)));
    assert_eq!(x.current, Some("b"));
    assert_eq!(x.incoming, None);
    assert!(x.advance().is_none());
    // A fade of zero frames is a hard switch.
    x.switch("c", 0);
    assert_eq!(x.current, Some("c"));
    assert!(!x.is_fading());
}

#[test]
fn delay_line_reads_back() {
    let mut d = DelayLine::new(4, 0i32);
    assert_eq!(d.capacity(), 4);
    // Half the capacity back by default.
    for v in 1..=4 {
        d.push(v);
    }
    assert_eq!(d.delayed(), 3);
    d.set_delay(1);
    assert_eq!(d.delayed(), 4);
    d.set_delay(100);
    assert_eq!(d.delayed(), 2);
    d.set_delay(0);
    assert_eq!(d.delayed(), 4);
    assert_eq!(d.back(0), 4);
    assert_eq!(d.back(3), 1);
    d.push(5);
    assert_eq!(d.back(3), 2);
    d.clear(0);
    assert_eq!(d.back(0), 0);
    // A line of one value reads what was written last.
    let mut one = DelayLine::new(1, 7u8);
    assert_eq!(one.delayed(), 7);
    one.push(9);
    assert_eq!(one.delayed(), 9);
}

#[test]
fn envelope_stages() {
    assert_eq!(Stage::Idle.trigger(), Stage::Attack);
    assert_eq!(Stage::Idle.release(), Stage::Idle);
    assert_eq!(Stage::Sustain.release(), Stage::Release);
    assert!(!Stage::Idle.active());
    assert!(Stage::Decay.active());
    assert_eq!(Stage::Attack.reached(false), Stage::Decay);
    assert_eq!(Stage::Decay.reached(false), Stage::Sustain);
    assert_eq!(Stage::Decay.reached(true), Stage::Idle);
    assert_eq!(Stage::Release.reached(false), Stage::Idle);
    assert_eq!(Stage::Sustain.reached(true), Stage::Sustain);
}

#[test]
fn cartridge_checks() {
    assert!(check_sample_rate(48_000, 48_000).is_ok());
    assert_eq!(
        check_sample_rate(44_100, 48_000).unwrap_err(),
        "sample-rate mismatch: cartridge authored at 44100 Hz, device at 48000 Hz (v1 host does no resampling)"
    );
    assert!(check_render_len(2048, 1024).is_ok());
    assert_eq!(
        check_render_len(1024, 1024).unwrap_err(),
        "cartridge returned 1024 samples for 1024 frames (expected 2048 interleaved L/R)"
    );
}

#[test]
fn interleave_alternates_channels() {
    let out = blackcap::fx::interleave(&[1, 2, 3], &[10, 20, 30]);
    assert_eq!(out, vec![1, 10, 2, 20, 3, 30]);
    let empty: Vec<u8> = blackcap::fx::interleave(&[], &[]);
    assert!(empty.is_empty());
}

#[test]
fn pick_config_prefers_f32_then_stereo_at_the_rate() {
    let r = |min_rate, max_rate, is_f32, channels| ConfigRange { min_rate, max_rate, is_f32, channels };
    let offered = [
        r(8_000, 44_100, true, 2),  // cannot run at 48 kHz
        r(8_000, 192_000, false, 2), // i16 stereo: score 1
        r(48_000, 48_000, true, 1),  // f32 mono: score 2
        r(8_000, 96_000, true, 2),   // f32 stereo: score 3
        r(8_000, 96_000, true, 2),   // as good, but later
    ];
    assert_eq!(pick_config(&offered, 48_000), Some(3));
    assert_eq!(pick_config(&offered[..3], 48_000), Some(2));
    assert_eq!(pick_config(&offered[..1], 48_000), None);
    assert_eq!(pick_config(&[], 48_000), None);
}

#[test]
fn oversampling_factors() {
    assert_eq!(oversample_factor(2), 2);
    assert_eq!(oversample_factor(4), 4);
    assert_eq!(oversample_factor(3), 1);
    assert_eq!(oversample_factor(0), 1);
}

#[test]
fn play_steps_schedule_the_run() {
    // The default 600 ms fade is torn down 900 ms after it began.
    assert_eq!(RETIRE_MARGIN_MS, 300);
    assert_eq!(retire_after_ns(600), 900_000_000);
    assert_eq!(retire_after_ns(0), 300_000_000);
    assert_eq!(retire_after_ns(u64::MAX), u64::MAX);
    let plan = PlayPlan {
        watch: false,
        n_cartridges: 2,
        stop_after_ns: Some(10_000),
        fade_after_ns: 4_000,
        retire_after_ns: 900,
    };
    let mut st = PlayState { demo_done: false, has_active: true, retire_at: Vec::new() };
    // Before the fade is due nothing happens.
    match play_step(&plan, &mut st, 3_999, true, false) {
        PlayAction::Step { retire, switch_to } => {
            assert!(retire.is_empty());
            assert_eq!(switch_to, None);
        }
        PlayAction::Stop => panic!("stopped early"),
    }
    // At 4 s the second cartridge comes in, once.
    match play_step(&plan, &mut st, 4_000, true, false) {
        PlayAction::Step { switch_to, .. } => assert_eq!(switch_to, Some(SwitchTarget::SecondCartridge)),
        PlayAction::Stop => panic!("stopped early"),
    }
    assert!(st.demo_done);
    switched(&plan, &mut st, 4_100, true);
    assert_eq!(st.retire_at, vec![5_000]);
    match play_step(&plan, &mut st, 4_999, true, true) {
        PlayAction::Step { retire, switch_to } => {
            assert!(retire.is_empty());
            // Not watching: drops do not count, and the demo is done.
            assert_eq!(switch_to, None);
        }
        PlayAction::Stop => panic!("stopped early"),
    }
    match play_step(&plan, &mut st, 5_000, true, false) {
        PlayAction::Step { retire, .. } => assert_eq!(retire, vec![0]),
        PlayAction::Stop => panic!("stopped early"),
    }
    assert!(st.retire_at.is_empty());
    assert!(matches!(play_step(&plan, &mut st, 10_000, true, false), PlayAction::Stop));
    assert!(matches!(play_step(&plan, &mut st, 6_000, false, false), PlayAction::Stop));

    let watch = PlayPlan { watch: true, n_cartridges: 3, stop_after_ns: None, fade_after_ns: 0, retire_after_ns: 5 };
    let mut ws = PlayState { demo_done: false, has_active: false, retire_at: Vec::new() };
    match play_step(&watch, &mut ws, 1, true, true) {
        PlayAction::Step { switch_to, .. } => assert_eq!(switch_to, Some(SwitchTarget::NewDrop)),
        PlayAction::Stop => panic!("stopped early"),
    }
    // The first source replaces nothing.
    switched(&watch, &mut ws, 2, true);
    assert!(ws.has_active && ws.retire_at.is_empty());
    switched(&watch, &mut ws, u64::MAX - 1, true);
    assert_eq!(ws.retire_at, vec![u64::MAX]);
    let before = ws.retire_at.clone();
    switched(&watch, &mut ws, 3, false);
    assert_eq!(ws.retire_at, before);

    assert_eq!(fade_for(false, 28_800), 0);
    assert_eq!(fade_for(true, 28_800), 28_800);
    assert_eq!(switch_verb(false), "now playing");
    assert_eq!(switch_verb(true), "crossfading");
    assert!(is_new_drop(None, -5));
    assert!(is_new_drop(Some(1), 2));
    assert!(!is_new_drop(Some(2), 2));
    assert!(is_cartridge_file(Some("wasm")));
    assert!(!is_cartridge_file(Some("WASM")));
    assert!(!is_cartridge_file(None));
}

#[test]
fn settings_take_items_in_order() {
    let mut s = Settings::new();
    assert_eq!((s.fade_ms, s.blocks, s.block_frames, s.sample_rate), (600, 4, 1024, PREFERRED_SAMPLE_RATE));
    assert!(s.use_sine());
    s.apply(ArgItem::Watch);
    assert!(!s.use_sine());
    s.apply(ArgItem::FadeMs(10));
    s.apply(ArgItem::FadeMs(20));
    s.apply(ArgItem::Cartridge { arg: 3 });
    s.apply(ArgItem::Freq { arg: 4 });
    assert_eq!(s.fade_ms, 20);
    assert_eq!(s.cartridges, vec![3]);
    s.apply(ArgItem::Sine);
    assert!(s.use_sine());
}
