//! The command line of the jukebox host: which arguments are flags, which take
//! a value, which name cartridges. Integer values are read here; the values of
//! the options that take a number of seconds or a frequency are left where they
//! stand, for the caller to read as floating-point numbers, in order.
use vstd::prelude::*;

use crate::device::PREFERRED_SAMPLE_RATE;
use crate::text::{chars_eq, chars_of, parse_int_spec, parse_unsigned, IntError};

verus! {

/// One recognised argument (or option with its value).
#[derive(Clone, Copy, Debug, PartialEq, Eq, Structural)]
pub enum ArgItem {
    /// `--sine`
    Sine,
    /// `--watch`
    Watch,
    /// `--no-master`
    NoMaster,
    /// `--dry-run`
    DryRun,
    /// `--fade-ms <N>`
    FadeMs(u64),
    /// `--fade-after <S>`: the argument at index `arg` holds the seconds.
    FadeAfter { arg: usize },
    /// `--seconds <N>`: the argument at index `arg` holds the seconds.
    Seconds { arg: usize },
    /// `--blocks <N>`
    Blocks(usize),
    /// `--block-frames <N>`
    BlockFrames(u32),
    /// `--sample-rate <N>`
    SampleRate(u32),
    /// `--freq <HZ>`: the argument at index `arg` holds the frequency.
    Freq { arg: usize },
    /// Any other argument not starting with `--`: the argument at index `arg`
    /// is a cartridge path.
    Cartridge { arg: usize },
}

/// Why the scan of the arguments stopped.
#[derive(Clone, Debug)]
pub enum ArgStop {
    /// All arguments were read.
    End,
    /// `-h` or `--help`: print the help and do nothing else.
    Help,
    /// The message of the first argument that could not be read.
    Failed(String),
}

/// The arguments read, in order, up to where the scan stopped.
pub struct ArgScan {
    pub items: Vec<ArgItem>,
    pub stop: ArgStop,
}

/// Why the scan stopped, in terms of texts.
pub enum StopSpec {
    End,
    Help,
    Failed(Seq<char>),
}

/// The texts of the arguments.
pub open spec fn arg_texts(args: Seq<String>) -> Seq<Seq<char>> {
    args.map_values(|s: String| s@)
}

pub open spec fn is_value_option(a: Seq<char>) -> bool {
    ||| a == "--fade-ms"@
    ||| a == "--fade-after"@
    ||| a == "--seconds"@
    ||| a == "--blocks"@
    ||| a == "--block-frames"@
    ||| a == "--sample-rate"@
    ||| a == "--freq"@
}

/// The item of the value option `a`, whose value `v` is the argument at `at`.
pub open spec fn value_item(a: Seq<char>, v: Seq<char>, at: int) -> Result<ArgItem, IntError> {
    if a == "--fade-ms"@ {
        match parse_int_spec(v, 0, u64::MAX as int) {
            Ok(n) => Ok(ArgItem::FadeMs(n as u64)),
            Err(e) => Err(e),
        }
    } else if a == "--fade-after"@ {
        Ok(ArgItem::FadeAfter { arg: at as usize })
    } else if a == "--seconds"@ {
        Ok(ArgItem::Seconds { arg: at as usize })
    } else if a == "--blocks"@ {
        match parse_int_spec(v, 0, usize::MAX as int) {
            Ok(n) => Ok(ArgItem::Blocks(n as usize)),
            Err(e) => Err(e),
        }
    } else if a == "--block-frames"@ {
        match parse_int_spec(v, 0, u32::MAX as int) {
            Ok(n) => Ok(ArgItem::BlockFrames(n as u32)),
            Err(e) => Err(e),
        }
    } else if a == "--sample-rate"@ {
        match parse_int_spec(v, 0, u32::MAX as int) {
            Ok(n) => Ok(ArgItem::SampleRate(n as u32)),
            Err(e) => Err(e),
        }
    } else {
        Ok(ArgItem::Freq { arg: at as usize })
    }
}

pub open spec fn cons_item(item: ArgItem, rest: (Seq<ArgItem>, StopSpec)) -> (Seq<ArgItem>, StopSpec) {
    (seq![item] + rest.0, rest.1)
}

/// The arguments from index `i` on, read in order: the items up to where the
/// scan stops, and why it stops.
pub open spec fn scan_spec(args: Seq<Seq<char>>, i: int) -> (Seq<ArgItem>, StopSpec)
    decreases args.len() - i,
{
    if i < 0 || i >= args.len() {
        (Seq::empty(), StopSpec::End)
    } else {
        let a = args[i];
        if a == "-h"@ || a == "--help"@ {
            (Seq::empty(), StopSpec::Help)
        } else if a == "--sine"@ {
            cons_item(ArgItem::Sine, scan_spec(args, i + 1))
        } else if a == "--watch"@ {
            cons_item(ArgItem::Watch, scan_spec(args, i + 1))
        } else if a == "--no-master"@ {
            cons_item(ArgItem::NoMaster, scan_spec(args, i + 1))
        } else if a == "--dry-run"@ {
            cons_item(ArgItem::DryRun, scan_spec(args, i + 1))
        } else if is_value_option(a) {
            if i + 1 >= args.len() {
                (Seq::empty(), StopSpec::Failed(a + " requires a value"@))
            } else {
                match value_item(a, args[i + 1], i + 1) {
                    Ok(item) => cons_item(item, scan_spec(args, i + 2)),
                    Err(e) => (Seq::empty(), StopSpec::Failed(e.message_spec())),
                }
            }
        } else if a.len() >= 2 && a[0] == '-' && a[1] == '-' {
            (Seq::empty(), StopSpec::Failed("unknown option: "@ + a))
        } else {
            cons_item(ArgItem::Cartridge { arg: i as usize }, scan_spec(args, i + 1))
        }
    }
}

/// Whether a scan result matches its description.
pub open spec fn scan_matches(r: &ArgScan, s: (Seq<ArgItem>, StopSpec)) -> bool {
    &&& r.items@ == s.0
    &&& match (r.stop, s.1) {
        (ArgStop::End, StopSpec::End) => true,
        (ArgStop::Help, StopSpec::Help) => true,
        (ArgStop::Failed(m), StopSpec::Failed(t)) => m@ == t,
        _ => false,
    }
}

/// Where an item that names an argument points: the value of `--fade-after`,
/// `--seconds` or `--freq` is the argument right after that very option, and a
/// cartridge is an argument that is neither `-h` nor an option (`--...`).
pub open spec fn points_at_its_argument(args: Seq<Seq<char>>, item: ArgItem) -> bool {
    match item {
        ArgItem::FadeAfter { arg } => 1 <= arg < args.len() && args[arg - 1] == "--fade-after"@,
        ArgItem::Seconds { arg } => 1 <= arg < args.len() && args[arg - 1] == "--seconds"@,
        ArgItem::Freq { arg } => 1 <= arg < args.len() && args[arg - 1] == "--freq"@,
        ArgItem::Cartridge { arg } => {
            &&& arg < args.len()
            &&& args[arg as int] != "-h"@
            &&& !(args[arg as int].len() >= 2 && args[arg as int][0] == '-' && args[arg as int][1]
                == '-')
        },
        _ => true,
    }
}

/// Each item of the scan that names an argument names the right one: the
/// seconds of `--seconds` are read from the argument after `--seconds`, those
/// of `--fade-after` from the one after `--fade-after`, the frequency from the
/// one after `--freq`, and cartridges are the arguments that are no option.
pub proof fn lemma_items_point_at_their_arguments(args: Seq<Seq<char>>, i: int)
    requires
        args.len() <= usize::MAX,
        0 <= i,
    ensures
        forall|k: int|
            0 <= k < scan_spec(args, i).0.len() ==> points_at_its_argument(
                args,
                #[trigger] scan_spec(args, i).0[k],
            ),
    decreases args.len() - i,
{
    if i < args.len() {
        let a = args[i];
        let r = scan_spec(args, i).0;
        if a == "-h"@ || a == "--help"@ {
        } else if a == "--sine"@ || a == "--watch"@ || a == "--no-master"@ || a == "--dry-run"@ {
            lemma_items_point_at_their_arguments(args, i + 1);
            let t = scan_spec(args, i + 1).0;
            assert forall|k: int| 0 <= k < r.len() implies points_at_its_argument(
                args,
                #[trigger] r[k],
            ) by {
                if k > 0 {
                    assert(r[k] == t[k - 1]);
                }
            }
        } else if is_value_option(a) {
            if i + 1 < args.len() {
                match value_item(a, args[i + 1], i + 1) {
                    Ok(item) => {
                        lemma_items_point_at_their_arguments(args, i + 2);
                        let t = scan_spec(args, i + 2).0;
                        assert(points_at_its_argument(args, item));
                        assert forall|k: int| 0 <= k < r.len() implies points_at_its_argument(
                            args,
                            #[trigger] r[k],
                        ) by {
                            if k > 0 {
                                assert(r[k] == t[k - 1]);
                            }
                        }
                    },
                    Err(_) => {},
                }
            }
        } else if a.len() >= 2 && a[0] == '-' && a[1] == '-' {
        } else {
            lemma_items_point_at_their_arguments(args, i + 1);
            let t = scan_spec(args, i + 1).0;
            assert forall|k: int| 0 <= k < r.len() implies points_at_its_argument(
                args,
                #[trigger] r[k],
            ) by {
                if k > 0 {
                    assert(r[k] == t[k - 1]);
                }
            }
        }
    }
}

/// The names of the options are distinct texts.
proof fn lemma_option_names()
    ensures
        "-h"@.len() == 2,
        "--help"@.len() == 6 && "--help"@[2] == 'h',
        "--sine"@.len() == 6 && "--sine"@[2] == 's',
        "--freq"@.len() == 6 && "--freq"@[2] == 'f',
        "--watch"@.len() == 7,
        "--blocks"@.len() == 8,
        "--dry-run"@.len() == 9 && "--dry-run"@[2] == 'd',
        "--fade-ms"@.len() == 9 && "--fade-ms"@[2] == 'f',
        "--seconds"@.len() == 9 && "--seconds"@[2] == 's',
        "--no-master"@.len() == 11,
        "--fade-after"@.len() == 12,
        "--sample-rate"@.len() == 13,
        "--block-frames"@.len() == 14,
{
    reveal_strlit("-h");
    reveal_strlit("--help");
    reveal_strlit("--sine");
    reveal_strlit("--freq");
    reveal_strlit("--watch");
    reveal_strlit("--blocks");
    reveal_strlit("--dry-run");
    reveal_strlit("--fade-ms");
    reveal_strlit("--seconds");
    reveal_strlit("--no-master");
    reveal_strlit("--fade-after");
    reveal_strlit("--sample-rate");
    reveal_strlit("--block-frames");
}

/// Each option gives its own item: `-h` and `--help` stop the scan for the
/// help, each flag gives its flag, an option that needs a value and comes last
/// stops the scan with "requires a value", and an option followed by a value
/// gives its own item: the integer read from that value, or the position of
/// that value for the seconds of `--seconds` and `--fade-after` and the
/// frequency of `--freq`.
pub proof fn lemma_each_option_its_item(args: Seq<Seq<char>>, i: int)
    requires
        0 <= i < args.len(),
        args.len() <= usize::MAX,
    ensures
        ({
            let r = scan_spec(args, i);
            let a = args[i];
            let at = (i + 1) as usize;
            &&& a == "-h"@ || a == "--help"@ ==> r.0.len() == 0 && r.1 is Help
            &&& a == "--sine"@ ==> r.0.len() > 0 && r.0[0] == ArgItem::Sine
            &&& a == "--watch"@ ==> r.0.len() > 0 && r.0[0] == ArgItem::Watch
            &&& a == "--no-master"@ ==> r.0.len() > 0 && r.0[0] == ArgItem::NoMaster
            &&& a == "--dry-run"@ ==> r.0.len() > 0 && r.0[0] == ArgItem::DryRun
            &&& is_value_option(a) && i + 1 == args.len() ==> r.0.len() == 0 && r.1
                == StopSpec::Failed(a + " requires a value"@)
            &&& a == "--fade-after"@ && i + 1 < args.len() ==> r.0.len() > 0 && r.0[0]
                == ArgItem::FadeAfter { arg: at }
            &&& a == "--seconds"@ && i + 1 < args.len() ==> r.0.len() > 0 && r.0[0]
                == ArgItem::Seconds { arg: at }
            &&& a == "--freq"@ && i + 1 < args.len() ==> r.0.len() > 0 && r.0[0]
                == ArgItem::Freq { arg: at }
            &&& a == "--fade-ms"@ && i + 1 < args.len() ==> match parse_int_spec(
                args[i + 1],
                0,
                u64::MAX as int,
            ) {
                Ok(n) => r.0.len() > 0 && r.0[0] == ArgItem::FadeMs(n as u64),
                Err(e) => r.0.len() == 0 && r.1 == StopSpec::Failed(e.message_spec()),
            }
            &&& a == "--blocks"@ && i + 1 < args.len() ==> match parse_int_spec(
                args[i + 1],
                0,
                usize::MAX as int,
            ) {
                Ok(n) => r.0.len() > 0 && r.0[0] == ArgItem::Blocks(n as usize),
                Err(e) => r.0.len() == 0 && r.1 == StopSpec::Failed(e.message_spec()),
            }
            &&& a == "--block-frames"@ && i + 1 < args.len() ==> match parse_int_spec(
                args[i + 1],
                0,
                u32::MAX as int,
            ) {
                Ok(n) => r.0.len() > 0 && r.0[0] == ArgItem::BlockFrames(n as u32),
                Err(e) => r.0.len() == 0 && r.1 == StopSpec::Failed(e.message_spec()),
            }
            &&& a == "--sample-rate"@ && i + 1 < args.len() ==> match parse_int_spec(
                args[i + 1],
                0,
                u32::MAX as int,
            ) {
                Ok(n) => r.0.len() > 0 && r.0[0] == ArgItem::SampleRate(n as u32),
                Err(e) => r.0.len() == 0 && r.1 == StopSpec::Failed(e.message_spec()),
            }
        }),
{
    lemma_option_names();
}

/// Whether `a` is the text `lit`.
fn is_text(a: &[char], lit: &str) -> (r: bool)
    ensures
        r == (a@ == lit@),
{
    let l = chars_of(lit);
    chars_eq(a, l.as_slice())
}

/// Reads the arguments (without the program name) in order, stopping at
/// `-h`/`--help`, at an option that lacks its value, at an integer value that
/// does not read, or at an unknown `--` option.
#[verifier::loop_isolation(false)]
pub fn scan_args(args: &[String]) -> (r: ArgScan)
    ensures
        scan_matches(&r, scan_spec(arg_texts(args@), 0)),
        forall|k: int|
            0 <= k < r.items@.len() ==> points_at_its_argument(arg_texts(args@), #[trigger] r.items@[k]),
{
    let ghost texts = arg_texts(args@);
    let n: usize = args.len();
    proof {
        assert(texts.len() == n);
        lemma_items_point_at_their_arguments(texts, 0);
    }
    let mut items: Vec<ArgItem> = Vec::new();
    let mut i: usize = 0;
    assert(Seq::<ArgItem>::empty() + scan_spec(texts, 0).0 == scan_spec(texts, 0).0);
    while i < args.len()
        invariant
            i <= args.len(),
            texts == arg_texts(args@),
            texts.len() == args.len(),
            scan_spec(texts, 0).0 == items@ + scan_spec(texts, i as int).0,
            scan_spec(texts, 0).1 == scan_spec(texts, i as int).1,
        decreases args.len() - i,
    {
        let a = chars_of(args[i].as_str());
        assert(a@ == texts[i as int]);
        let a = a.as_slice();
        let ghost rest = scan_spec(texts, i as int);
        if is_text(a, "-h") || is_text(a, "--help") {
            return ArgScan { items, stop: ArgStop::Help };
        }
        let flag = if is_text(a, "--sine") {
            Some(ArgItem::Sine)
        } else if is_text(a, "--watch") {
            Some(ArgItem::Watch)
        } else if is_text(a, "--no-master") {
            Some(ArgItem::NoMaster)
        } else if is_text(a, "--dry-run") {
            Some(ArgItem::DryRun)
        } else {
            None
        };
        if let Some(item) = flag {
            assert(rest == cons_item(item, scan_spec(texts, i + 1)));
            items.push(item);
            assert(scan_spec(texts, 0).0 == items@ + scan_spec(texts, i + 1).0);
            i = i + 1;
        } else if is_text(a, "--fade-ms") || is_text(a, "--fade-after") || is_text(a, "--seconds")
            || is_text(a, "--blocks") || is_text(a, "--block-frames") || is_text(a, "--sample-rate")
            || is_text(a, "--freq") {
            if i + 1 >= args.len() {
                let mut m = args[i].clone();
                assert(m@ == a@);
                m.append(" requires a value");
                return ArgScan { items, stop: ArgStop::Failed(m) };
            }
            let v = chars_of(args[i + 1].as_str());
            assert(v@ == texts[i + 1]);
            let v = v.as_slice();
            let at = i + 1;
            let item: Result<ArgItem, IntError> = if is_text(a, "--fade-ms") {
                match parse_unsigned(v, 0, u64::MAX) {
                    Ok(n) => Ok(ArgItem::FadeMs(n)),
                    Err(e) => Err(e),
                }
            } else if is_text(a, "--fade-after") {
                Ok(ArgItem::FadeAfter { arg: at })
            } else if is_text(a, "--seconds") {
                Ok(ArgItem::Seconds { arg: at })
            } else if is_text(a, "--blocks") {
                match parse_unsigned(v, 0, usize::MAX as u64) {
                    Ok(n) => Ok(ArgItem::Blocks(n as usize)),
                    Err(e) => Err(e),
                }
            } else if is_text(a, "--block-frames") {
                match parse_unsigned(v, 0, u32::MAX as u64) {
                    Ok(n) => Ok(ArgItem::BlockFrames(n as u32)),
                    Err(e) => Err(e),
                }
            } else if is_text(a, "--sample-rate") {
                match parse_unsigned(v, 0, u32::MAX as u64) {
                    Ok(n) => Ok(ArgItem::SampleRate(n as u32)),
                    Err(e) => Err(e),
                }
            } else {
                Ok(ArgItem::Freq { arg: at })
            };
            assert(v@.skip(0) == v@);
            assert(item == value_item(a@, v@, at as int));
            match item {
                Ok(it) => {
                    assert(rest == cons_item(it, scan_spec(texts, i + 2)));
                    items.push(it);
                    assert(scan_spec(texts, 0).0 == items@ + scan_spec(texts, i + 2).0);
                    i = i + 2;
                },
                Err(e) => {
                    return ArgScan { items, stop: ArgStop::Failed(e.message()) };
                },
            }
        } else if a.len() >= 2 && a[0] == '-' && a[1] == '-' {
            let mut m = String::from_str("unknown option: ");
            m.append(args[i].as_str());
            return ArgScan { items, stop: ArgStop::Failed(m) };
        } else {
            let item = ArgItem::Cartridge { arg: i };
            assert(rest == cons_item(item, scan_spec(texts, i + 1)));
            items.push(item);
            assert(scan_spec(texts, 0).0 == items@ + scan_spec(texts, i + 1).0);
            i = i + 1;
        }
    }
    assert(items@ + Seq::<ArgItem>::empty() == items@);
    ArgScan { items, stop: ArgStop::End }
}

/// The settings the command line gives, but for the values read as
/// floating-point numbers (fade delay, run time, frequency), which the caller
/// reads from the arguments its items point at.
pub struct Settings {
    /// Indices of the arguments that name cartridges, in order.
    pub cartridges: Vec<usize>,
    pub sine: bool,
    pub dry_run: bool,
    pub watch: bool,
    pub no_master: bool,
    pub fade_ms: u64,
    pub blocks: usize,
    pub block_frames: u32,
    pub sample_rate: u32,
}

impl Settings {
    /// The defaults: no cartridge, no flag, a 600 ms crossfade, 4 blocks of
    /// 1024 frames, the preferred sample rate.
    pub fn new() -> (s: Settings)
        ensures
            s.cartridges@ == Seq::<usize>::empty(),
            !s.sine && !s.dry_run && !s.watch && !s.no_master,
            s.fade_ms == 600,
            s.blocks == 4,
            s.block_frames == 1024,
            s.sample_rate == PREFERRED_SAMPLE_RATE,
    {
        Settings {
            cartridges: Vec::new(),
            sine: false,
            dry_run: false,
            watch: false,
            no_master: false,
            fade_ms: 600,
            blocks: 4,
            block_frames: 1024,
            sample_rate: PREFERRED_SAMPLE_RATE,
        }
    }

    /// Take one item into the settings: a flag sets its switch, an integer
    /// option its value (the last one given wins), a cartridge is appended.
    /// Items whose value is a floating-point number change nothing here.
    pub fn apply(&mut self, item: ArgItem)
        ensures
            final(self).cartridges@ == (match item {
                ArgItem::Cartridge { arg } => old(self).cartridges@.push(arg),
                _ => old(self).cartridges@,
            }),
            final(self).sine == (old(self).sine || item == ArgItem::Sine),
            final(self).dry_run == (old(self).dry_run || item == ArgItem::DryRun),
            final(self).watch == (old(self).watch || item == ArgItem::Watch),
            final(self).no_master == (old(self).no_master || item == ArgItem::NoMaster),
            final(self).fade_ms == (match item {
                ArgItem::FadeMs(v) => v,
                _ => old(self).fade_ms,
            }),
            final(self).blocks == (match item {
                ArgItem::Blocks(v) => v,
                _ => old(self).blocks,
            }),
            final(self).block_frames == (match item {
                ArgItem::BlockFrames(v) => v,
                _ => old(self).block_frames,
            }),
            final(self).sample_rate == (match item {
                ArgItem::SampleRate(v) => v,
                _ => old(self).sample_rate,
            }),
    {
        match item {
            ArgItem::Sine => self.sine = true,
            ArgItem::Watch => self.watch = true,
            ArgItem::NoMaster => self.no_master = true,
            ArgItem::DryRun => self.dry_run = true,
            ArgItem::FadeMs(v) => self.fade_ms = v,
            ArgItem::Blocks(v) => self.blocks = v,
            ArgItem::BlockFrames(v) => self.block_frames = v,
            ArgItem::SampleRate(v) => self.sample_rate = v,
            ArgItem::Cartridge { arg } => self.cartridges.push(arg),
            ArgItem::FadeAfter { .. } | ArgItem::Seconds { .. } | ArgItem::Freq { .. } => {},
        }
    }

    /// Whether the built-in sine plays: asked for, or nothing else to play
    /// (no cartridge and no watching).
    pub fn use_sine(&self) -> (r: bool)
        ensures
            r == (self.sine || (self.cartridges@.len() == 0 && !self.watch)),
    {
        self.sine || (self.cartridges.len() == 0 && !self.watch)
    }
}

} // verus!
