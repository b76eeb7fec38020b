//! What the front-end shows, as text: cartridge labels, the selection in the
//! cartridge list, and the timeline of the song now playing.
use vstd::prelude::*;

use crate::shared::NowPlaying;
use crate::text::{
    chars_eq, chars_of, decimal, decimal_string, digit_char, digit_value, is_digit, lemma_decimal_digits,
    lemma_parse_decimal, parse_int_spec, push_char, string_from_chars, sub_chars, IntError,
};

verus! {

/// `s` without any number of trailing `.wasm` (`str::trim_end_matches`).
pub open spec fn strip_wasm(s: Seq<char>) -> Seq<char>
    decreases s.len(),
{
    if s.len() >= 5 && s.skip(s.len() - 5) == ".wasm"@ {
        strip_wasm(s.take(s.len() - 5))
    } else {
        s
    }
}

/// A label is the file name without all of its trailing `.wasm` extensions:
/// it does not end in `.wasm`, it begins the name, and what was cut off is a
/// whole number of five-character extensions.
pub proof fn lemma_label_strips_every_wasm(s: Seq<char>)
    ensures
        ({
            let l = strip_wasm(s);
            &&& !(l.len() >= 5 && l.skip(l.len() - 5) == ".wasm"@)
            &&& l.len() <= s.len()
            &&& s.take(l.len() as int) == l
            &&& (s.len() - l.len()) % 5 == 0
        }),
    decreases s.len(),
{
    if s.len() >= 5 && s.skip(s.len() - 5) == ".wasm"@ {
        let u = s.take(s.len() - 5);
        lemma_label_strips_every_wasm(u);
        let l = strip_wasm(u);
        assert(s.take(l.len() as int) =~= u.take(l.len() as int));
    } else {
        assert(s.take(s.len() as int) =~= s);
    }
}

/// The label of a cartridge file: its file name (`?` without one) without the
/// `.wasm` extension.
pub fn file_label(file_name: Option<&str>) -> (label: String)
    ensures
        label@ == strip_wasm(
            match file_name {
                Some(n) => n@,
                None => "?"@,
            },
        ),
{
    let name = match file_name {
        Some(n) => n,
        None => "?",
    };
    let v = chars_of(name);
    let ext = chars_of(".wasm");
    let mut end = v.len();
    assert(v@.take(end as int) == v@);
    while end >= 5 && chars_eq(sub_chars(v.as_slice(), end - 5, end).as_slice(), ext.as_slice())
        invariant
            end <= v.len(),
            ext@ == ".wasm"@,
            strip_wasm(v@) == strip_wasm(v@.take(end as int)),
        decreases end,
    {
        proof {
            let t = v@.take(end as int);
            assert(t.skip(t.len() - 5) == v@.subrange(end - 5, end as int));
            assert(t.take(t.len() - 5) == v@.take(end - 5));
        }
        end = end - 5;
    }
    proof {
        let t = v@.take(end as int);
        if end >= 5 {
            assert(t.skip(t.len() - 5) == v@.subrange(end - 5, end as int));
        }
    }
    string_from_chars(sub_chars(v.as_slice(), 0, end).as_slice())
}

/// The list selection after moving by `delta` rows, wrapping around at both
/// ends (Euclidean remainder). An empty list keeps its selection; no selection
/// counts as the first row.
pub open spec fn moved_selection(selected: Option<usize>, len: usize, delta: isize) -> Option<usize> {
    if len == 0 {
        selected
    } else {
        let cur: int = match selected {
            Some(s) => s as int,
            None => 0,
        };
        Some(((cur + delta) % (len as int)) as usize)
    }
}

/// Move the selection of a list of `len` rows by `delta` rows.
pub fn move_selection(selected: Option<usize>, len: usize, delta: isize) -> (r: Option<usize>)
    requires
        len <= isize::MAX,
        selected matches Some(s) ==> s <= isize::MAX,
        isize::MIN <= (match selected {
            Some(s) => s as int,
            None => 0,
        }) + delta <= isize::MAX,
    ensures
        r == moved_selection(selected, len, delta),
        len > 0 ==> (r matches Some(n) && n < len),
{
    if len == 0 {
        return selected;
    }
    let cur: isize = match selected {
        Some(s) => s as isize,
        None => 0,
    };
    let sum: isize = cur + delta;
    if sum >= 0 {
        let m = (sum as usize) % len;
        Some(m)
    } else {
        let back: usize = (-(sum + 1)) as usize;
        let k = back % len;
        proof {
            let q = back as int / len as int;
            vstd::arithmetic::div_mod::lemma_fundamental_div_mod(back as int, len as int);
            assert(sum as int == (-(q + 1)) * (len as int) + (len - 1 - k)) by (nonlinear_arith)
                requires
                    back as int == len * q + k,
                    back as int == -(sum + 1),
            ;
            vstd::arithmetic::div_mod::lemma_fundamental_div_mod_converse(
                sum as int,
                len as int,
                -(q + 1),
                len - 1 - k,
            );
        }
        Some(len - 1 - k)
    }
}

/// The selection after the list was read again and now has `len` rows: a
/// selection past the end moves to the last row (none in an empty list), and a
/// list without a selection selects its first row.
pub open spec fn kept_selection(selected: Option<usize>, len: usize) -> Option<usize> {
    match selected {
        Some(s) => if s >= len {
            if len == 0 {
                None
            } else {
                Some((len - 1) as usize)
            }
        } else {
            Some(s)
        },
        None => if len == 0 {
            None
        } else {
            Some(0)
        },
    }
}

/// Keep the selection of a list that now has `len` rows.
pub fn keep_selection(selected: Option<usize>, len: usize) -> (r: Option<usize>)
    ensures
        r == kept_selection(selected, len),
        r matches Some(n) ==> n < len,
{
    match selected {
        Some(s) => if s >= len {
            len.checked_sub(1)
        } else {
            Some(s)
        },
        None => if len == 0 {
            None
        } else {
            Some(0)
        },
    }
}

/// Moving the selection and moving it back returns to where it was.
pub proof fn lemma_move_round_trip(s: usize, len: usize, delta: isize)
    requires
        s < len,
        delta > isize::MIN,
    ensures
        moved_selection(
            moved_selection(Some(s), len, delta),
            len,
            -delta as isize,
        ) == Some(s),
{
    let m = ((s + delta) % (len as int));
    vstd::arithmetic::div_mod::lemma_fundamental_div_mod(s + delta, len as int);
    let q = (s + delta) / (len as int);
    assert(0 <= m < len) by {
        vstd::arithmetic::div_mod::lemma_mod_bound(s + delta, len as int);
    }
    assert(m + (-delta) == (-q) * len + s) by (nonlinear_arith)
        requires
            s + delta == len * q + m,
    ;
    vstd::arithmetic::div_mod::lemma_fundamental_div_mod_converse(m + (-delta), len as int, -q, s as int);
    assert(moved_selection(Some(s), len, delta) == Some(m as usize));
}

/// A rescan keeps what can be kept: a selected row still in the list stays
/// selected, one past the new end moves to the last row, a list with rows
/// always has a selected row within it, and an empty one has none.
pub proof fn lemma_rescan_keeps_selection(selected: Option<usize>, len: usize)
    ensures
        selected matches Some(s) && s < len ==> kept_selection(selected, len) == selected,
        selected matches Some(s) && s >= len && len > 0 ==> kept_selection(selected, len) == Some(
            (len - 1) as usize,
        ),
        len > 0 ==> (kept_selection(selected, len) matches Some(n) && n < len),
        len == 0 ==> kept_selection(selected, len) is None,
{
}

/// `n` with at least two digits (`{:02}`).
pub open spec fn pad2(n: nat) -> Seq<char> {
    if n < 10 {
        seq!['0'] + decimal(n)
    } else {
        decimal(n)
    }
}

/// Whole seconds as minutes and seconds, `m:ss`.
pub open spec fn mmss_text(seconds: nat) -> Seq<char> {
    decimal(seconds / 60) + seq![':'] + pad2(seconds % 60)
}

/// `m:ss` reads back as the seconds it shows: the minutes before the colon,
/// then exactly two digits of seconds below 60.
pub proof fn lemma_mmss_reads_back(seconds: nat)
    ensures
        ({
            let t = mmss_text(seconds);
            let n = t.len();
            &&& n >= 4
            &&& t[n - 3] == ':'
            &&& is_digit(t[n - 2]) && is_digit(t[n - 1])
            &&& 10 * digit_value(t[n - 2]) + digit_value(t[n - 1]) < 60
            &&& parse_int_spec(t.take(n - 3), 0, seconds as int) == Ok::<int, IntError>(
                (seconds / 60) as int,
            )
            &&& seconds == 60 * (seconds / 60) + 10 * digit_value(t[n - 2]) + digit_value(t[n - 1])
        }),
{
    let m = seconds / 60;
    let r = seconds % 60;
    let hi = r / 10;
    let lo = r % 10;
    assert(decimal(hi) == seq![digit_char(hi)]);
    assert(decimal(lo) == seq![digit_char(lo)]);
    assert(pad2(r) =~= seq![digit_char(hi), digit_char(lo)]) by {
        if r >= 10 {
            assert(decimal(r) == decimal(hi).push(digit_char(lo)));
        } else {
            assert(hi == 0 && lo == r);
            assert(digit_char(0) == '0');
        }
    }
    let t = mmss_text(seconds);
    lemma_decimal_digits(m);
    let n = t.len();
    assert(t.take(n - 3) =~= decimal(m));
    assert(t[n - 3] == ':');
    assert(t[n - 2] == digit_char(hi));
    assert(t[n - 1] == digit_char(lo));
    assert(digit_value(digit_char(hi)) == hi);
    assert(digit_value(digit_char(lo)) == lo);
    lemma_parse_decimal(m, 0, seconds as int);
}

/// Whole seconds as `m:ss`.
pub fn mmss(seconds: u64) -> (s: String)
    ensures
        s@ == mmss_text(seconds as nat),
{
    let mut s = decimal_string(seconds / 60);
    push_char(&mut s, ':');
    let rem = seconds % 60;
    if rem < 10 {
        push_char(&mut s, '0');
    }
    let tail = decimal_string(rem);
    s.append(tail.as_str());
    assert(s@ =~= mmss_text(seconds as nat));
    s
}

/// Frames per second of the timeline: the song's rate, 48 kHz when unknown.
pub open spec fn timeline_rate(now: &NowPlaying) -> nat {
    if now.sample_rate > 0 {
        now.sample_rate as nat
    } else {
        48000
    }
}

/// Frames played since the song became the active source.
pub open spec fn elapsed_frames(frames_played: u64, now: &NowPlaying) -> nat {
    if frames_played >= now.origin_frame {
        (frames_played - now.origin_frame) as nat
    } else {
        0
    }
}

/// Where a song of fixed length is, in frames, looping over its length (0
/// for a generative source).
pub open spec fn timeline_pos(frames_played: u64, now: &NowPlaying) -> nat {
    if now.duration_frames > 0 {
        elapsed_frames(frames_played, now) % (now.duration_frames as nat)
    } else {
        0
    }
}

/// The timeline stays within a song of fixed length: its position is below
/// the length and differs from the frames played since the song began by a
/// whole number of passes over the song.
pub proof fn lemma_timeline_within_song(frames_played: u64, now: &NowPlaying)
    requires
        now.duration_frames > 0,
    ensures
        timeline_pos(frames_played, now) < now.duration_frames,
        timeline_pos(frames_played, now) <= elapsed_frames(frames_played, now),
        (elapsed_frames(frames_played, now) - timeline_pos(frames_played, now)) % (
        now.duration_frames as int) == 0,
{
    let e = elapsed_frames(frames_played, now) as int;
    let d = now.duration_frames as int;
    vstd::arithmetic::div_mod::lemma_fundamental_div_mod(e, d);
    vstd::arithmetic::div_mod::lemma_mod_bound(e, d);
    let q = e / d;
    assert(q >= 0) by {
        vstd::arithmetic::div_mod::lemma_div_pos_is_pos(e, d);
    }
    assert(e - e % d == d * q);
    assert(q * d <= e) by (nonlinear_arith)
        requires e - e % d == d * q, e % d >= 0;
    vstd::arithmetic::div_mod::lemma_mod_multiples_basic(q, d);
}

/// The label of the timeline gauge: position and length for a song of fixed
/// length, the time played for a generative one, a dash with nothing playing.
pub open spec fn timeline_text(frames_played: u64, now: &NowPlaying) -> Seq<char> {
    let rate = timeline_rate(now);
    if now.duration_frames > 0 {
        mmss_text(timeline_pos(frames_played, now) / rate) + " / "@ + mmss_text(
            now.duration_frames as nat / rate,
        )
    } else if now.title@.len() == 0 {
        "\u{2014}"@
    } else {
        mmss_text(elapsed_frames(frames_played, now) / rate) + " (generative)"@
    }
}

/// The timeline of what is playing after `frames_played` frames: the position
/// in frames (whose ratio to the length fills the gauge) and the label.
pub fn timeline(frames_played: u64, now: &NowPlaying) -> (r: (u64, String))
    ensures
        r.0 == timeline_pos(frames_played, now),
        r.1@ == timeline_text(frames_played, now),
{
    let rate: u64 = if now.sample_rate > 0 { now.sample_rate as u64 } else { 48000 };
    let elapsed = frames_played.saturating_sub(now.origin_frame);
    if now.duration_frames > 0 {
        let pos = elapsed % now.duration_frames;
        let mut label = mmss(pos / rate);
        label.append(" / ");
        let total = mmss(now.duration_frames / rate);
        label.append(total.as_str());
        (pos, label)
    } else if now.title.as_str().unicode_len() == 0 {
        (0, String::from_str("\u{2014}"))
    } else {
        let mut label = mmss(elapsed / rate);
        label.append(" (generative)");
        (0, label)
    }
}

// ---------------------------------------------------------------------------
// The front-end's controls
// ---------------------------------------------------------------------------

/// A key press, as the front-end reads it.
#[derive(Clone, Copy, Debug, PartialEq, Eq, Structural)]
pub enum Key {
    /// `q` or Esc.
    Quit,
    /// Up arrow.
    Up,
    /// Down arrow.
    Down,
    /// `r`.
    Rescan,
    /// Enter.
    Enter,
    Other,
}

/// What a key press asks of the front-end.
#[derive(Clone, Copy, Debug, PartialEq, Eq, Structural)]
pub enum FrontAction {
    /// Leave the front-end (and stop playing).
    Stop,
    /// Read the cartridge directory again.
    Rescan,
    /// Crossfade to the cartridge at this row.
    CrossfadeTo(usize),
    Nothing,
}

/// The selection and the action after `key`, in a list of `len` rows: arrows
/// move the selection (wrapping), Enter plays the selected cartridge if there
/// is one, `r` rescans, `q`/Esc stop.
pub open spec fn on_key_spec(key: Key, selected: Option<usize>, len: usize) -> (
    Option<usize>,
    FrontAction,
) {
    match key {
        Key::Quit => (selected, FrontAction::Stop),
        Key::Up => (moved_selection(selected, len, -1isize), FrontAction::Nothing),
        Key::Down => (moved_selection(selected, len, 1isize), FrontAction::Nothing),
        Key::Rescan => (selected, FrontAction::Rescan),
        Key::Enter => match selected {
            Some(i) => if i < len {
                (selected, FrontAction::CrossfadeTo(i))
            } else {
                (selected, FrontAction::Nothing)
            },
            None => (selected, FrontAction::Nothing),
        },
        Key::Other => (selected, FrontAction::Nothing),
    }
}

/// Handle one key press.
pub fn on_key(key: Key, selected: Option<usize>, len: usize) -> (r: (Option<usize>, FrontAction))
    requires
        len <= isize::MAX,
        selected matches Some(s) ==> s < isize::MAX,
    ensures
        r == on_key_spec(key, selected, len),
        selected matches Some(i) ==> (key == Key::Enter && i < len ==> r == (
            selected,
            FrontAction::CrossfadeTo(i),
        )),
{
    match key {
        Key::Quit => (selected, FrontAction::Stop),
        Key::Up => (move_selection(selected, len, -1), FrontAction::Nothing),
        Key::Down => (move_selection(selected, len, 1), FrontAction::Nothing),
        Key::Rescan => (selected, FrontAction::Rescan),
        Key::Enter => match selected {
            Some(i) => if i < len {
                (selected, FrontAction::CrossfadeTo(i))
            } else {
                (selected, FrontAction::Nothing)
            },
            None => (selected, FrontAction::Nothing),
        },
        Key::Other => (selected, FrontAction::Nothing),
    }
}

/// Every row of the list can be played: Enter on a selected row crossfades to
/// that very row and keeps it selected, the last row included. Conversely,
/// only Enter crossfades, and only to the selected row of the list.
pub proof fn lemma_enter_plays_selected_row(key: Key, selected: Option<usize>, len: usize, i: usize)
    ensures
        i < len ==> on_key_spec(Key::Enter, Some(i), len) == (
            Some(i),
            FrontAction::CrossfadeTo(i),
        ),
        on_key_spec(key, selected, len).1 matches FrontAction::CrossfadeTo(j) ==> {
            &&& key == Key::Enter
            &&& selected == Some(j)
            &&& j < len
        },
{
}

/// The arrows walk round the list: Down goes to the next row and from the
/// last to the first, Up to the previous row and from the first to the last,
/// so Down then Up (or Up then Down) comes back to the row it started from.
pub proof fn lemma_arrows_walk_round(i: usize, len: usize)
    requires
        i < len,
    ensures
        on_key_spec(Key::Down, Some(i), len).0 == Some(
            if i + 1 == len {
                0
            } else {
                (i + 1) as usize
            },
        ),
        on_key_spec(Key::Up, Some(i), len).0 == Some(
            if i == 0 {
                (len - 1) as usize
            } else {
                (i - 1) as usize
            },
        ),
        on_key_spec(Key::Up, on_key_spec(Key::Down, Some(i), len).0, len).0 == Some(i),
        on_key_spec(Key::Down, on_key_spec(Key::Up, Some(i), len).0, len).0 == Some(i),
{
    let n = len as int;
    let k = i as int;
    if k + 1 == n {
        vstd::arithmetic::div_mod::lemma_fundamental_div_mod_converse(k + 1, n, 1, 0);
    } else {
        vstd::arithmetic::div_mod::lemma_fundamental_div_mod_converse(k + 1, n, 0, k + 1);
    }
    if k == 0 {
        vstd::arithmetic::div_mod::lemma_fundamental_div_mod_converse(-1, n, -1, n - 1);
    } else {
        vstd::arithmetic::div_mod::lemma_fundamental_div_mod_converse(k - 1, n, 0, k - 1);
    }
    let down: int = if k + 1 == n { 0 } else { k + 1 };
    let up: int = if k == 0 { n - 1 } else { k - 1 };
    if down == 0 {
        vstd::arithmetic::div_mod::lemma_fundamental_div_mod_converse(-1, n, -1, n - 1);
    } else {
        vstd::arithmetic::div_mod::lemma_fundamental_div_mod_converse(down - 1, n, 0, down - 1);
    }
    if up + 1 == n {
        vstd::arithmetic::div_mod::lemma_fundamental_div_mod_converse(up + 1, n, 1, 0);
    } else {
        vstd::arithmetic::div_mod::lemma_fundamental_div_mod_converse(up + 1, n, 0, up + 1);
    }
}

/// The cartridge list is read again once more than a second has passed since
/// the last reading (times in nanoseconds).
pub fn rescan_due(last_ns: u64, now_ns: u64) -> (r: bool)
    ensures
        r == (now_ns - last_ns > 1_000_000_000),
{
    now_ns > last_ns && now_ns - last_ns > 1_000_000_000
}

/// The status line after trying to crossfade to the cartridge `label`.
pub fn crossfade_status(label: &str, err: Option<&str>) -> (s: String)
    ensures
        s@ == (match err {
            None => "\u{25b6} "@ + label@,
            Some(e) => "! "@ + e@,
        }),
{
    match err {
        None => {
            let mut s = String::from_str("\u{25b6} ");
            s.append(label);
            s
        },
        Some(e) => {
            let mut s = String::from_str("! ");
            s.append(e);
            s
        },
    }
}

/// The status line after reading the cartridge directory again.
pub fn rescan_status(n: usize) -> (s: String)
    ensures
        s@ == "rescanned \u{2014} "@ + decimal(n as nat) + " cartridge(s)"@,
{
    let mut s = String::from_str("rescanned \u{2014} ");
    let d = decimal_string(n as u64);
    s.append(d.as_str());
    s.append(" cartridge(s)");
    s
}

/// The status line while watching `dir`.
pub fn watch_status(dir: &str) -> (s: String)
    ensures
        s@ == "watching "@ + dir@,
{
    let mut s = String::from_str("watching ");
    s.append(dir);
    s
}

/// The help and status row.
pub fn help_text(status: &str) -> (s: String)
    ensures
        s@ == " \u{2191}/\u{2193} select   \u{23ce} play/crossfade   r rescan   q quit    "@ + status@,
{
    let mut s = String::from_str(" \u{2191}/\u{2193} select   \u{23ce} play/crossfade   r rescan   q quit    ");
    s.append(status);
    s
}

// ---------------------------------------------------------------------------
// The now-playing panel
// ---------------------------------------------------------------------------

/// The title line: the title, a dash when there is none.
pub fn title_text(now: &NowPlaying) -> (s: String)
    ensures
        s@ == (if now.title@.len() == 0 {
            "\u{2014}"@
        } else {
            now.title@
        }),
{
    if now.title.as_str().unicode_len() == 0 {
        String::from_str("\u{2014}")
    } else {
        now.title.clone()
    }
}

/// The artist line: `by` and the artist, empty when there is none.
pub fn artist_text(now: &NowPlaying) -> (s: String)
    ensures
        s@ == (if now.artist@.len() == 0 {
            Seq::<char>::empty()
        } else {
            "by "@ + now.artist@
        }),
{
    if now.artist.as_str().unicode_len() == 0 {
        String::new()
    } else {
        let mut s = String::from_str("by ");
        s.append(now.artist.as_str());
        s
    }
}

/// The sample-rate line, empty when the rate is unknown.
pub fn rate_text(now: &NowPlaying) -> (s: String)
    ensures
        s@ == (if now.sample_rate > 0 {
            decimal(now.sample_rate as nat) + " Hz"@
        } else {
            Seq::<char>::empty()
        }),
{
    if now.sample_rate > 0 {
        let mut s = decimal_string(now.sample_rate as u64);
        s.append(" Hz");
        s
    } else {
        String::new()
    }
}

/// `ts` joined by `sep`.
pub open spec fn join(ts: Seq<Seq<char>>, sep: Seq<char>) -> Seq<char>
    decreases ts.len(),
{
    if ts.len() == 0 {
        Seq::empty()
    } else if ts.len() == 1 {
        ts[0]
    } else {
        join(ts.drop_last(), sep) + sep + ts.last()
    }
}

/// The texts of some strings.
pub open spec fn texts(ss: Seq<String>) -> Seq<Seq<char>> {
    ss.map_values(|s: String| s@)
}

/// The tags, separated by a middle dot.
pub fn tags_text(tags: &[String]) -> (s: String)
    ensures
        s@ == join(texts(tags@), "  \u{b7}  "@),
{
    let sep = "  \u{b7}  ";
    let mut s = String::new();
    let ghost ts = texts(tags@);
    let mut i: usize = 0;
    assert(ts.take(0) =~= Seq::<Seq<char>>::empty());
    while i < tags.len()
        invariant
            ts == texts(tags@),
            ts.len() == tags.len(),
            i <= tags.len(),
            s@ == join(ts.take(i as int), sep@),
        decreases tags.len() - i,
    {
        assert(ts.take(i + 1).drop_last() == ts.take(i as int));
        assert(ts.take(i + 1).last() == tags@[i as int]@);
        if i > 0 {
            s.append(sep);
        }
        s.append(tags[i].as_str());
        i = i + 1;
    }
    assert(ts.take(i as int) == ts);
    s
}

/// The underrun warning, when samples ran short.
pub fn underrun_text(n: u64) -> (s: Option<String>)
    ensures
        n == 0 ==> s is None,
        n > 0 ==> (s matches Some(t) && t@ == "\u{26a0} "@ + decimal(n as nat) + " underrun sample(s)"@),
{
    if n == 0 {
        return None;
    }
    let mut s = String::from_str("\u{26a0} ");
    let d = decimal_string(n);
    s.append(d.as_str());
    s.append(" underrun sample(s)");
    Some(s)
}

} // verus!
