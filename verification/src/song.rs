//! A tiny tracker language: note names, lane strings of cells, and the
//! compiled, frame-sorted event timeline of a song.
use vstd::prelude::*;

use crate::text::{
    chars_of, chars_eq, is_ascii_digit, is_digit, is_whitespace, is_white_space, lemma_word_len_at,
    lemma_word_len_bound, parse_i32, parse_int_spec, push_char, push_chars, string_from_chars,
    sub_chars, trim, trim_chars, word_len, words, decimal, lemma_decimal_digits, lemma_parse_decimal, lemma_parse_negative_decimal,
    trim_start, trim_end,
};

verus! {

// ---------------------------------------------------------------------------
// Notes
// ---------------------------------------------------------------------------

/// A pitch as a MIDI note number (A4 = 69 = 440 Hz).
#[derive(Clone, Copy, Debug, PartialEq, Eq, Structural)]
pub struct Note {
    pub midi: i32,
}

/// `c` in lower case, for ASCII letters (`char::to_ascii_lowercase`).
pub open spec fn ascii_lower(c: char) -> char {
    if 65 <= (c as u32) <= 90 {
        ((c as u32) + 32) as char
    } else {
        c
    }
}

/// Semitones above C of a lower-case note letter.
pub open spec fn letter_semitone(c: char) -> Option<int> {
    if c == 'c' {
        Some(0)
    } else if c == 'd' {
        Some(2)
    } else if c == 'e' {
        Some(4)
    } else if c == 'f' {
        Some(5)
    } else if c == 'g' {
        Some(7)
    } else if c == 'a' {
        Some(9)
    } else if c == 'b' {
        Some(11)
    } else {
        None
    }
}

/// The accidental that follows the letter of `s`: its shift in semitones, and
/// where the octave starts.
pub open spec fn accidental(s: Seq<char>) -> (int, int) {
    if s.len() > 1 && (s[1] == '#' || s[1] == 's') {
        (1, 2)
    } else if s.len() > 1 && s[1] == 'b' {
        (-1, 2)
    } else {
        (0, 1)
    }
}

pub open spec fn empty_note_msg() -> Seq<char> {
    "empty note"@
}

pub open spec fn bad_letter_msg(letter: char, s: Seq<char>) -> Seq<char> {
    "bad note letter '"@ + seq![letter] + "' in \""@ + s + "\""@
}

pub open spec fn bad_octave_msg(s: Seq<char>) -> Seq<char> {
    "bad octave in note \""@ + s + "\""@
}

/// The MIDI number that the scientific name `raw` denotes (`c4` = 60,
/// `a4` = 69), or the error message: surrounding whitespace is ignored; a
/// letter `a`..`g` (either case), an optional `#` or `s` (sharp) or `b` (flat),
/// then the octave as an `i32`, negative octaves included.
pub open spec fn note_midi(raw: Seq<char>) -> Result<int, Seq<char>> {
    let s = trim(raw);
    if s.len() == 0 {
        Err(empty_note_msg())
    } else {
        match letter_semitone(ascii_lower(s[0])) {
            None => Err(bad_letter_msg(s[0], s)),
            Some(base) => {
                let (shift, from) = accidental(s);
                match parse_int_spec(s.skip(from), i32::MIN as int, i32::MAX as int) {
                    Ok(octave) => {
                        let midi = (octave + 1) * 12 + base + shift;
                        if i32::MIN <= midi <= i32::MAX {
                            Ok(midi)
                        } else {
                            Err(bad_octave_msg(s))
                        }
                    },
                    Err(_) => Err(bad_octave_msg(s)),
                }
            },
        }
    }
}

/// The decimal text of the octave `o`, negated when `neg`.
pub open spec fn octave_text(neg: bool, o: nat) -> Seq<char> {
    if neg {
        seq!['-'] + decimal(o)
    } else {
        decimal(o)
    }
}

/// The octave that [`octave_text`] writes.
pub open spec fn octave_value(neg: bool, o: nat) -> int {
    if neg {
        -o
    } else {
        o as int
    }
}

/// The shift of the accidental written as `acc` (none, `#`, `s` or `b`).
spec fn shift_of(acc: Seq<char>) -> int {
    if acc == seq!['#'] || acc == seq!['s'] {
        1
    } else if acc == seq!['b'] {
        -1
    } else {
        0
    }
}

/// What `note_midi` gives for a letter, an accidental and an octave written
/// out, when the note lies well within `i32`.
proof fn lemma_note_text(c: char, acc: Seq<char>, neg: bool, o: nat)
    requires
        acc == Seq::<char>::empty() || acc == seq!['#'] || acc == seq!['s'] || acc == seq!['b'],
        !is_white_space(c),
        i32::MIN <= (octave_value(neg, o) + 1) * 12 - 1,
        (octave_value(neg, o) + 1) * 12 + 12 <= i32::MAX,
    ensures
        note_midi(seq![c] + acc + octave_text(neg, o)) == (match letter_semitone(ascii_lower(c)) {
            Some(b) => Ok::<int, Seq<char>>((octave_value(neg, o) + 1) * 12 + b + shift_of(acc)),
            None => Err(bad_letter_msg(c, seq![c] + acc + octave_text(neg, o))),
        }),
{
    let d = decimal(o);
    let t = octave_text(neg, o);
    let s = seq![c] + acc + t;
    lemma_decimal_digits(o);
    assert(t.len() >= 1);
    assert(t.last() == d.last());
    assert(is_digit(d[d.len() - 1]));
    assert(s[0] == c);
    assert(s.last() == t.last());
    assert(trim_start(s) == s);
    assert(trim_end(s) == s);
    assert(trim(s) == s);
    if neg {
        assert(t[0] == '-');
        lemma_parse_negative_decimal(o, i32::MIN as int, i32::MAX as int);
    } else {
        assert(is_digit(d[0]));
        lemma_parse_decimal(o, i32::MIN as int, i32::MAX as int);
    }
    if acc.len() == 0 {
        assert(s[1] == t[0]);
        assert(s.skip(1) =~= t);
    } else {
        assert(s[1] == acc[0]);
        assert(s.skip(2) =~= t);
    }
}

/// The seven note letters name the C major scale: for every octave `o`
/// written in decimal, with or without a minus sign (its notes within
/// `i32`), the letters c, d, e, f, g, a, b, in either case, followed by `o`
/// denote the MIDI notes `(o + 1) * 12` plus 0, 2, 4, 5, 7, 9 and 11; so `c4`
/// is 60, `d4` is 62 and `c-1` is 0.
pub proof fn lemma_note_letters(neg: bool, o: nat)
    requires
        i32::MIN <= (octave_value(neg, o) + 1) * 12 - 1,
        (octave_value(neg, o) + 1) * 12 + 12 <= i32::MAX,
    ensures
        ({
            let t = octave_text(neg, o);
            let base = (octave_value(neg, o) + 1) * 12;
            &&& note_midi(seq!['c'] + t) == Ok::<int, Seq<char>>(base)
            &&& note_midi(seq!['C'] + t) == Ok::<int, Seq<char>>(base)
            &&& note_midi(seq!['d'] + t) == Ok::<int, Seq<char>>(base + 2)
            &&& note_midi(seq!['D'] + t) == Ok::<int, Seq<char>>(base + 2)
            &&& note_midi(seq!['e'] + t) == Ok::<int, Seq<char>>(base + 4)
            &&& note_midi(seq!['E'] + t) == Ok::<int, Seq<char>>(base + 4)
            &&& note_midi(seq!['f'] + t) == Ok::<int, Seq<char>>(base + 5)
            &&& note_midi(seq!['F'] + t) == Ok::<int, Seq<char>>(base + 5)
            &&& note_midi(seq!['g'] + t) == Ok::<int, Seq<char>>(base + 7)
            &&& note_midi(seq!['G'] + t) == Ok::<int, Seq<char>>(base + 7)
            &&& note_midi(seq!['a'] + t) == Ok::<int, Seq<char>>(base + 9)
            &&& note_midi(seq!['A'] + t) == Ok::<int, Seq<char>>(base + 9)
            &&& note_midi(seq!['b'] + t) == Ok::<int, Seq<char>>(base + 11)
            &&& note_midi(seq!['B'] + t) == Ok::<int, Seq<char>>(base + 11)
        }),
{
    let t = octave_text(neg, o);
    let base = (octave_value(neg, o) + 1) * 12;
    assert(note_midi(seq!['c'] + t) == Ok::<int, Seq<char>>(base + 0)) by {
        lemma_plain_note_text('c', neg, o);
    }
    assert(note_midi(seq!['C'] + t) == Ok::<int, Seq<char>>(base + 0)) by {
        lemma_plain_note_text('C', neg, o);
    }
    assert(note_midi(seq!['d'] + t) == Ok::<int, Seq<char>>(base + 2)) by {
        lemma_plain_note_text('d', neg, o);
    }
    assert(note_midi(seq!['D'] + t) == Ok::<int, Seq<char>>(base + 2)) by {
        lemma_plain_note_text('D', neg, o);
    }
    assert(note_midi(seq!['e'] + t) == Ok::<int, Seq<char>>(base + 4)) by {
        lemma_plain_note_text('e', neg, o);
    }
    assert(note_midi(seq!['E'] + t) == Ok::<int, Seq<char>>(base + 4)) by {
        lemma_plain_note_text('E', neg, o);
    }
    assert(note_midi(seq!['f'] + t) == Ok::<int, Seq<char>>(base + 5)) by {
        lemma_plain_note_text('f', neg, o);
    }
    assert(note_midi(seq!['F'] + t) == Ok::<int, Seq<char>>(base + 5)) by {
        lemma_plain_note_text('F', neg, o);
    }
    assert(note_midi(seq!['g'] + t) == Ok::<int, Seq<char>>(base + 7)) by {
        lemma_plain_note_text('g', neg, o);
    }
    assert(note_midi(seq!['G'] + t) == Ok::<int, Seq<char>>(base + 7)) by {
        lemma_plain_note_text('G', neg, o);
    }
    assert(note_midi(seq!['a'] + t) == Ok::<int, Seq<char>>(base + 9)) by {
        lemma_plain_note_text('a', neg, o);
    }
    assert(note_midi(seq!['A'] + t) == Ok::<int, Seq<char>>(base + 9)) by {
        lemma_plain_note_text('A', neg, o);
    }
    assert(note_midi(seq!['b'] + t) == Ok::<int, Seq<char>>(base + 11)) by {
        lemma_plain_note_text('b', neg, o);
    }
    assert(note_midi(seq!['B'] + t) == Ok::<int, Seq<char>>(base + 11)) by {
        lemma_plain_note_text('B', neg, o);
    }
}

/// [`lemma_note_text`] without an accidental.
proof fn lemma_plain_note_text(c: char, neg: bool, o: nat)
    requires
        !is_white_space(c),
        i32::MIN <= (octave_value(neg, o) + 1) * 12 - 1,
        (octave_value(neg, o) + 1) * 12 + 12 <= i32::MAX,
    ensures
        note_midi(seq![c] + octave_text(neg, o)) == (match letter_semitone(ascii_lower(c)) {
            Some(b) => Ok::<int, Seq<char>>((octave_value(neg, o) + 1) * 12 + b),
            None => Err(bad_letter_msg(c, seq![c] + octave_text(neg, o))),
        }),
{
    let e = Seq::<char>::empty();
    assert(seq![c] + e =~= seq![c]);
    lemma_note_text(c, e, neg, o);
}

/// Accidentals move a note by a semitone: whenever a letter followed by an
/// octave (written in decimal, with or without a minus sign) denotes the note
/// `m`, the same with `#` or `s` after the letter denotes `m + 1`, and with `b`
/// after it `m - 1`.
pub proof fn lemma_note_accidentals(c: char, neg: bool, o: nat, m: int)
    requires
        note_midi(seq![c] + octave_text(neg, o)) == Ok::<int, Seq<char>>(m),
        i32::MIN <= (octave_value(neg, o) + 1) * 12 - 1,
        (octave_value(neg, o) + 1) * 12 + 12 <= i32::MAX,
    ensures
        note_midi(seq![c, '#'] + octave_text(neg, o)) == Ok::<int, Seq<char>>(m + 1),
        note_midi(seq![c, 's'] + octave_text(neg, o)) == Ok::<int, Seq<char>>(m + 1),
        note_midi(seq![c, 'b'] + octave_text(neg, o)) == Ok::<int, Seq<char>>(m - 1),
{
    let t = octave_text(neg, o);
    let e = Seq::<char>::empty();
    assert(seq![c] + e =~= seq![c]);
    assert(seq![c] + seq!['#'] =~= seq![c, '#']);
    assert(seq![c] + seq!['s'] =~= seq![c, 's']);
    assert(seq![c] + seq!['b'] =~= seq![c, 'b']);
    if is_white_space(c) {
        // A blank is trimmed away, and what is left starts with no letter.
        let d = decimal(o);
        lemma_decimal_digits(o);
        assert((seq![c] + t).drop_first() =~= t);
        assert(t.last() == d.last());
        assert(is_digit(d[d.len() - 1]));
        if !neg {
            assert(is_digit(d[0]));
        }
        assert(trim_start(t) == t);
        assert(trim_end(t) == t);
        assert(trim(seq![c] + t) == t);
        assert(note_midi(seq![c] + t) is Err);
    }
    lemma_note_text(c, e, neg, o);
    lemma_note_text(c, seq!['#'], neg, o);
    lemma_note_text(c, seq!['s'], neg, o);
    lemma_note_text(c, seq!['b'], neg, o);
}

/// Semitones above C of the letter `c` in either case.
fn letter_base(c: char) -> (r: Option<i64>)
    ensures
        r == (match letter_semitone(ascii_lower(c)) {
            Some(v) => Some(v as i64),
            None => None,
        }),
{
    let u = c as u32;
    let l = if 65 <= u && u <= 90 { u + 32 } else { u };
    if l == 99 {
        Some(0)
    } else if l == 100 {
        Some(2)
    } else if l == 101 {
        Some(4)
    } else if l == 102 {
        Some(5)
    } else if l == 103 {
        Some(7)
    } else if l == 97 {
        Some(9)
    } else if l == 98 {
        Some(11)
    } else {
        None
    }
}

/// Parses the note name held in `raw` (see [`note_midi`]).
pub fn parse_note_chars(raw: &[char]) -> (r: Result<Note, String>)
    ensures
        r matches Ok(n) ==> note_midi(raw@) == Ok::<int, Seq<char>>(n.midi as int),
        r matches Err(m) ==> note_midi(raw@) == Err::<int, Seq<char>>(m@),
{
    let s = trim_chars(raw);
    if s.len() == 0 {
        return Err(String::from_str("empty note"));
    }
    let letter = s[0];
    let base = match letter_base(letter) {
        Some(b) => b,
        None => {
            let mut m = String::from_str("bad note letter '");
            push_char(&mut m, letter);
            m.append("' in \"");
            push_chars(&mut m, s.as_slice());
            m.append("\"");
            assert(m@ =~= bad_letter_msg(letter, s@));
            return Err(m);
        },
    };
    let (shift, from): (i64, usize) = if s.len() > 1 && (s[1] == '#' || s[1] == 's') {
        (1, 2)
    } else if s.len() > 1 && s[1] == 'b' {
        (-1, 2)
    } else {
        (0, 1)
    };
    let octave = parse_i32(s.as_slice(), from);
    let midi: i64 = match octave {
        Ok(o) => (o as i64 + 1) * 12 + base + shift,
        Err(_) => i64::MAX,
    };
    if octave.is_err() || midi < i32::MIN as i64 || midi > i32::MAX as i64 {
        let mut m = String::from_str("bad octave in note \"");
        push_chars(&mut m, s.as_slice());
        m.append("\"");
        return Err(m);
    }
    Ok(Note { midi: midi as i32 })
}

impl Note {
    pub fn from_midi(midi: i32) -> (n: Note)
        ensures
            n.midi == midi,
    {
        Note { midi }
    }

    /// Parse scientific names: `c4` = 60, `a4` = 69. Accidentals: `#`/`s`
    /// (sharp) or `b` (flat) — e.g. `eb5`, `f#3`, `bb2`. Negative octaves OK.
    /// An octave whose note number does not fit an `i32` is a bad octave.
    pub fn parse(s: &str) -> (r: Result<Note, String>)
        ensures
            r matches Ok(n) ==> note_midi(s@) == Ok::<int, Seq<char>>(n.midi as int),
            r matches Err(m) ==> note_midi(s@) == Err::<int, Seq<char>>(m@),
    {
        let v = chars_of(s);
        parse_note_chars(v.as_slice())
    }
}

// ---------------------------------------------------------------------------
// Lanes
// ---------------------------------------------------------------------------

/// One tracker cell (= one row in a lane).
#[derive(Clone, Copy, Debug, PartialEq, Eq, Structural)]
pub enum Cell {
    /// A pitch — note-on in a melodic lane.
    Note(Note),
    /// `x` (normal) or `X` (accented) — a hit, or gate-open.
    Hit { accent: bool },
    /// `.` — a ghost/quiet cell, or "sustain/continue" in a melodic lane.
    GhostNote,
    /// `-` — silence / rest / gate-closed.
    Off,
}

/// The cell that a symbol character stands for.
pub open spec fn symbol_cell(c: char) -> Option<Cell> {
    if c == 'x' {
        Some(Cell::Hit { accent: false })
    } else if c == 'X' {
        Some(Cell::Hit { accent: true })
    } else if c == '.' {
        Some(Cell::GhostNote)
    } else if c == '-' {
        Some(Cell::Off)
    } else {
        None
    }
}

pub open spec fn unexpected_symbol_msg(c: char) -> Seq<char> {
    "unexpected symbol '"@ + seq![c] + "'"@
}

/// The cells of a symbol token, one per character, or the message for its
/// first character that is no symbol.
pub open spec fn symbol_cells(t: Seq<char>) -> Result<Seq<Cell>, Seq<char>>
    decreases t.len(),
{
    if t.len() == 0 {
        Ok(Seq::empty())
    } else {
        match symbol_cells(t.drop_last()) {
            Err(e) => Err(e),
            Ok(cs) => match symbol_cell(t.last()) {
                Some(c) => Ok(cs.push(c)),
                None => Err(unexpected_symbol_msg(t.last())),
            },
        }
    }
}

/// A token of tracker symbols reads one cell per symbol, in order: `x` a
/// hit, `X` an accented hit, `.` a ghost note and `-` a rest.
pub proof fn lemma_symbol_token_cells(t: Seq<char>)
    requires
        forall|k: int|
            0 <= k < t.len() ==> #[trigger] t[k] == 'x' || t[k] == 'X' || t[k] == '.' || t[k]
                == '-',
    ensures
        token_cells(t) is Ok,
        token_cells(t)->Ok_0.len() == t.len(),
        forall|k: int|
            0 <= k < t.len() ==> {
                let c = #[trigger] token_cells(t)->Ok_0[k];
                &&& t[k] == 'x' ==> c == Cell::Hit { accent: false }
                &&& t[k] == 'X' ==> c == Cell::Hit { accent: true }
                &&& t[k] == '.' ==> c == Cell::GhostNote
                &&& t[k] == '-' ==> c == Cell::Off
            },
    decreases t.len(),
{
    assert(!has_digit(t)) by {
        if has_digit(t) {
            let i = choose|i: int| 0 <= i < t.len() && is_digit(#[trigger] t[i]);
            assert(t[i] == 'x' || t[i] == 'X' || t[i] == '.' || t[i] == '-');
        }
    }
    if t.len() > 0 {
        let u = t.drop_last();
        assert forall|k: int| 0 <= k < u.len() implies #[trigger] u[k] == 'x' || u[k] == 'X' || u[k]
            == '.' || u[k] == '-' by {
            assert(u[k] == t[k]);
        }
        lemma_symbol_token_cells(u);
        assert(!has_digit(u)) by {
            if has_digit(u) {
                let i = choose|i: int| 0 <= i < u.len() && is_digit(#[trigger] u[i]);
                assert(u[i] == t[i]);
            }
        }
        let last = t.len() - 1;
        assert(t[last] == 'x' || t[last] == 'X' || t[last] == '.' || t[last] == '-');
        let cs = token_cells(u)->Ok_0;
        assert forall|k: int| 0 <= k < t.len() implies {
            let c = #[trigger] token_cells(t)->Ok_0[k];
            &&& t[k] == 'x' ==> c == Cell::Hit { accent: false }
            &&& t[k] == 'X' ==> c == Cell::Hit { accent: true }
            &&& t[k] == '.' ==> c == Cell::GhostNote
            &&& t[k] == '-' ==> c == Cell::Off
        } by {
            if k < u.len() {
                assert(u[k] == t[k]);
                assert(token_cells(t)->Ok_0[k] == cs[k]);
            }
        }
    }
}

pub open spec fn has_digit(t: Seq<char>) -> bool {
    exists|i: int| 0 <= i < t.len() && is_digit(#[trigger] t[i])
}

/// The cells of one whitespace-free token: a token with a digit is one note,
/// any other token is read character by character.
pub open spec fn token_cells(t: Seq<char>) -> Result<Seq<Cell>, Seq<char>> {
    if has_digit(t) {
        match note_midi(t) {
            Ok(m) => Ok(seq![Cell::Note(Note { midi: m as i32 })]),
            Err(e) => Err(e),
        }
    } else {
        symbol_cells(t)
    }
}

/// `cells` followed by what `rest` holds, or the error of `rest`.
pub open spec fn prepend_cells(cells: Seq<Cell>, rest: Result<Seq<Cell>, Seq<char>>) -> Result<
    Seq<Cell>,
    Seq<char>,
> {
    match rest {
        Ok(r) => Ok(cells + r),
        Err(e) => Err(e),
    }
}

/// The cells of a sequence of tokens, or the first token's error.
pub open spec fn cells_of_words(ws: Seq<Seq<char>>) -> Result<Seq<Cell>, Seq<char>>
    decreases ws.len(),
{
    if ws.len() == 0 {
        Ok(Seq::empty())
    } else {
        match token_cells(ws[0]) {
            Err(e) => Err(e),
            Ok(c) => prepend_cells(c, cells_of_words(ws.drop_first())),
        }
    }
}

/// The cells of a lane string: its whitespace-separated tokens in order.
pub open spec fn lane_cells(s: Seq<char>) -> Result<Seq<Cell>, Seq<char>> {
    cells_of_words(words(s))
}

proof fn lemma_prepend_assoc(a: Seq<Cell>, b: Seq<Cell>, r: Result<Seq<Cell>, Seq<char>>)
    ensures
        prepend_cells(a, prepend_cells(b, r)) == prepend_cells(a + b, r),
{
    if let Ok(x) = r {
        assert(a + (b + x) =~= (a + b) + x);
    }
}

/// The cells of the symbol token `t`.
fn symbol_token_cells(t: &[char]) -> (r: Result<Vec<Cell>, String>)
    ensures
        r matches Ok(cs) ==> symbol_cells(t@) == Ok::<Seq<Cell>, Seq<char>>(cs@),
        r matches Err(m) ==> symbol_cells(t@) == Err::<Seq<Cell>, Seq<char>>(m@),
{
    let mut cells: Vec<Cell> = Vec::new();
    let mut i: usize = 0;
    assert(t@.take(0) =~= Seq::<char>::empty());
    while i < t.len()
        invariant
            i <= t.len(),
            symbol_cells(t@.take(i as int)) == Ok::<Seq<Cell>, Seq<char>>(cells@),
        decreases t.len() - i,
    {
        let ch = t[i];
        assert(t@.take(i + 1).drop_last() == t@.take(i as int));
        assert(t@.take(i + 1).last() == ch);
        let cell = if ch == 'x' {
            Cell::Hit { accent: false }
        } else if ch == 'X' {
            Cell::Hit { accent: true }
        } else if ch == '.' {
            Cell::GhostNote
        } else if ch == '-' {
            Cell::Off
        } else {
            let mut m = String::from_str("unexpected symbol '");
            push_char(&mut m, ch);
            m.append("'");
            proof {
                assert(m@ =~= unexpected_symbol_msg(ch));
                lemma_symbol_err_persists(t@, i + 1);
            }
            return Err(m);
        };
        cells.push(cell);
        i = i + 1;
    }
    assert(t@.take(i as int) == t@);
    Ok(cells)
}

proof fn lemma_symbol_err_persists(t: Seq<char>, n: int)
    requires
        0 <= n <= t.len(),
        symbol_cells(t.take(n)) is Err,
    ensures
        symbol_cells(t) == symbol_cells(t.take(n)),
    decreases t.len() - n,
{
    if n < t.len() {
        assert(t.take(n + 1).drop_last() == t.take(n));
        lemma_symbol_err_persists(t, n + 1);
    } else {
        assert(t.take(n) == t);
    }
}

/// The cells of one whitespace-free token.
fn token_cells_exec(t: &[char]) -> (r: Result<Vec<Cell>, String>)
    ensures
        r matches Ok(cs) ==> token_cells(t@) == Ok::<Seq<Cell>, Seq<char>>(cs@),
        r matches Err(m) ==> token_cells(t@) == Err::<Seq<Cell>, Seq<char>>(m@),
{
    let mut digit = false;
    let mut i: usize = 0;
    while i < t.len()
        invariant
            i <= t.len(),
            digit == (exists|k: int| 0 <= k < i && is_digit(#[trigger] t@[k])),
        decreases t.len() - i,
    {
        if is_ascii_digit(t[i]) {
            digit = true;
        }
        i = i + 1;
    }
    if digit {
        match parse_note_chars(t) {
            Ok(n) => {
                let mut v: Vec<Cell> = Vec::new();
                v.push(Cell::Note(n));
                assert(v@ =~= seq![Cell::Note(Note { midi: n.midi as int as i32 })]);
                Ok(v)
            },
            Err(m) => Err(m),
        }
    } else {
        symbol_token_cells(t)
    }
}

/// Tokenise a lane string into one [`Cell`] per row.
///
/// Whitespace separates tokens (and is otherwise free for visual bar grouping).
/// A token containing a digit is one note cell (`eb5`); any other token is read
/// char-by-char (`X-x-` → four cells), so symbol lanes and note lanes share one
/// syntax.
pub fn parse_lane(s: &str) -> (r: Result<Vec<Cell>, String>)
    ensures
        r matches Ok(cs) ==> lane_cells(s@) == Ok::<Seq<Cell>, Seq<char>>(cs@),
        r matches Err(m) ==> lane_cells(s@) == Err::<Seq<Cell>, Seq<char>>(m@),
{
    let v = chars_of(s);
    parse_lane_chars(v.as_slice())
}

/// [`parse_lane`] on the characters of a lane string.
pub fn parse_lane_chars(v: &[char]) -> (r: Result<Vec<Cell>, String>)
    ensures
        r matches Ok(cs) ==> lane_cells(v@) == Ok::<Seq<Cell>, Seq<char>>(cs@),
        r matches Err(m) ==> lane_cells(v@) == Err::<Seq<Cell>, Seq<char>>(m@),
{
    let mut cells: Vec<Cell> = Vec::new();
    let mut i: usize = 0;
    assert(v@.skip(0) == v@);
    assert(cells@ + Seq::<Cell>::empty() =~= cells@);
    while i < v.len()
        invariant
            i <= v.len(),
            lane_cells(v@) == prepend_cells(cells@, cells_of_words(words(v@.skip(i as int)))),
        decreases v.len() - i,
    {
        let ghost rest = v@.skip(i as int);
        if is_whitespace(v[i]) {
            assert(rest.drop_first() == v@.skip(i + 1));
            i = i + 1;
        } else {
            let mut j = i;
            while j < v.len() && !is_whitespace(v[j])
                invariant
                    i <= j <= v.len(),
                    forall|k: int| i <= k < j ==> !is_white_space(#[trigger] v@[k]),
                decreases v.len() - j,
            {
                j = j + 1;
            }
            let token = sub_chars(v, i, j);
            proof {
                lemma_word_len_at(v@, i as int, j as int);
                lemma_word_len_bound(rest);
                assert(rest.take(word_len(rest) as int) == token@);
                assert(rest.skip(word_len(rest) as int) == v@.skip(j as int));
                assert(words(rest) == seq![token@] + words(v@.skip(j as int)));
                assert((seq![token@] + words(v@.skip(j as int))).drop_first() == words(
                    v@.skip(j as int),
                ));
            }
            match token_cells_exec(token.as_slice()) {
                Err(m) => {
                    return Err(m);
                },
                Ok(cs) => {
                    proof {
                        lemma_prepend_assoc(cells@, cs@, cells_of_words(words(v@.skip(j as int))));
                    }
                    let mut k: usize = 0;
                    let ghost before = cells@;
                    while k < cs.len()
                        invariant
                            k <= cs.len(),
                            cells@ == before + cs@.take(k as int),
                        decreases cs.len() - k,
                    {
                        cells.push(cs[k]);
                        assert(cs@.take(k + 1) == cs@.take(k as int).push(cs@[k as int]));
                        k = k + 1;
                    }
                    assert(cs@.take(k as int) == cs@);
                },
            }
            i = j;
        }
    }
    assert(v@.skip(i as int) =~= Seq::<char>::empty());
    assert(words(v@.skip(i as int)) =~= Seq::<Seq<char>>::empty());
    assert(cells@ + Seq::<Cell>::empty() =~= cells@);
    Ok(cells)
}

// ---------------------------------------------------------------------------
// Patterns and the play order
// ---------------------------------------------------------------------------

/// A lane of a pattern: its name and its lane string.
pub type LaneDef = (&'static str, &'static str);

/// (name, tempo-override-bpm [0 = use the song's global tempo], lanes).
/// A per-pattern tempo lets a breakdown literally drop to half-time, the way a
/// real metalcore/deathcore breakdown does.
pub type PatternDef = (&'static str, u32, &'static [LaneDef]);

/// A parsed lane: its name and one cell per row.
pub struct Lane {
    pub name: &'static str,
    pub cells: Vec<Cell>,
}

/// One entry of the play order, parsed: the pattern's tempo override (0 = the
/// song's tempo), its length in rows (that of its longest lane) and its lanes.
pub struct Section {
    pub tempo: u32,
    pub rows: u64,
    pub lanes: Vec<Lane>,
}

/// The index of the first pattern called `name`.
pub open spec fn find_pattern(ps: Seq<PatternDef>, name: Seq<char>) -> Option<int>
    decreases ps.len(),
{
    if ps.len() == 0 {
        None
    } else if ps[0].0@ == name {
        Some(0)
    } else {
        match find_pattern(ps.drop_first(), name) {
            Some(k) => Some(k + 1),
            None => None,
        }
    }
}

pub open spec fn unknown_pattern_msg(name: Seq<char>) -> Seq<char> {
    "sequence references unknown pattern \""@ + name + "\""@
}

pub open spec fn lane_error_msg(pattern: Seq<char>, lane: Seq<char>, e: Seq<char>) -> Seq<char> {
    "pattern \""@ + pattern + "\" lane \""@ + lane + "\": "@ + e
}

/// The message for the first lane of `lanes` that does not parse.
pub open spec fn lanes_error(pattern: Seq<char>, lanes: Seq<LaneDef>) -> Option<Seq<char>>
    decreases lanes.len(),
{
    if lanes.len() == 0 {
        None
    } else {
        match lane_cells(lanes[0].1@) {
            Err(e) => Some(lane_error_msg(pattern, lanes[0].0@, e)),
            Ok(_) => lanes_error(pattern, lanes.drop_first()),
        }
    }
}

/// What is wrong with the play-order entry `name`, if anything.
pub open spec fn entry_error(ps: Seq<PatternDef>, name: Seq<char>) -> Option<Seq<char>> {
    match find_pattern(ps, name) {
        None => Some(unknown_pattern_msg(name)),
        Some(k) => lanes_error(name, ps[k].2@),
    }
}

/// The error of the first entry of the play order that has one.
pub open spec fn arrange_error(ps: Seq<PatternDef>, order: Seq<&'static str>) -> Option<Seq<char>>
    decreases order.len(),
{
    if order.len() == 0 {
        None
    } else {
        match entry_error(ps, order[0]@) {
            Some(e) => Some(e),
            None => arrange_error(ps, order.drop_first()),
        }
    }
}

/// The number of cells of the longest lane (0 without lanes).
pub open spec fn max_rows(lanes: Seq<Lane>) -> nat
    decreases lanes.len(),
{
    if lanes.len() == 0 {
        0
    } else {
        let m = max_rows(lanes.drop_last());
        let c = lanes.last().cells@.len();
        if c > m {
            c
        } else {
            m
        }
    }
}

/// `sec` is the parsed form of the first pattern called `name`.
pub open spec fn section_of(ps: Seq<PatternDef>, name: Seq<char>, sec: Section) -> bool {
    match find_pattern(ps, name) {
        None => false,
        Some(k) => {
            &&& sec.tempo == ps[k].1
            &&& sec.lanes@.len() == ps[k].2@.len()
            &&& forall|j: int|
                0 <= j < sec.lanes@.len() ==> {
                    &&& (#[trigger] sec.lanes@[j]).name == ps[k].2@[j].0
                    &&& lane_cells(ps[k].2@[j].1@) == Ok::<Seq<Cell>, Seq<char>>(
                        sec.lanes@[j].cells@,
                    )
                }
            &&& sec.rows == max_rows(sec.lanes@)
        },
    }
}

/// The index of the first pattern called `name`.
fn find_pattern_exec(patterns: &[PatternDef], name: &[char]) -> (r: Option<usize>)
    ensures
        r matches Some(k) ==> k < patterns.len() && find_pattern(patterns@, name@) == Some(k as int),
        r is None ==> find_pattern(patterns@, name@) is None,
{
    let mut k: usize = 0;
    assert(patterns@.skip(0) == patterns@);
    while k < patterns.len()
        invariant
            k <= patterns.len(),
            find_pattern(patterns@, name@) == (match find_pattern(patterns@.skip(k as int), name@) {
                Some(x) => Some(x + k),
                None => None,
            }),
        decreases patterns.len() - k,
    {
        let pname = chars_of(patterns[k].0);
        let ghost rest = patterns@.skip(k as int);
        assert(rest[0] == patterns@[k as int]);
        assert(rest.drop_first() == patterns@.skip(k + 1));
        if chars_eq(pname.as_slice(), name) {
            return Some(k);
        }
        k = k + 1;
    }
    None
}

/// `a`, then `b`, then `c`, as one string.
fn join3(a: &str, b: &[char], c: &str) -> (s: String)
    ensures
        s@ == a@ + b@ + c@,
{
    let mut s = String::from_str(a);
    push_chars(&mut s, b);
    s.append(c);
    s
}

/// Resolve the play order against the patterns and parse every lane of every
/// entry: the part of compiling a song that precedes placing events on frames.
///
/// Fails with the first entry, in play order, that names no pattern or whose
/// pattern has a lane that does not parse (its first such lane).
#[verifier::loop_isolation(false)]
pub fn arrange(patterns: &[PatternDef], sequence: &[&'static str]) -> (r: Result<Vec<Section>, String>)
    ensures
        r matches Err(m) ==> arrange_error(patterns@, sequence@) == Some(m@),
        r matches Ok(secs) ==> {
            &&& arrange_error(patterns@, sequence@) is None
            &&& secs@.len() == sequence@.len()
            &&& forall|k: int|
                0 <= k < secs@.len() ==> section_of(patterns@, sequence@[k]@, #[trigger] secs@[k])
            &&& forall|k: int, j: int|
                0 <= k < secs@.len() && 0 <= j < secs@[k].lanes@.len() ==> (
                #[trigger] secs@[k].lanes@[j]).cells@.len() <= secs@[k].rows
            &&& forall|k: int|
                0 <= k < secs@.len() ==> (#[trigger] secs@[k]).rows == 0 || exists|j: int|
                    0 <= j < secs@[k].lanes@.len() && #[trigger] secs@[k].lanes@[j].cells@.len()
                        == secs@[k].rows
        },
{
    let mut secs: Vec<Section> = Vec::new();
    let mut i: usize = 0;
    assert(sequence@.skip(0) == sequence@);
    while i < sequence.len()
        invariant
            i <= sequence.len(),
            secs@.len() == i,
            arrange_error(patterns@, sequence@) == arrange_error(patterns@, sequence@.skip(i as int)),
            forall|k: int| 0 <= k < i ==> section_of(patterns@, sequence@[k]@, #[trigger] secs@[k]),
        decreases sequence.len() - i,
    {
        let name = sequence[i];
        let nc = chars_of(name);
        let ghost rest = sequence@.skip(i as int);
        assert(rest[0] == name);
        assert(rest.drop_first() == sequence@.skip(i + 1));
        let k = match find_pattern_exec(patterns, nc.as_slice()) {
            Some(k) => k,
            None => {
                return Err(join3("sequence references unknown pattern \"", nc.as_slice(), "\""));
            },
        };
        let pat = patterns[k];
        let lane_defs = pat.2;
        let mut lanes: Vec<Lane> = Vec::new();
        let mut rows: u64 = 0;
        let mut j: usize = 0;
        assert(lane_defs@.skip(0) == lane_defs@);
        while j < lane_defs.len()
            invariant
                j <= lane_defs.len(),
                lanes@.len() == j,
                lanes_error(nc@, lane_defs@) == lanes_error(nc@, lane_defs@.skip(j as int)),
                forall|q: int|
                    0 <= q < j ==> {
                        &&& (#[trigger] lanes@[q]).name == lane_defs@[q].0
                        &&& lane_cells(lane_defs@[q].1@) == Ok::<Seq<Cell>, Seq<char>>(
                            lanes@[q].cells@,
                        )
                    },
                rows == max_rows(lanes@),
            decreases lane_defs.len() - j,
        {
            let (lane_name, lane_str) = lane_defs[j];
            let ghost lrest = lane_defs@.skip(j as int);
            assert(lrest[0] == lane_defs@[j as int]);
            assert(lrest.drop_first() == lane_defs@.skip(j + 1));
            match parse_lane(lane_str) {
                Err(e) => {
                    let mut m = join3("pattern \"", nc.as_slice(), "\" lane \"");
                    let lc = chars_of(lane_name);
                    push_chars(&mut m, lc.as_slice());
                    m.append("\": ");
                    m.append(e.as_str());
                    assert(m@ =~= lane_error_msg(nc@, lane_name@, e@));
                    return Err(m);
                },
                Ok(cells) => {
                    let n = cells.len() as u64;
                    let ghost before = lanes@;
                    lanes.push(Lane { name: lane_name, cells });
                    assert(lanes@.drop_last() == before);
                    if n > rows {
                        rows = n;
                    }
                },
            }
            j = j + 1;
        }
        assert(lane_defs@.skip(j as int) =~= Seq::<LaneDef>::empty());
        let ghost before = secs@;
        secs.push(Section { tempo: pat.1, rows, lanes });
        assert(forall|q: int| 0 <= q < i ==> secs@[q] == before[q]);
        i = i + 1;
    }
    assert(sequence@.skip(i as int) =~= Seq::<&'static str>::empty());
    proof {
        assert forall|k: int| 0 <= k < secs@.len() implies {
            &&& forall|j: int|
                0 <= j < secs@[k].lanes@.len() ==> (#[trigger] secs@[k].lanes@[j]).cells@.len()
                    <= secs@[k].rows
            &&& (secs@[k].rows == 0 || exists|j: int|
                0 <= j < secs@[k].lanes@.len() && #[trigger] secs@[k].lanes@[j].cells@.len()
                    == secs@[k].rows)
        } by {
            lemma_section_rows_longest_lane(patterns@, sequence@[k]@, secs@[k]);
        }
    }
    Ok(secs)
}

/// A section is as long as its longest lane: no lane has more cells than the
/// section has rows, a section without lanes has none, and otherwise some lane
/// has exactly as many cells as the section has rows.
pub proof fn lemma_section_rows_longest_lane(ps: Seq<PatternDef>, name: Seq<char>, sec: Section)
    requires
        section_of(ps, name, sec),
    ensures
        forall|j: int| 0 <= j < sec.lanes@.len() ==> #[trigger] sec.lanes@[j].cells@.len() <= sec.rows,
        sec.lanes@.len() == 0 ==> sec.rows == 0,
        sec.lanes@.len() > 0 ==> exists|j: int|
            0 <= j < sec.lanes@.len() && #[trigger] sec.lanes@[j].cells@.len() == sec.rows,
{
    lemma_max_rows_longest(sec.lanes@);
}

/// `max_rows` is the cell count of the longest lane.
proof fn lemma_max_rows_longest(lanes: Seq<Lane>)
    ensures
        forall|j: int| 0 <= j < lanes.len() ==> #[trigger] lanes[j].cells@.len() <= max_rows(lanes),
        lanes.len() == 0 ==> max_rows(lanes) == 0,
        lanes.len() > 0 ==> exists|j: int|
            0 <= j < lanes.len() && #[trigger] lanes[j].cells@.len() == max_rows(lanes),
    decreases lanes.len(),
{
    if lanes.len() > 0 {
        let u = lanes.drop_last();
        lemma_max_rows_longest(u);
        assert forall|j: int| 0 <= j < lanes.len() implies #[trigger] lanes[j].cells@.len() <= max_rows(
            lanes,
        ) by {
            if j < u.len() {
                assert(lanes[j] == u[j]);
            }
        }
        let last = lanes.len() - 1;
        if lanes.last().cells@.len() > max_rows(u) || u.len() == 0 {
            assert(lanes[last].cells@.len() == max_rows(lanes));
        } else {
            let j = choose|j: int| 0 <= j < u.len() && #[trigger] u[j].cells@.len() == max_rows(u);
            assert(lanes[j] == u[j]);
            assert(lanes[j].cells@.len() == max_rows(lanes));
        }
    }
}

// ---------------------------------------------------------------------------
// The timeline
// ---------------------------------------------------------------------------

/// A resolved event in the song timeline.
#[derive(Clone, Copy, Debug)]
pub struct Event {
    pub frame: u64,
    pub lane: &'static str,
    pub cell: Cell,
}

/// Whether an event sits at frame `f`.
pub open spec fn frame_is(f: u64) -> spec_fn(Event) -> bool {
    |e: Event| e.frame == f
}

/// Whether an event's frame lies in `lo..hi`.
pub open spec fn frame_in(lo: int, hi: int) -> spec_fn(Event) -> bool {
    |e: Event| lo <= e.frame && e.frame < hi
}

/// Events in order of their frames.
pub open spec fn sorted_by_frame(s: Seq<Event>) -> bool {
    forall|i: int, j: int| 0 <= i <= j < s.len() ==> #[trigger] s[i].frame <= #[trigger] s[j].frame
}

/// `out` is `input` sorted by frame, events of one frame keeping their order
/// (a stable sort by the frame key).
pub open spec fn stable_sort_of(out: Seq<Event>, input: Seq<Event>) -> bool {
    &&& sorted_by_frame(out)
    &&& forall|f: u64| #[trigger] out.filter(frame_is(f)) == input.filter(frame_is(f))
}

/// Parsed timeline: events sorted by frame, queryable per render block.
pub struct CompiledSong {
    events: Vec<Event>,
    duration: u64,
}

impl CompiledSong {
    /// The events of the timeline, in order.
    pub closed spec fn timeline(&self) -> Seq<Event> {
        self.events@
    }

    /// The song's length in frames.
    pub closed spec fn length(&self) -> u64 {
        self.duration
    }

    /// Whether the timeline is in frame order.
    pub open spec fn wf(&self) -> bool {
        sorted_by_frame(self.timeline())
    }

    /// The events whose frame lies in `[start, start + num)` (the end taken as
    /// an integer, which may lie past `u64::MAX`).
    pub open spec fn block(&self, start: u64, num: u64) -> Seq<Event> {
        self.timeline().filter(frame_in(start as int, start + num))
    }

    /// A timeline of `events`, stably sorted by frame, lasting `duration` frames.
    pub fn new(events: Vec<Event>, duration: u64) -> (song: CompiledSong)
        ensures
            song.wf(),
            stable_sort_of(song.timeline(), events@),
            song.length() == duration,
    {
        let sorted = sort_by_frame(events);
        CompiledSong { events: sorted, duration }
    }

    pub fn duration_frames(&self) -> (d: u64)
        ensures
            d == self.length(),
    {
        self.duration
    }

    pub fn events(&self) -> (es: &[Event])
        ensures
            es@ == self.timeline(),
    {
        self.events.as_slice()
    }

    /// Events whose frame is in `[start, start + num)`. The cartridge decides
    /// what each lane's cells mean (note-on, gate, trigger, …).
    pub fn events_in_range(&self, start: u64, num: u64) -> (r: Vec<Event>)
        requires
            self.wf(),
        ensures
            r@ == self.block(start, num),
    {
        let ghost t = self.events@;
        let ghost end: int = start + num;
        // First event at or after `start` (a partition point, by bisection).
        let mut lo: usize = 0;
        let mut hi: usize = self.events.len();
        while lo < hi
            invariant
                t == self.events@,
                sorted_by_frame(t),
                0 <= lo <= hi <= t.len(),
                forall|k: int| 0 <= k < lo ==> #[trigger] t[k].frame < start,
                forall|k: int| hi <= k < t.len() ==> #[trigger] t[k].frame >= start,
            decreases hi - lo,
        {
            let mid = lo + (hi - lo) / 2;
            if self.events[mid].frame < start {
                lo = mid + 1;
            } else {
                hi = mid;
            }
        }
        let mut out: Vec<Event> = Vec::new();
        let mut i = lo;
        while i < self.events.len() && self.events[i].frame - start < num
            invariant
                t == self.events@,
                sorted_by_frame(t),
                lo <= i <= t.len(),
                end == start + num,
                forall|k: int| 0 <= k < lo ==> #[trigger] t[k].frame < start,
                forall|k: int| lo <= k < t.len() ==> #[trigger] t[k].frame >= start,
                forall|k: int| lo <= k < i ==> #[trigger] t[k].frame < end,
                out@ == t.subrange(lo as int, i as int),
            decreases t.len() - i,
        {
            out.push(self.events[i]);
            assert(t.subrange(lo as int, i + 1) == t.subrange(lo as int, i as int).push(t[i as int]));
            i = i + 1;
        }
        proof {
            lemma_filter_window(t, lo as int, i as int, start as int, end);
        }
        out
    }
}

/// Consecutive render blocks see every event exactly once: the events of
/// `[start, start + a)` followed by those of `[start + a, start + a + b)` are the
/// events of `[start, start + a + b)`.
pub proof fn lemma_consecutive_blocks(song: &CompiledSong, start: u64, a: u64, b: u64)
    requires
        song.wf(),
        start + a <= u64::MAX,
        a + b <= u64::MAX,
    ensures
        song.block(start, a) + song.block((start + a) as u64, b) == song.block(start, (a + b) as u64),
{
    lemma_split_window(song.timeline(), start as int, start + a, start + a + b);
}

/// In a sorted sequence, a frame window splits into its two halves.
proof fn lemma_split_window(t: Seq<Event>, lo: int, mid: int, hi: int)
    requires
        sorted_by_frame(t),
        lo <= mid <= hi,
    ensures
        t.filter(frame_in(lo, mid)) + t.filter(frame_in(mid, hi)) == t.filter(frame_in(lo, hi)),
    decreases t.len(),
{
    reveal(Seq::filter);
    if t.len() > 0 {
        let u = t.drop_last();
        let x = t.last();
        assert(sorted_by_frame(u)) by {
            assert(forall|k: int| 0 <= k < u.len() ==> #[trigger] u[k] == t[k]);
        }
        lemma_split_window(u, lo, mid, hi);
        let p = u.filter(frame_in(lo, mid));
        let q = u.filter(frame_in(mid, hi));
        if lo <= x.frame < mid {
            assert forall|k: int| 0 <= k < u.len() implies !frame_in(mid, hi)(#[trigger] u[k]) by {
                assert(u[k] == t[k]);
                assert(t[k].frame <= t[t.len() - 1].frame);
            }
            lemma_filter_nothing(u, mid, hi);
            assert(q =~= Seq::<Event>::empty());
            assert(p.push(x) + q =~= (p + q).push(x));
        } else if mid <= x.frame < hi {
            assert(p + q.push(x) =~= (p + q).push(x));
        }
    } else {
        assert(t.filter(frame_in(lo, mid)) + t.filter(frame_in(mid, hi)) =~= t.filter(frame_in(lo, hi)));
    }
}

/// A sequence none of whose events lies in a window has nothing in it.
proof fn lemma_filter_nothing(u: Seq<Event>, lo: int, hi: int)
    requires
        forall|k: int| 0 <= k < u.len() ==> !frame_in(lo, hi)(#[trigger] u[k]),
    ensures
        u.filter(frame_in(lo, hi)).len() == 0,
    decreases u.len(),
{
    reveal(Seq::filter);
    if u.len() > 0 {
        assert(forall|k: int| 0 <= k < u.drop_last().len() ==> #[trigger] u.drop_last()[k] == u[k]);
        lemma_filter_nothing(u.drop_last(), lo, hi);
        assert(!frame_in(lo, hi)(u[u.len() - 1]));
    }
}

/// In a sorted sequence, the events of a frame window are the run between the
/// first event at or after its start and the first event at or after its end.
proof fn lemma_filter_window(t: Seq<Event>, lo: int, hi: int, start: int, end: int)
    requires
        sorted_by_frame(t),
        0 <= lo <= hi <= t.len(),
        forall|k: int| 0 <= k < lo ==> #[trigger] t[k].frame < start,
        forall|k: int| lo <= k < t.len() ==> #[trigger] t[k].frame >= start,
        forall|k: int| lo <= k < hi ==> #[trigger] t[k].frame < end,
        hi < t.len() ==> t[hi].frame >= end,
    ensures
        t.filter(frame_in(start, end)) == t.subrange(lo, hi),
    decreases t.len(),
{
    reveal(Seq::filter);
    let n = t.len() as int;
    if n > 0 {
        let u = t.drop_last();
        let x = t[n - 1];
        assert(forall|k: int| 0 <= k < u.len() ==> #[trigger] u[k] == t[k]);
        if hi == n {
            if lo == n {
                lemma_filter_window(u, n - 1, n - 1, start, end);
                assert(!frame_in(start, end)(x));
                assert(t.subrange(lo, hi) =~= u.subrange(n - 1, n - 1));
            } else {
                lemma_filter_window(u, lo, n - 1, start, end);
                assert(frame_in(start, end)(x));
                assert(t.subrange(lo, hi) =~= u.subrange(lo, n - 1).push(x));
            }
        } else {
            assert(t[hi].frame <= x.frame);
            lemma_filter_window(u, lo, hi, start, end);
            assert(!frame_in(start, end)(x));
            assert(t.subrange(lo, hi) =~= u.subrange(lo, hi));
        }
    } else {
        assert(t.subrange(lo, hi) =~= Seq::<Event>::empty());
    }
}

/// `events` stably sorted by frame (insertion sort).
fn sort_by_frame(events: Vec<Event>) -> (out: Vec<Event>)
    ensures
        stable_sort_of(out@, events@),
{
    let mut out: Vec<Event> = Vec::new();
    let mut i: usize = 0;
    proof {
        reveal(Seq::filter);
        assert(events@.take(0) =~= Seq::<Event>::empty());
    }
    while i < events.len()
        invariant
            i <= events.len(),
            sorted_by_frame(out@),
            forall|f: u64| #[trigger] out@.filter(frame_is(f)) == events@.take(i as int).filter(frame_is(f)),
        decreases events.len() - i,
    {
        let e = events[i];
        let mut p = out.len();
        while p > 0 && out[p - 1].frame > e.frame
            invariant
                p <= out.len(),
                forall|k: int| p <= k < out.len() ==> #[trigger] out@[k].frame > e.frame,
            decreases p,
        {
            p = p - 1;
        }
        let ghost old_out = out@;
        proof {
            assert(forall|k: int| 0 <= k < p ==> #[trigger] old_out[k].frame <= e.frame) by {
                if p > 0 {
                    assert forall|k: int| 0 <= k < p implies #[trigger] old_out[k].frame <= e.frame by {
                        assert(old_out[k].frame <= old_out[p - 1].frame);
                    }
                }
            }
        }
        out.insert(p, e);
        proof {
            lemma_insert_keeps_frames(old_out, p as int, e);
            assert(events@.take(i + 1) == events@.take(i as int).push(e));
            assert forall|f: u64| #[trigger] out@.filter(frame_is(f)) == events@.take(i + 1).filter(frame_is(f)) by {
                reveal(Seq::filter);
                assert(events@.take(i + 1).drop_last() == events@.take(i as int));
            }
        }
        i = i + 1;
    }
    assert(events@.take(i as int) == events@);
    out
}

/// Inserting `e` after every event of its frame or earlier, and before every
/// later one, keeps the order and adds `e` to the end of its frame's run.
proof fn lemma_insert_keeps_frames(s: Seq<Event>, p: int, e: Event)
    requires
        sorted_by_frame(s),
        0 <= p <= s.len(),
        forall|k: int| 0 <= k < p ==> #[trigger] s[k].frame <= e.frame,
        forall|k: int| p <= k < s.len() ==> #[trigger] s[k].frame > e.frame,
    ensures
        sorted_by_frame(s.insert(p, e)),
        forall|f: u64| #[trigger] s.insert(p, e).filter(frame_is(f)) == if f == e.frame {
            s.filter(frame_is(f)).push(e)
        } else {
            s.filter(frame_is(f))
        },
{
    let t = s.insert(p, e);
    assert forall|i: int, j: int| 0 <= i <= j < t.len() implies #[trigger] t[i].frame <= #[trigger] t[j].frame by {
        if i < p && j < p {
        } else if i < p && j == p {
        } else if i < p {
            assert(t[j] == s[j - 1]);
        } else if i == p && j == p {
        } else if i == p {
            assert(t[j] == s[j - 1]);
        } else {
            assert(t[i] == s[i - 1]);
            assert(t[j] == s[j - 1]);
        }
    }
    assert forall|f: u64| #[trigger] t.filter(frame_is(f)) == if f == e.frame {
        s.filter(frame_is(f)).push(e)
    } else {
        s.filter(frame_is(f))
    } by {
        let a = s.take(p);
        let b = s.skip(p);
        assert(t == a + seq![e] + b);
        assert(s == a + b);
        Seq::filter_distributes_over_add(a + seq![e], b, frame_is(f));
        Seq::filter_distributes_over_add(a, seq![e], frame_is(f));
        Seq::filter_distributes_over_add(a, b, frame_is(f));
        reveal(Seq::filter);
        let one = seq![e];
        assert(one.drop_last() =~= Seq::<Event>::empty());
        assert(one.drop_last().filter(frame_is(f)) =~= Seq::<Event>::empty());
        assert(one.last() == e);
        if f == e.frame {
            assert(one.filter(frame_is(f)) =~= seq![e]);
            lemma_filter_none(b, f);
            assert(b.filter(frame_is(f)) =~= Seq::<Event>::empty());
            assert(t.filter(frame_is(f)) =~= s.filter(frame_is(f)).push(e));
        } else {
            assert(one.filter(frame_is(f)) =~= Seq::<Event>::empty());
            assert(t.filter(frame_is(f)) =~= s.filter(frame_is(f)));
        }
    }
}

/// No event of a sequence whose frames all exceed `f` sits at `f`.
proof fn lemma_filter_none(b: Seq<Event>, f: u64)
    requires
        forall|k: int| 0 <= k < b.len() ==> #[trigger] b[k].frame > f,
    ensures
        b.filter(frame_is(f)).len() == 0,
    decreases b.len(),
{
    reveal(Seq::filter);
    if b.len() > 0 {
        lemma_filter_none(b.drop_last(), f);
    }
}

} // verus!
