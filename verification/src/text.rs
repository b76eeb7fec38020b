//! Character-level text helpers shared by the parsers: character vectors,
//! Unicode whitespace, trimming, word splitting and decimal integers.
use vstd::prelude::*;

verus! {

// ---------------------------------------------------------------------------
// Strings and character vectors
// ---------------------------------------------------------------------------

/// The characters of `s`, in order.
pub fn chars_of(s: &str) -> (v: Vec<char>)
    ensures
        v@ == s@,
{
    let mut v: Vec<char> = Vec::new();
    for c in it: s.chars()
        invariant
            v@ == it.seq().take(it.index() as int),
    {
        v.push(c);
    }
    v
}

/// Appends one character to a string by calling `String::push`; trusted to
/// leave the string's characters as before followed by `c`.
#[verifier::external_body]
pub(crate) fn push_char(s: &mut String, c: char)
    ensures
        final(s)@ == old(s)@.push(c),
{
    s.push(c);
}

/// Appends the given characters to `s`.
pub fn push_chars(s: &mut String, cs: &[char])
    ensures
        final(s)@ == old(s)@ + cs@,
{
    let mut i: usize = 0;
    while i < cs.len()
        invariant
            i <= cs.len(),
            s@ == old(s)@ + cs@.take(i as int),
        decreases cs.len() - i,
    {
        push_char(s, cs[i]);
        assert(cs@.take(i + 1) == cs@.take(i as int).push(cs@[i as int]));
        i = i + 1;
    }
    assert(cs@.take(cs.len() as int) == cs@);
}

/// A string holding exactly the given characters.
pub fn string_from_chars(cs: &[char]) -> (s: String)
    ensures
        s@ == cs@,
{
    let mut s = String::new();
    push_chars(&mut s, cs);
    s
}

/// The characters `v[from..to]` as a new vector.
pub fn sub_chars(v: &[char], from: usize, to: usize) -> (r: Vec<char>)
    requires
        from <= to <= v.len(),
    ensures
        r@ == v@.subrange(from as int, to as int),
{
    let mut r: Vec<char> = Vec::new();
    let mut i = from;
    while i < to
        invariant
            from <= i <= to <= v.len(),
            r@ == v@.subrange(from as int, i as int),
        decreases to - i,
    {
        r.push(v[i]);
        assert(v@.subrange(from as int, i + 1) == v@.subrange(from as int, i as int).push(v@[i as int]));
        i = i + 1;
    }
    r
}

/// Whether two character sequences are equal.
pub fn chars_eq(a: &[char], b: &[char]) -> (r: bool)
    ensures
        r == (a@ == b@),
{
    if a.len() != b.len() {
        return false;
    }
    let mut i: usize = 0;
    while i < a.len()
        invariant
            a.len() == b.len(),
            i <= a.len(),
            forall|k: int| 0 <= k < i ==> a@[k] == b@[k],
        decreases a.len() - i,
    {
        if a[i] != b[i] {
            return false;
        }
        i = i + 1;
    }
    assert(a@ =~= b@);
    true
}

// ---------------------------------------------------------------------------
// Whitespace, trimming, words
// ---------------------------------------------------------------------------

/// Unicode `White_Space`, the set that `char::is_whitespace` tests for.
pub open spec fn is_white_space(c: char) -> bool {
    let u = c as u32;
    ||| u == 0x20
    ||| 0x09 <= u <= 0x0d
    ||| u == 0x85
    ||| u == 0xa0
    ||| u == 0x1680
    ||| 0x2000 <= u <= 0x200a
    ||| u == 0x2028
    ||| u == 0x2029
    ||| u == 0x202f
    ||| u == 0x205f
    ||| u == 0x3000
}

/// Whether `c` is Unicode whitespace.
pub fn is_whitespace(c: char) -> (r: bool)
    ensures
        r == is_white_space(c),
{
    let u = c as u32;
    u == 0x20 || (0x09 <= u && u <= 0x0d) || u == 0x85 || u == 0xa0 || u == 0x1680 || (0x2000
        <= u && u <= 0x200a) || u == 0x2028 || u == 0x2029 || u == 0x202f || u == 0x205f || u
        == 0x3000
}

/// `s` without its leading whitespace.
pub open spec fn trim_start(s: Seq<char>) -> Seq<char>
    decreases s.len(),
{
    if s.len() > 0 && is_white_space(s[0]) {
        trim_start(s.drop_first())
    } else {
        s
    }
}

/// `s` without its trailing whitespace.
pub open spec fn trim_end(s: Seq<char>) -> Seq<char>
    decreases s.len(),
{
    if s.len() > 0 && is_white_space(s.last()) {
        trim_end(s.drop_last())
    } else {
        s
    }
}

/// `s` without leading and trailing whitespace (`str::trim`).
pub open spec fn trim(s: Seq<char>) -> Seq<char> {
    trim_end(trim_start(s))
}

proof fn lemma_trim_start_skip(s: Seq<char>, i: int)
    requires
        0 <= i < s.len(),
        is_white_space(s[i]),
        trim_start(s) == trim_start(s.skip(i)),
    ensures
        trim_start(s) == trim_start(s.skip(i + 1)),
{
    assert(s.skip(i).drop_first() == s.skip(i + 1));
}

proof fn lemma_trim_end_take(s: Seq<char>, j: int)
    requires
        0 < j <= s.len(),
        is_white_space(s[j - 1]),
        trim_end(s) == trim_end(s.take(j)),
    ensures
        trim_end(s) == trim_end(s.take(j - 1)),
{
    assert(s.take(j).drop_last() == s.take(j - 1));
}

/// Where `trim_start` cuts `s`.
proof fn lemma_trim_start_cut(s: Seq<char>) -> (i: int)
    ensures
        0 <= i <= s.len(),
        trim_start(s) == s.skip(i),
        forall|k: int| 0 <= k < i ==> is_white_space(#[trigger] s[k]),
        i < s.len() ==> !is_white_space(s[i]),
    decreases s.len(),
{
    if s.len() > 0 && is_white_space(s[0]) {
        let j = lemma_trim_start_cut(s.drop_first());
        assert(s.drop_first().skip(j) =~= s.skip(j + 1));
        assert forall|k: int| 0 <= k < j + 1 implies is_white_space(#[trigger] s[k]) by {
            if k > 0 {
                assert(s[k] == s.drop_first()[k - 1]);
            }
        }
        assert(j + 1 < s.len() ==> s[j + 1] == s.drop_first()[j]);
        j + 1
    } else {
        assert(s.skip(0) =~= s);
        0
    }
}

/// Where `trim_end` cuts `s`.
proof fn lemma_trim_end_cut(s: Seq<char>) -> (j: int)
    ensures
        0 <= j <= s.len(),
        trim_end(s) == s.take(j),
        forall|k: int| j <= k < s.len() ==> is_white_space(#[trigger] s[k]),
        j > 0 ==> !is_white_space(s[j - 1]),
    decreases s.len(),
{
    if s.len() > 0 && is_white_space(s.last()) {
        let u = s.drop_last();
        let j = lemma_trim_end_cut(u);
        assert(u.take(j) =~= s.take(j));
        assert forall|k: int| j <= k < s.len() implies is_white_space(#[trigger] s[k]) by {
            if k < u.len() {
                assert(s[k] == u[k]);
            }
        }
        assert(j > 0 ==> s[j - 1] == u[j - 1]);
        j
    } else {
        assert(s.take(s.len() as int) =~= s);
        s.len() as int
    }
}

/// Trimming takes away the whitespace at both ends and nothing else: what is
/// left neither begins nor ends with whitespace, and it is a run of `s` with
/// only whitespace before and after it.
pub proof fn lemma_trim_strips_blanks(s: Seq<char>)
    ensures
        trim(s).len() > 0 ==> !is_white_space(trim(s)[0]) && !is_white_space(trim(s).last()),
        exists|i: int, j: int|
            {
                &&& 0 <= i <= j <= s.len()
                &&& trim(s) == s.subrange(i, j)
                &&& forall|k: int| 0 <= k < i ==> is_white_space(#[trigger] s[k])
                &&& forall|k: int| j <= k < s.len() ==> is_white_space(#[trigger] s[k])
            },
{
    let i = lemma_trim_start_cut(s);
    let t = s.skip(i);
    let j = lemma_trim_end_cut(t);
    assert(trim(s) == t.take(j));
    assert(t.take(j) =~= s.subrange(i, i + j));
    assert forall|k: int| i + j <= k < s.len() implies is_white_space(#[trigger] s[k]) by {
        assert(s[k] == t[k - i]);
    }
    if j > 0 {
        assert(trim(s)[0] == s[i]);
        assert(trim(s).last() == t[j - 1]);
    }
    assert({
        &&& 0 <= i <= i + j <= s.len()
        &&& trim(s) == s.subrange(i, i + j)
        &&& forall|k: int| 0 <= k < i ==> is_white_space(#[trigger] s[k])
        &&& forall|k: int| i + j <= k < s.len() ==> is_white_space(#[trigger] s[k])
    });
}

/// The characters of `v` without leading and trailing whitespace.
pub fn trim_chars(v: &[char]) -> (r: Vec<char>)
    ensures
        r@ == trim(v@),
{
    let mut i: usize = 0;
    assert(v@.skip(0) == v@);
    while i < v.len() && is_whitespace(v[i])
        invariant
            i <= v.len(),
            trim_start(v@) == trim_start(v@.skip(i as int)),
        decreases v.len() - i,
    {
        proof {
            lemma_trim_start_skip(v@, i as int);
        }
        i = i + 1;
    }
    let ghost t = v@.skip(i as int);
    assert(trim_start(v@) == t);
    let mut j: usize = v.len();
    assert(t.take(t.len() as int) == t);
    while j > i && is_whitespace(v[j - 1])
        invariant
            i <= j <= v.len(),
            t == v@.skip(i as int),
            trim_end(t) == trim_end(t.take(j - i)),
        decreases j,
    {
        proof {
            lemma_trim_end_take(t, (j - i) as int);
        }
        j = j - 1;
    }
    assert(trim_end(t.take(j - i)) == t.take(j - i));
    assert(t.take(j - i) == v@.subrange(i as int, j as int));
    sub_chars(v, i, j)
}

/// The number of leading characters of `s` that are not whitespace.
pub open spec fn word_len(s: Seq<char>) -> nat
    decreases s.len(),
{
    if s.len() > 0 && !is_white_space(s[0]) {
        1 + word_len(s.drop_first())
    } else {
        0
    }
}

/// The maximal runs of non-whitespace characters of `s`, in order
/// (`str::split_whitespace`).
pub open spec fn words(s: Seq<char>) -> Seq<Seq<char>>
    decreases s.len(),
{
    if s.len() == 0 {
        Seq::empty()
    } else if is_white_space(s[0]) {
        words(s.drop_first())
    } else {
        let n = word_len(s);
        proof {
            lemma_word_len_bound(s);
        }
        seq![s.take(n as int)] + words(s.skip(n as int))
    }
}

pub proof fn lemma_word_len_bound(s: Seq<char>)
    ensures
        word_len(s) <= s.len(),
        s.len() > 0 && !is_white_space(s[0]) ==> word_len(s) >= 1,
        forall|k: int| 0 <= k < word_len(s) ==> !is_white_space(#[trigger] s[k]),
        word_len(s) < s.len() ==> is_white_space(s[word_len(s) as int]),
    decreases s.len(),
{
    if s.len() > 0 && !is_white_space(s[0]) {
        lemma_word_len_bound(s.drop_first());
        assert forall|k: int| 0 <= k < word_len(s) implies !is_white_space(#[trigger] s[k]) by {
            if k > 0 {
                assert(s[k] == s.drop_first()[k - 1]);
            }
        }
        if word_len(s) < s.len() {
            assert(s[word_len(s) as int] == s.drop_first()[word_len(s.drop_first()) as int]);
        }
    }
}

/// If `s[i..j]` is a run of non-whitespace characters ending at whitespace or at
/// the end, then it is the word that starts at `i`.
pub proof fn lemma_word_len_at(s: Seq<char>, i: int, j: int)
    requires
        0 <= i <= j <= s.len(),
        forall|k: int| i <= k < j ==> !is_white_space(#[trigger] s[k]),
        j == s.len() || is_white_space(s[j]),
    ensures
        word_len(s.skip(i)) == j - i,
    decreases j - i,
{
    if i < j {
        lemma_word_len_at(s, i + 1, j);
        assert(s.skip(i).drop_first() == s.skip(i + 1));
    } else {
        if j < s.len() {
            assert(s.skip(i)[0] == s[j]);
        }
    }
}

// ---------------------------------------------------------------------------
// Decimal integers
// ---------------------------------------------------------------------------

/// Why a decimal integer could not be read (the kinds of `ParseIntError`).
#[derive(Clone, Copy, Debug, PartialEq, Eq, Structural)]
pub enum IntError {
    Empty,
    InvalidDigit,
    PosOverflow,
    NegOverflow,
}

impl IntError {
    /// The text that `ParseIntError` displays for this kind.
    pub open spec fn message_spec(self) -> Seq<char> {
        match self {
            IntError::Empty => "cannot parse integer from empty string"@,
            IntError::InvalidDigit => "invalid digit found in string"@,
            IntError::PosOverflow => "number too large to fit in target type"@,
            IntError::NegOverflow => "number too small to fit in target type"@,
        }
    }

    /// The text that `ParseIntError` displays for this kind.
    pub fn message(&self) -> (s: String)
        ensures
            s@ == self.message_spec(),
    {
        match self {
            IntError::Empty => String::from_str("cannot parse integer from empty string"),
            IntError::InvalidDigit => String::from_str("invalid digit found in string"),
            IntError::PosOverflow => String::from_str("number too large to fit in target type"),
            IntError::NegOverflow => String::from_str("number too small to fit in target type"),
        }
    }
}

pub open spec fn is_digit(c: char) -> bool {
    48 <= (c as u32) <= 57
}

pub open spec fn digit_value(c: char) -> int {
    (c as u32) - 48
}

/// Whether `c` is an ASCII decimal digit.
pub fn is_ascii_digit(c: char) -> (r: bool)
    ensures
        r == is_digit(c),
{
    let u = c as u32;
    48 <= u && u <= 57
}

/// Reads the digits `d` left to right, as `str::parse` does, keeping the value
/// within `lo..=hi`: the first character that is no digit, or the first digit
/// that takes the value out of range, decides the error.
pub open spec fn scan_digits(d: Seq<char>, negative: bool, lo: int, hi: int) -> Result<int, IntError>
    decreases d.len(),
{
    if d.len() == 0 {
        Ok(0)
    } else {
        match scan_digits(d.drop_last(), negative, lo, hi) {
            Err(e) => Err(e),
            Ok(v) => {
                let c = d.last();
                if !is_digit(c) {
                    Err(IntError::InvalidDigit)
                } else {
                    let nv = if negative {
                        10 * v - digit_value(c)
                    } else {
                        10 * v + digit_value(c)
                    };
                    if nv > hi {
                        Err(IntError::PosOverflow)
                    } else if nv < lo {
                        Err(IntError::NegOverflow)
                    } else {
                        Ok(nv)
                    }
                }
            },
        }
    }
}

/// The integer that `t` denotes in `lo..=hi` (`FromStr` for the integer types):
/// an optional `+` (or `-` where `lo < 0`) and then at least one decimal digit.
pub open spec fn parse_int_spec(t: Seq<char>, lo: int, hi: int) -> Result<int, IntError> {
    if t.len() == 0 {
        Err(IntError::Empty)
    } else if (t[0] == '+' || t[0] == '-') && t.len() == 1 {
        Err(IntError::InvalidDigit)
    } else if t[0] == '+' {
        scan_digits(t.drop_first(), false, lo, hi)
    } else if t[0] == '-' && lo < 0 {
        scan_digits(t.drop_first(), true, lo, hi)
    } else {
        scan_digits(t, false, lo, hi)
    }
}

/// Reads `t[from..]` as an unsigned decimal integer no larger than `hi`.
#[verifier::loop_isolation(false)]
pub fn parse_unsigned(t: &[char], from: usize, hi: u64) -> (r: Result<u64, IntError>)
    requires
        from <= t.len(),
    ensures
        r == (match parse_int_spec(t@.skip(from as int), 0, hi as int) {
            Ok(v) => Ok(v as u64),
            Err(e) => Err(e),
        }),
{
    let ghost s = t@.skip(from as int);
    if from == t.len() {
        return Err(IntError::Empty);
    }
    assert(s[0] == t@[from as int]);
    assert(s.len() == t.len() - from);
    if (t[from] == '+' || t[from] == '-') && t.len() - from == 1 {
        return Err(IntError::InvalidDigit);
    }
    let start = if t[from] == '+' { from + 1 } else { from };
    let ghost d = t@.skip(start as int);
    assert(t[from as int] == '+' ==> d == s.drop_first());
    assert(t[from as int] != '+' ==> d == s);
    let mut v: u64 = 0;
    let mut i = start;
    assert(d.take(0) =~= Seq::<char>::empty());
    while i < t.len()
        invariant
            start <= i <= t.len(),
            d == t@.skip(start as int),
            scan_digits(d.take(i - start), false, 0, hi as int) == Ok::<int, IntError>(v as int),
            v <= hi,
        decreases t.len() - i,
    {
        let c = t[i];
        assert(d.take(i - start + 1).drop_last() == d.take(i - start));
        assert(d.take(i - start + 1).last() == c);
        if !is_ascii_digit(c) {
            proof {
                assert(scan_digits(d.take(i - start + 1), false, 0, hi as int) == Err::<int, IntError>(IntError::InvalidDigit));
                lemma_scan_err_persists(d, (i - start + 1) as int, false, 0, hi as int);
            }
            return Err(IntError::InvalidDigit);
        }
        let nv: u128 = (v as u128) * 10 + ((c as u32) - 48) as u128;
        if nv > hi as u128 {
            proof {
                assert(scan_digits(d.take(i - start + 1), false, 0, hi as int) == Err::<int, IntError>(IntError::PosOverflow));
                lemma_scan_err_persists(d, (i - start + 1) as int, false, 0, hi as int);
            }
            return Err(IntError::PosOverflow);
        }
        v = nv as u64;
        i = i + 1;
    }
    assert(d.take(i - start) == d);
    Ok(v)
}

/// Once the scan of a prefix fails, the scan of the whole fails the same way.
pub proof fn lemma_scan_err_persists(d: Seq<char>, n: int, negative: bool, lo: int, hi: int)
    requires
        0 <= n <= d.len(),
        scan_digits(d.take(n), negative, lo, hi) is Err,
    ensures
        scan_digits(d, negative, lo, hi) == scan_digits(d.take(n), negative, lo, hi),
    decreases d.len() - n,
{
    if n < d.len() {
        assert(d.take(n + 1).drop_last() == d.take(n));
        lemma_scan_err_persists(d, n + 1, negative, lo, hi);
    } else {
        assert(d.take(n) == d);
    }
}

/// Reads `t[from..]` as an `i32` (`i32::from_str`).
#[verifier::loop_isolation(false)]
pub fn parse_i32(t: &[char], from: usize) -> (r: Result<i32, IntError>)
    requires
        from <= t.len(),
    ensures
        r == (match parse_int_spec(t@.skip(from as int), i32::MIN as int, i32::MAX as int) {
            Ok(v) => Ok(v as i32),
            Err(e) => Err(e),
        }),
{
    let ghost s = t@.skip(from as int);
    if from == t.len() {
        return Err(IntError::Empty);
    }
    assert(s[0] == t@[from as int]);
    assert(s.len() == t.len() - from);
    if (t[from] == '+' || t[from] == '-') && t.len() - from == 1 {
        return Err(IntError::InvalidDigit);
    }
    let negative = t[from] == '-';
    let start = if t[from] == '+' || t[from] == '-' { from + 1 } else { from };
    let ghost d = t@.skip(start as int);
    assert(start == from + 1 ==> d == s.drop_first());
    assert(start == from ==> d == s);
    let mut v: i64 = 0;
    let mut i = start;
    assert(d.take(0) =~= Seq::<char>::empty());
    while i < t.len()
        invariant
            start <= i <= t.len(),
            d == t@.skip(start as int),
            scan_digits(d.take(i - start), negative, i32::MIN as int, i32::MAX as int) == Ok::<
                int,
                IntError,
            >(v as int),
            i32::MIN <= v <= i32::MAX,
        decreases t.len() - i,
    {
        let c = t[i];
        assert(d.take(i - start + 1).drop_last() == d.take(i - start));
        assert(d.take(i - start + 1).last() == c);
        if !is_ascii_digit(c) {
            proof {
                assert(scan_digits(d.take(i - start + 1), negative, i32::MIN as int, i32::MAX as int) == Err::<int, IntError>(IntError::InvalidDigit));
                lemma_scan_err_persists(
                    d,
                    (i - start + 1) as int,
                    negative,
                    i32::MIN as int,
                    i32::MAX as int,
                );
            }
            return Err(IntError::InvalidDigit);
        }
        let dv: i64 = (c as u32 - 48) as i64;
        let nv: i64 = if negative { v * 10 - dv } else { v * 10 + dv };
        if nv > i32::MAX as i64 {
            proof {
                assert(scan_digits(d.take(i - start + 1), negative, i32::MIN as int, i32::MAX as int) == Err::<int, IntError>(IntError::PosOverflow));
                lemma_scan_err_persists(
                    d,
                    (i - start + 1) as int,
                    negative,
                    i32::MIN as int,
                    i32::MAX as int,
                );
            }
            return Err(IntError::PosOverflow);
        }
        if nv < i32::MIN as i64 {
            proof {
                assert(scan_digits(d.take(i - start + 1), negative, i32::MIN as int, i32::MAX as int) == Err::<int, IntError>(IntError::NegOverflow));
                lemma_scan_err_persists(
                    d,
                    (i - start + 1) as int,
                    negative,
                    i32::MIN as int,
                    i32::MAX as int,
                );
            }
            return Err(IntError::NegOverflow);
        }
        v = nv;
        i = i + 1;
    }
    assert(d.take(i - start) == d);
    Ok(v as i32)
}

/// The decimal digits of `n`, most significant first, without leading zeros.
pub open spec fn decimal(n: nat) -> Seq<char>
    decreases n,
{
    if n < 10 {
        seq![digit_char(n)]
    } else {
        decimal(n / 10).push(digit_char(n % 10))
    }
}

pub open spec fn digit_char(d: nat) -> char {
    (48 + d) as char
}

/// The decimal text of `n` is made of digits only.
pub proof fn lemma_decimal_digits(n: nat)
    ensures
        decimal(n).len() >= 1,
        forall|k: int| 0 <= k < decimal(n).len() ==> is_digit(#[trigger] decimal(n)[k]),
    decreases n,
{
    if n >= 10 {
        lemma_decimal_digits(n / 10);
        let d = decimal(n);
        let p = decimal(n / 10);
        assert forall|k: int| 0 <= k < d.len() implies is_digit(#[trigger] d[k]) by {
            if k < p.len() {
                assert(d[k] == p[k]);
            }
        }
    }
}

/// The decimal text of `n` reads back as `n`, in any range that holds it.
pub proof fn lemma_parse_decimal(n: nat, lo: int, hi: int)
    requires
        lo <= 0,
        n <= hi,
    ensures
        parse_int_spec(decimal(n), lo, hi) == Ok::<int, IntError>(n as int),
{
    lemma_decimal_digits(n);
    lemma_scan_decimal(n, lo, hi);
}

/// A minus sign and the decimal text of `n` read back as `-n`, in any range
/// that holds it and admits negative numbers.
pub proof fn lemma_parse_negative_decimal(n: nat, lo: int, hi: int)
    requires
        lo < 0,
        lo <= -n,
        0 <= hi,
    ensures
        parse_int_spec(seq!['-'] + decimal(n), lo, hi) == Ok::<int, IntError>(-n),
{
    lemma_decimal_digits(n);
    let t = seq!['-'] + decimal(n);
    assert(t[0] == '-');
    assert(t.drop_first() =~= decimal(n));
    lemma_scan_negative_decimal(n, lo, hi);
}

proof fn lemma_scan_negative_decimal(n: nat, lo: int, hi: int)
    requires
        lo <= -n,
        0 <= hi,
    ensures
        scan_digits(decimal(n), true, lo, hi) == Ok::<int, IntError>(-n),
    decreases n,
{
    if n < 10 {
        assert(decimal(n).drop_last() =~= Seq::<char>::empty());
        assert(scan_digits(Seq::<char>::empty(), true, lo, hi) == Ok::<int, IntError>(0));
        assert(is_digit(digit_char(n)));
        assert(digit_value(digit_char(n)) == n);
    } else {
        lemma_scan_negative_decimal(n / 10, lo, hi);
        assert(decimal(n).drop_last() == decimal(n / 10));
        assert(is_digit(digit_char(n % 10)));
        assert(digit_value(digit_char(n % 10)) == n % 10);
        assert(10 * (n / 10) + n % 10 == n);
    }
}

proof fn lemma_scan_decimal(n: nat, lo: int, hi: int)
    requires
        lo <= 0,
        n <= hi,
    ensures
        scan_digits(decimal(n), false, lo, hi) == Ok::<int, IntError>(n as int),
    decreases n,
{
    if n < 10 {
        assert(decimal(n).drop_last() =~= Seq::<char>::empty());
        assert(scan_digits(Seq::<char>::empty(), false, lo, hi) == Ok::<int, IntError>(0));
        assert(is_digit(digit_char(n)));
        assert(digit_value(digit_char(n)) == n);
    } else {
        lemma_scan_decimal(n / 10, lo, hi);
        assert(decimal(n).drop_last() == decimal(n / 10));
        assert(is_digit(digit_char(n % 10)));
        assert(digit_value(digit_char(n % 10)) == n % 10);
        assert(10 * (n / 10) + n % 10 == n);
    }
}

/// The character of the decimal digit `d`.
pub fn digit_to_char(d: u64) -> (c: char)
    requires
        d < 10,
    ensures
        c == digit_char(d as nat),
{
    let b: u8 = 48 + d as u8;
    b as char
}

/// The decimal digits of `n` (`n.to_string()`).
pub fn decimal_string(n: u64) -> (s: String)
    ensures
        s@ == decimal(n as nat),
    decreases n,
{
    if n < 10 {
        let mut s = String::new();
        push_char(&mut s, digit_to_char(n));
        s
    } else {
        let mut s = decimal_string(n / 10);
        push_char(&mut s, digit_to_char(n % 10));
        s
    }
}

} // verus!
