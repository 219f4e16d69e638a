//! Character-level text helpers shared by the parsers and renderers.
//!
//! Text is modelled as `Seq<char>`; executable code works on `Vec<char>`
//! buffers and builds `String`s one character at a time.
use vstd::prelude::*;

verus! {

/// `String::push` appends one character to the end of the string.
pub assume_specification[ String::push ](s: &mut String, ch: char)
    ensures
        final(s)@ == old(s)@.push(ch),
;

// ---------------------------------------------------------------------------
// Whitespace and trimming
// ---------------------------------------------------------------------------
/// The Unicode `White_Space` property, which `char::is_whitespace` tests.
pub open spec fn is_ws(c: char) -> bool {
    let u = c as u32;
    ||| 0x09 <= u <= 0x0D
    ||| u == 0x20
    ||| u == 0x85
    ||| u == 0xA0
    ||| u == 0x1680
    ||| 0x2000 <= u <= 0x200A
    ||| u == 0x2028
    ||| u == 0x2029
    ||| u == 0x202F
    ||| u == 0x205F
    ||| u == 0x3000
}

/// `s` without its leading whitespace.
pub open spec fn trim_start(s: Seq<char>) -> Seq<char>
    decreases s.len(),
{
    if s.len() > 0 && is_ws(s[0]) {
        trim_start(s.drop_first())
    } else {
        s
    }
}

/// `s` without its trailing whitespace.
pub open spec fn trim_end(s: Seq<char>) -> Seq<char>
    decreases s.len(),
{
    if s.len() > 0 && is_ws(s.last()) {
        trim_end(s.drop_last())
    } else {
        s
    }
}

/// `s` without leading and trailing whitespace (`str::trim`).
pub open spec fn trim(s: Seq<char>) -> Seq<char> {
    trim_end(trim_start(s))
}

/// Tests whether `c` is whitespace.
pub fn is_whitespace(c: char) -> (r: bool)
    ensures
        r == is_ws(c),
{
    let u = c as u32;
    (0x09 <= u && u <= 0x0D) || u == 0x20 || u == 0x85 || u == 0xA0 || u == 0x1680 || (0x2000
        <= u && u <= 0x200A) || u == 0x2028 || u == 0x2029 || u == 0x202F || u == 0x205F || u
        == 0x3000
}

/// The bounds of the trimmed part of `s[lo..hi]`.
pub fn trim_bounds(s: &Vec<char>, lo: usize, hi: usize) -> (r: (usize, usize))
    requires
        lo <= hi <= s@.len(),
    ensures
        lo <= r.0 <= r.1 <= hi,
        s@.subrange(r.0 as int, r.1 as int) == trim(s@.subrange(lo as int, hi as int)),
{
    let mut a = lo;
    while a < hi && is_whitespace(s[a])
        invariant
            lo <= a <= hi <= s@.len(),
            trim_start(s@.subrange(lo as int, hi as int)) == trim_start(
                s@.subrange(a as int, hi as int),
            ),
        decreases hi - a,
    {
        assert(s@.subrange(a as int, hi as int).drop_first() =~= s@.subrange(
            a + 1,
            hi as int,
        ));
        a = a + 1;
    }
    let mut b = hi;
    while b > a && is_whitespace(s[b - 1])
        invariant
            lo <= a <= b <= hi <= s@.len(),
            trim_start(s@.subrange(lo as int, hi as int)) == s@.subrange(a as int, hi as int),
            trim_end(s@.subrange(a as int, hi as int)) == trim_end(
                s@.subrange(a as int, b as int),
            ),
        decreases b - a,
    {
        assert(s@.subrange(a as int, b as int).drop_last() =~= s@.subrange(
            a as int,
            b - 1,
        ));
        b = b - 1;
    }
    (a, b)
}

/// The characters of `s`, in order.
pub fn to_chars(s: &str) -> (v: Vec<char>)
    ensures
        v@ == s@,
{
    let mut v: Vec<char> = Vec::new();
    for c in it: s.chars()
        invariant
            v@ == it.seq().take(it.index() as int),
            it.seq() == s@,
    {
        v.push(c);
    }
    v
}

/// The string made of `s[lo..hi]`.
pub fn substring(s: &Vec<char>, lo: usize, hi: usize) -> (r: String)
    requires
        lo <= hi <= s@.len(),
    ensures
        r@ == s@.subrange(lo as int, hi as int),
{
    let mut r = String::new();
    let mut i = lo;
    while i < hi
        invariant
            lo <= i <= hi <= s@.len(),
            r@ == s@.subrange(lo as int, i as int),
        decreases hi - i,
    {
        r.push(s[i]);
        assert(r@ =~= s@.subrange(lo as int, i + 1));
        i = i + 1;
    }
    r
}

/// `s` with leading and trailing whitespace removed.
pub fn trim_str(s: &str) -> (r: String)
    ensures
        r@ == trim(s@),
{
    let v = to_chars(s);
    let (a, b) = trim_bounds(&v, 0, v.len());
    assert(v@.subrange(0, v@.len() as int) =~= v@);
    substring(&v, a, b)
}

/// Appends `t` to `s`.
pub fn push_all(s: &mut String, t: &str)
    ensures
        final(s)@ == old(s)@ + t@,
{
    let v = to_chars(t);
    let mut i: usize = 0;
    while i < v.len()
        invariant
            0 <= i <= v@.len(),
            v@ == t@,
            s@ == old(s)@ + v@.subrange(0, i as int),
        decreases v@.len() - i,
    {
        s.push(v[i]);
        assert(s@ =~= old(s)@ + v@.subrange(0, i + 1));
        i = i + 1;
    }
    assert(v@.subrange(0, v@.len() as int) =~= v@);
}

/// The concatenation of two strings.
pub fn concat(a: &str, b: &str) -> (r: String)
    ensures
        r@ == a@ + b@,
{
    let mut r = String::new();
    push_all(&mut r, a);
    push_all(&mut r, b);
    assert(r@ =~= a@ + b@);
    r
}

/// A copy of `s`.
pub fn copy_str(s: &str) -> (r: String)
    ensures
        r@ == s@,
{
    let mut r = String::new();
    push_all(&mut r, s);
    assert(r@ =~= s@);
    r
}

// ---------------------------------------------------------------------------
// Prefixes
// ---------------------------------------------------------------------------
/// `p` is a prefix of `s`.
pub open spec fn starts_with(s: Seq<char>, p: Seq<char>) -> bool {
    p.len() <= s.len() && s.subrange(0, p.len() as int) == p
}

/// Tests whether `p` occurs in `s` at position `i`.
pub fn matches_at(s: &Vec<char>, i: usize, p: &Vec<char>) -> (r: bool)
    requires
        i <= s@.len(),
    ensures
        r == starts_with(s@.subrange(i as int, s@.len() as int), p@),
{
    if p.len() > s.len() - i {
        return false;
    }
    let n = s.len();
    let mut k: usize = 0;
    while k < p.len()
        invariant
            n == s@.len(),
            i + p@.len() <= s@.len(),
            0 <= k <= p@.len(),
            forall|j: int| 0 <= j < k ==> s@[i + j] == p@[j],
        decreases p@.len() - k,
    {
        if s[i + k] != p[k] {
            assert(s@.subrange(i as int, s@.len() as int).subrange(0, p@.len() as int)[k as int]
                != p@[k as int]);
            return false;
        }
        k = k + 1;
    }
    assert(s@.subrange(i as int, s@.len() as int).subrange(0, p@.len() as int) =~= p@);
    true
}

// ---------------------------------------------------------------------------
// Decimal numbers
// ---------------------------------------------------------------------------
/// The digit character for `d` (`0 <= d < 10`).
pub open spec fn digit_char(d: int) -> char {
    if d == 0 {
        '0'
    } else if d == 1 {
        '1'
    } else if d == 2 {
        '2'
    } else if d == 3 {
        '3'
    } else if d == 4 {
        '4'
    } else if d == 5 {
        '5'
    } else if d == 6 {
        '6'
    } else if d == 7 {
        '7'
    } else if d == 8 {
        '8'
    } else {
        '9'
    }
}

/// The decimal rendering of `n`, without sign or leading zeros.
pub open spec fn dec(n: nat) -> Seq<char>
    decreases n,
{
    if n < 10 {
        seq![digit_char(n as int)]
    } else {
        dec(n / 10).push(digit_char((n % 10) as int))
    }
}

pub(crate) fn digit_to_char(d: u64) -> (c: char)
    requires
        d < 10,
    ensures
        c == digit_char(d as int),
{
    if d == 0 {
        '0'
    } else if d == 1 {
        '1'
    } else if d == 2 {
        '2'
    } else if d == 3 {
        '3'
    } else if d == 4 {
        '4'
    } else if d == 5 {
        '5'
    } else if d == 6 {
        '6'
    } else if d == 7 {
        '7'
    } else if d == 8 {
        '8'
    } else {
        '9'
    }
}

/// Appends the decimal rendering of `n` to `s`.
pub fn push_decimal(s: &mut String, n: u64)
    ensures
        final(s)@ == old(s)@ + dec(n as nat),
    decreases n,
{
    if n < 10 {
        s.push(digit_to_char(n));
        assert(s@ =~= old(s)@ + dec(n as nat));
    } else {
        push_decimal(s, n / 10);
        s.push(digit_to_char(n % 10));
        assert(s@ =~= old(s)@ + dec(n as nat));
    }
}

/// The decimal rendering of `n`.
pub fn decimal(n: u64) -> (r: String)
    ensures
        r@ == dec(n as nat),
{
    let mut r = String::new();
    push_decimal(&mut r, n);
    assert(r@ =~= dec(n as nat));
    r
}

/// `c` is an ASCII decimal digit.
pub open spec fn is_digit(c: char) -> bool {
    '0' <= c <= '9'
}

/// The value of the decimal digit `c`.
pub open spec fn digit_value(c: char) -> nat {
    ((c as u32) - ('0' as u32)) as nat
}

/// All characters of `s` are decimal digits.
pub open spec fn all_digits(s: Seq<char>) -> bool {
    forall|i: int| 0 <= i < s.len() ==> is_digit(#[trigger] s[i])
}

/// The value of the digit string `s` (read most significant digit first).
pub open spec fn digits_value(s: Seq<char>) -> nat
    decreases s.len(),
{
    if s.len() == 0 {
        0
    } else {
        digits_value(s.drop_last()) * 10 + digit_value(s.last())
    }
}

/// What `str::parse` gives for an unsigned integer type, before the range
/// check: an optional `+`, then one or more decimal digits.
pub open spec fn parse_nat(s: Seq<char>) -> Option<nat> {
    if s.len() > 0 && s[0] == '+' {
        let d = s.drop_first();
        if d.len() > 0 && all_digits(d) {
            Some(digits_value(d))
        } else {
            None
        }
    } else if s.len() > 0 && all_digits(s) {
        Some(digits_value(s))
    } else {
        None
    }
}

/// `str::parse` into an unsigned integer type whose largest value is `max`.
pub open spec fn parse_bounded(s: Seq<char>, max: nat) -> Option<nat> {
    match parse_nat(s) {
        Some(v) => if v <= max {
            Some(v)
        } else {
            None
        },
        None => None,
    }
}

proof fn lemma_digit_round_trip(d: int)
    requires
        0 <= d < 10,
    ensures
        is_digit(digit_char(d)),
        digit_value(digit_char(d)) == d,
{
}

/// The decimal rendering of `n` is a digit string worth `n`, so `str::parse`
/// reads back `n` whenever it fits the target type.
pub proof fn lemma_dec_parses(n: nat, max: nat)
    requires
        n <= max,
    ensures
        dec(n).len() > 0,
        all_digits(dec(n)),
        digits_value(dec(n)) == n,
        parse_bounded(dec(n), max) == Some(n),
    decreases n,
{
    let d = dec(n);
    if n < 10 {
        lemma_digit_round_trip(n as int);
        assert(d.drop_last() =~= Seq::<char>::empty());
        assert(digits_value(Seq::<char>::empty()) == 0);
        assert(d.last() == digit_char(n as int));
        assert(digits_value(d) == digits_value(d.drop_last()) * 10 + digit_value(d.last()));
        assert(digits_value(d) == n);
    } else {
        lemma_dec_parses(n / 10, max);
        lemma_digit_round_trip((n % 10) as int);
        assert(d.drop_last() =~= dec(n / 10));
        assert(d.last() == digit_char((n % 10) as int));
        assert(digits_value(d) == digits_value(dec(n / 10)) * 10 + (n % 10));
        assert((n / 10) * 10 + n % 10 == n);
        assert forall|i: int| 0 <= i < d.len() implies is_digit(#[trigger] d[i]) by {
            if i < d.len() - 1 {
                assert(d[i] == dec(n / 10)[i]);
            }
        }
    }
    assert(is_digit(d[0]));
    assert(d[0] != '+');
}

/// Text that neither starts nor ends with whitespace is its own trim.
pub proof fn lemma_trim_unchanged(s: Seq<char>)
    requires
        s.len() > 0,
        !is_ws(s[0]),
        !is_ws(s.last()),
    ensures
        trim(s) == s,
{
}

/// Text without a separator splits into itself alone.
pub proof fn lemma_split_without_sep(s: Seq<char>, sep: Sep)
    requires
        forall|i: int| 0 <= i < s.len() ==> !is_sep(sep, #[trigger] s[i]),
    ensures
        split(s, sep) == seq![s],
    decreases s.len(),
{
    if s.len() > 0 {
        lemma_split_without_sep(s.drop_last(), sep);
        assert(s.drop_last().push(s.last()) =~= s);
        assert(!is_sep(sep, s[s.len() - 1]));
    } else {
        assert(s =~= Seq::<char>::empty());
    }
}

/// Text split at one separator `c` (occurring nowhere else) gives the two
/// pieces around it.
pub proof fn lemma_split_at_one_sep(a: Seq<char>, b: Seq<char>, c: char)
    requires
        forall|i: int| 0 <= i < a.len() ==> #[trigger] a[i] != c,
        forall|i: int| 0 <= i < b.len() ==> #[trigger] b[i] != c,
    ensures
        split(a + seq![c] + b, Sep::Char(c)) == seq![a, b],
    decreases b.len(),
{
    if b.len() == 0 {
        lemma_split_without_sep(a, Sep::Char(c));
        assert(b =~= Seq::<char>::empty());
        assert((a + seq![c] + b).drop_last() =~= a);
        assert((a + seq![c] + b).last() == c);
        assert(split(a + seq![c] + b, Sep::Char(c)) =~= seq![a, b]);
    } else {
        lemma_split_at_one_sep(a, b.drop_last(), c);
        assert((a + seq![c] + b).drop_last() =~= a + seq![c] + b.drop_last());
        assert((a + seq![c] + b).last() == b.last());
        assert(b.drop_last().push(b.last()) =~= b);
        assert(split(a + seq![c] + b, Sep::Char(c)) =~= seq![a, b]);
    }
}

proof fn lemma_find_from_at(s: Seq<char>, c: char, k: int, i: int)
    requires
        0 <= i <= k < s.len(),
        s[k] == c,
        forall|j: int| 0 <= j < k ==> #[trigger] s[j] != c,
    ensures
        find_from(s, seq![c], i) == Some(k),
    decreases k - i,
{
    let t = s.subrange(i, s.len() as int);
    assert(t.subrange(0, 1) =~= seq![s[i]]);
    if i < k {
        assert(s[i] != c);
        assert(seq![s[i]][0] != seq![c][0]);
        assert(!starts_with(t, seq![c]));
        lemma_find_from_at(s, c, k, i + 1);
    } else {
        assert(seq![s[i]] =~= seq![c]);
        assert(starts_with(t, seq![c]));
    }
}

/// The first `c` in `s` is at `k` when `s[k]` is `c` and no earlier
/// character is.
pub proof fn lemma_find_char_at(s: Seq<char>, c: char, k: int)
    requires
        0 <= k < s.len(),
        s[k] == c,
        forall|j: int| 0 <= j < k ==> #[trigger] s[j] != c,
    ensures
        find_char(s, c) == Some(k),
{
    lemma_find_from_at(s, c, k, 0);
}

proof fn lemma_digits_value_monotone(s: Seq<char>, i: int)
    requires
        0 <= i <= s.len(),
        all_digits(s),
    ensures
        digits_value(s.subrange(0, i)) <= digits_value(s),
    decreases s.len() - i,
{
    if i < s.len() {
        lemma_digits_value_monotone(s, i + 1);
        assert(s.subrange(0, i + 1).drop_last() =~= s.subrange(0, i));
    } else {
        assert(s.subrange(0, i) =~= s);
    }
}

proof fn lemma_prefix_too_large(d: Seq<char>, j: int, max: nat)
    requires
        0 < j <= d.len(),
        digits_value(d.subrange(0, j)) > max,
    ensures
        !(all_digits(d) && digits_value(d) <= max),
{
    if all_digits(d) {
        lemma_digits_value_monotone(d, j);
    }
}

/// Parses `s[lo..hi]` as an unsigned integer no larger than `max`, with the
/// rules of `str::parse`.
pub fn parse_uint(s: &Vec<char>, lo: usize, hi: usize, max: u64) -> (r: Option<u64>)
    requires
        lo <= hi <= s@.len(),
    ensures
        r.is_some() == parse_bounded(s@.subrange(lo as int, hi as int), max as nat).is_some(),
        r matches Some(v) ==> parse_bounded(s@.subrange(lo as int, hi as int), max as nat)
            == Some(v as nat),
{
    let ghost t = s@.subrange(lo as int, hi as int);
    let mut start = lo;
    if lo < hi && s[lo] == '+' {
        start = lo + 1;
    }
    let ghost d = s@.subrange(start as int, hi as int);
    proof {
        if lo < hi && s@[lo as int] == '+' {
            assert(d =~= t.drop_first());
        } else {
            assert(d =~= t);
        }
    }
    if start == hi {
        return None;
    }
    let mut acc: u64 = 0;
    let mut i = start;
    while i < hi
        invariant
            lo <= start < hi <= s@.len(),
            start <= i <= hi,
            t == s@.subrange(lo as int, hi as int),
            d == s@.subrange(start as int, hi as int),
            (lo < hi && s@[lo as int] == '+') ==> d == t.drop_first(),
            !(lo < hi && s@[lo as int] == '+') ==> d == t,
            forall|k: int| 0 <= k < i - start ==> is_digit(#[trigger] d[k]),
            acc as nat == digits_value(d.subrange(0, i - start)),
            acc <= max,
        decreases hi - i,
    {
        let c = s[i];
        assert(d[i - start] == c);
        if !('0' <= c && c <= '9') {
            assert(!is_digit(d[i - start]));
            return None;
        }
        let dv = (c as u32 - '0' as u32) as u64;
        assert(dv <= 9);
        let ghost pre = d.subrange(0, i + 1 - start);
        assert(pre.drop_last() =~= d.subrange(0, i - start));
        assert(pre.last() == c);
        assert(digits_value(pre) == acc * 10 + dv);
        proof {
            vstd::arithmetic::div_mod::lemma_fundamental_div_mod(max as int, 10);
        }
        if acc > max / 10 || (acc == max / 10 && dv > max % 10) {
            proof {
                lemma_prefix_too_large(d, i + 1 - start, max as nat);
            }
            return None;
        }
        acc = acc * 10 + dv;
        i = i + 1;
    }
    assert(d.subrange(0, d.len() as int) =~= d);
    Some(acc)
}

// ---------------------------------------------------------------------------
// Hexadecimal
// ---------------------------------------------------------------------------
/// The lowercase hexadecimal digit for `d` (`0 <= d < 16`).
pub open spec fn hex_digit(d: int) -> char {
    if d < 10 {
        digit_char(d)
    } else if d == 10 {
        'a'
    } else if d == 11 {
        'b'
    } else if d == 12 {
        'c'
    } else if d == 13 {
        'd'
    } else if d == 14 {
        'e'
    } else {
        'f'
    }
}

/// The last `width` lowercase hexadecimal digits of `n`, most significant first.
pub open spec fn hex_fixed(n: nat, width: nat) -> Seq<char>
    decreases width,
{
    if width == 0 {
        seq![]
    } else {
        hex_fixed(n / 16, (width - 1) as nat).push(hex_digit((n % 16) as int))
    }
}

/// `c` is a lowercase hexadecimal digit.
pub open spec fn is_lower_hex_digit(c: char) -> bool {
    ('0' <= c <= '9') || ('a' <= c <= 'f')
}

/// `hex_fixed(n, width)` has exactly `width` characters, each a lowercase
/// hexadecimal digit.
pub proof fn lemma_hex_fixed_shape(n: nat, width: nat)
    ensures
        hex_fixed(n, width).len() == width,
        forall|i: int| 0 <= i < width ==> is_lower_hex_digit(#[trigger] hex_fixed(n, width)[i]),
    decreases width,
{
    if width > 0 {
        lemma_hex_fixed_shape(n / 16, (width - 1) as nat);
        let d = (n % 16) as int;
        assert(is_lower_hex_digit(hex_digit(d)));
    }
}

fn hex_digit_to_char(d: u64) -> (c: char)
    requires
        d < 16,
    ensures
        c == hex_digit(d as int),
{
    if d < 10 {
        digit_to_char(d)
    } else if d == 10 {
        'a'
    } else if d == 11 {
        'b'
    } else if d == 12 {
        'c'
    } else if d == 13 {
        'd'
    } else if d == 14 {
        'e'
    } else {
        'f'
    }
}

fn push_hex_fixed(s: &mut String, n: u64, width: u64)
    ensures
        final(s)@ == old(s)@ + hex_fixed(n as nat, width as nat),
    decreases width,
{
    if width > 0 {
        push_hex_fixed(s, n / 16, width - 1);
        s.push(hex_digit_to_char(n % 16));
    }
    assert(s@ =~= old(s)@ + hex_fixed(n as nat, width as nat));
}

/// `n` as sixteen lowercase hexadecimal digits (`format!("{:016x}", n)`).
pub fn hex16(n: u64) -> (r: String)
    ensures
        r@ == hex_fixed(n as nat, 16),
{
    let mut r = String::new();
    push_hex_fixed(&mut r, n, 16);
    assert(r@ =~= hex_fixed(n as nat, 16));
    r
}

// ---------------------------------------------------------------------------
// Splitting
// ---------------------------------------------------------------------------
/// A separator for `split`: one character, or any whitespace character.
pub enum Sep {
    Char(char),
    Whitespace,
}

/// `c` separates pieces under `sep`.
pub open spec fn is_sep(sep: Sep, c: char) -> bool {
    match sep {
        Sep::Char(x) => c == x,
        Sep::Whitespace => is_ws(c),
    }
}

/// The pieces of `s` between separators (`str::split`): always at least one,
/// empty pieces included.
pub open spec fn split(s: Seq<char>, sep: Sep) -> Seq<Seq<char>>
    decreases s.len(),
{
    if s.len() == 0 {
        seq![seq![]]
    } else {
        let r = split(s.drop_last(), sep);
        if is_sep(sep, s.last()) {
            r.push(seq![])
        } else {
            r.update(r.len() - 1, r.last().push(s.last()))
        }
    }
}

proof fn lemma_split_nonempty(s: Seq<char>, sep: Sep)
    ensures
        split(s, sep).len() >= 1,
    decreases s.len(),
{
    if s.len() > 0 {
        lemma_split_nonempty(s.drop_last(), sep);
    }
}

/// The pieces of `s[lo..hi]` between separators, as index ranges into `s`.
pub fn split_ranges(s: &Vec<char>, lo: usize, hi: usize, sep: &Sep) -> (r: Vec<(usize, usize)>)
    requires
        lo <= hi <= s@.len(),
    ensures
        r@.len() == split(s@.subrange(lo as int, hi as int), *sep).len(),
        forall|j: int|
            0 <= j < r@.len() ==> lo <= (#[trigger] r@[j]).0 <= r@[j].1 <= hi && s@.subrange(
                r@[j].0 as int,
                r@[j].1 as int,
            ) == split(s@.subrange(lo as int, hi as int), *sep)[j],
{
    let mut r: Vec<(usize, usize)> = Vec::new();
    let mut start = lo;
    let mut i = lo;
    assert(s@.subrange(lo as int, lo as int) =~= Seq::<char>::empty());
    while i < hi
        invariant
            lo <= start <= i <= hi <= s@.len(),
            r@.len() + 1 == split(s@.subrange(lo as int, i as int), *sep).len(),
            forall|j: int|
                0 <= j < r@.len() ==> lo <= (#[trigger] r@[j]).0 <= r@[j].1 <= hi && s@.subrange(
                    r@[j].0 as int,
                    r@[j].1 as int,
                ) == split(s@.subrange(lo as int, i as int), *sep)[j],
            s@.subrange(start as int, i as int) == split(s@.subrange(lo as int, i as int), *sep).last(),
        decreases hi - i,
    {
        let ghost prev = split(s@.subrange(lo as int, i as int), *sep);
        let c = s[i];
        let is_s = match sep {
            Sep::Char(x) => c == *x,
            Sep::Whitespace => is_whitespace(c),
        };
        assert(s@.subrange(lo as int, i + 1).drop_last() =~= s@.subrange(lo as int, i as int));
        assert(s@.subrange(lo as int, i + 1).last() == c);
        if is_s {
            r.push((start, i));
            start = i + 1;
            assert(s@.subrange(start as int, i + 1) =~= Seq::<char>::empty());
        } else {
            assert(s@.subrange(start as int, i + 1) =~= s@.subrange(start as int, i as int).push(c));
        }
        i = i + 1;
    }
    r.push((start, hi));
    r
}

/// What `str::lines` yields: the pieces between `\n`, each stripped of one
/// trailing `\r` when a `\n` followed it, without a final empty piece.
pub open spec fn lines(s: Seq<char>) -> Seq<Seq<char>> {
    let parts = split(s, Sep::Char('\n'));
    let n = parts.len();
    let k = if parts[n - 1].len() == 0 {
        n - 1
    } else {
        n as int
    };
    Seq::new(
        k as nat,
        |j: int|
            if j < n - 1 {
                strip_cr(parts[j])
            } else {
                parts[j]
            },
    )
}

/// `p` without one trailing carriage return.
pub open spec fn strip_cr(p: Seq<char>) -> Seq<char> {
    if p.len() > 0 && p.last() == '\r' {
        p.drop_last()
    } else {
        p
    }
}

/// The lines of `s` (`str::lines`), as index ranges into `s`.
pub fn line_ranges(s: &Vec<char>) -> (r: Vec<(usize, usize)>)
    ensures
        r@.len() == lines(s@).len(),
        forall|j: int|
            0 <= j < r@.len() ==> (#[trigger] r@[j]).0 <= r@[j].1 <= s@.len() && s@.subrange(
                r@[j].0 as int,
                r@[j].1 as int,
            ) == lines(s@)[j],
{
    let parts = split_ranges(s, 0, s.len(), &Sep::Char('\n'));
    let ghost sp = split(s@, Sep::Char('\n'));
    assert(s@.subrange(0, s@.len() as int) =~= s@);
    proof {
        lemma_split_nonempty(s@, Sep::Char('\n'));
    }
    let n = parts.len();
    let last = parts[n - 1];
    let k = if last.0 == last.1 {
        n - 1
    } else {
        n
    };
    assert(sp[n - 1].len() == last.1 - last.0);
    let mut r: Vec<(usize, usize)> = Vec::new();
    let mut j: usize = 0;
    while j < k
        invariant
            k <= n,
            n == parts@.len(),
            n == sp.len(),
            k == lines(s@).len(),
            0 <= j <= k,
            r@.len() == j,
            forall|q: int|
                0 <= q < n ==> (#[trigger] parts@[q]).0 <= parts@[q].1 <= s@.len()
                    && s@.subrange(parts@[q].0 as int, parts@[q].1 as int) == sp[q],
            sp == split(s@, Sep::Char('\n')),
            forall|q: int|
                0 <= q < j ==> (#[trigger] r@[q]).0 <= r@[q].1 <= s@.len() && s@.subrange(
                    r@[q].0 as int,
                    r@[q].1 as int,
                ) == lines(s@)[q],
        decreases k - j,
    {
        let (a, b) = parts[j];
        let ghost piece = s@.subrange(a as int, b as int);
        assert(piece == sp[j as int]);
        if j + 1 < n && a < b && s[b - 1] == '\r' {
            assert(piece.last() == '\r');
            assert(s@.subrange(a as int, b - 1) =~= piece.drop_last());
            r.push((a, b - 1));
        } else {
            r.push((a, b));
        }
        j = j + 1;
    }
    r
}

// ---------------------------------------------------------------------------
// Searching
// ---------------------------------------------------------------------------
/// The first position at or after `i` where `p` occurs in `s`.
pub open spec fn find_from(s: Seq<char>, p: Seq<char>, i: int) -> Option<int>
    decreases s.len() + 1 - i,
{
    if i < 0 || i > s.len() || i + p.len() > s.len() {
        None
    } else if starts_with(s.subrange(i, s.len() as int), p) {
        Some(i)
    } else {
        find_from(s, p, i + 1)
    }
}

/// The first position where `p` occurs in `s` (`str::find`).
pub open spec fn find(s: Seq<char>, p: Seq<char>) -> Option<int> {
    find_from(s, p, 0)
}

proof fn lemma_find_from_range(s: Seq<char>, p: Seq<char>, i: int)
    ensures
        find_from(s, p, i) matches Some(k) ==> i <= k && k + p.len() <= s.len() && 0 <= k,
    decreases s.len() + 1 - i,
{
    if !(i < 0 || i > s.len() || i + p.len() > s.len()) && !starts_with(s.subrange(i, s.len() as int), p) {
        lemma_find_from_range(s, p, i + 1);
    }
}

/// The first position of `p` in `s[from..]`, as an index into `s`.
pub fn find_in(s: &Vec<char>, from: usize, p: &Vec<char>) -> (r: Option<usize>)
    requires
        from <= s@.len(),
    ensures
        r matches Some(k) ==> find_from(s@, p@, from as int) == Some(k as int),
        r is None ==> find_from(s@, p@, from as int) is None,
        r matches Some(k) ==> from <= k && k + p@.len() <= s@.len(),
{
    let mut i = from;
    proof {
        lemma_find_from_range(s@, p@, from as int);
    }
    while p.len() <= s.len() - i
        invariant
            from <= i <= s@.len(),
            find_from(s@, p@, from as int) == find_from(s@, p@, i as int),
        decreases s@.len() + 1 - i,
    {
        if matches_at(s, i, p) {
            return Some(i);
        }
        if i == s.len() {
            assert(s@.subrange(i as int, s@.len() as int).subrange(0, p@.len() as int) =~= p@);
            return None;
        }
        i = i + 1;
    }
    None
}

/// The first position of `c` in `s` (`str::find` with a `char`).
pub open spec fn find_char(s: Seq<char>, c: char) -> Option<int> {
    find(s, seq![c])
}

/// The last position of `c` in `s` (`str::rfind` with a `char`).
pub open spec fn rfind_char(s: Seq<char>, c: char) -> Option<int>
    decreases s.len(),
{
    if s.len() == 0 {
        None
    } else if s.last() == c {
        Some(s.len() - 1)
    } else {
        rfind_char(s.drop_last(), c)
    }
}

/// The last position of `c` in `s[..hi]`.
pub fn rfind_in(s: &Vec<char>, hi: usize, c: char) -> (r: Option<usize>)
    requires
        hi <= s@.len(),
    ensures
        r matches Some(k) ==> rfind_char(s@.subrange(0, hi as int), c) == Some(k as int) && k
            < hi,
        r is None ==> rfind_char(s@.subrange(0, hi as int), c) is None,
{
    let mut j = hi;
    while j > 0
        invariant
            j <= hi <= s@.len(),
            rfind_char(s@.subrange(0, hi as int), c) == rfind_char(s@.subrange(0, j as int), c),
        decreases j,
    {
        assert(s@.subrange(0, j as int).drop_last() =~= s@.subrange(0, j - 1));
        if s[j - 1] == c {
            return Some(j - 1);
        }
        j = j - 1;
    }
    None
}

// ---------------------------------------------------------------------------
// Joining
// ---------------------------------------------------------------------------
/// The views of a list of strings.
pub open spec fn views(v: Seq<String>) -> Seq<Seq<char>> {
    v.map_values(|s: String| s@)
}

/// The view of an optional string.
pub open spec fn opt_view(o: Option<String>) -> Option<Seq<char>> {
    match o {
        Some(s) => Some(s@),
        None => None,
    }
}

/// The view of an optional string slice.
pub open spec fn opt_str(o: Option<&str>) -> Option<Seq<char>> {
    match o {
        Some(s) => Some(s@),
        None => None,
    }
}

/// The parts with `sep` between each two (`[T]::join`).
pub open spec fn join_with(parts: Seq<Seq<char>>, sep: Seq<char>) -> Seq<char>
    decreases parts.len(),
{
    if parts.len() == 0 {
        seq![]
    } else if parts.len() == 1 {
        parts[0]
    } else {
        join_with(parts.drop_last(), sep) + sep + parts.last()
    }
}

/// The parts with `sep` between each two.
pub fn join_strings(parts: &Vec<String>, sep: &str) -> (r: String)
    ensures
        r@ == join_with(views(parts@), sep@),
{
    let mut r = String::new();
    let mut i: usize = 0;
    while i < parts.len()
        invariant
            0 <= i <= parts@.len(),
            r@ == join_with(views(parts@.subrange(0, i as int)), sep@),
        decreases parts@.len() - i,
    {
        let ghost pre = views(parts@.subrange(0, i + 1));
        assert(pre.drop_last() =~= views(parts@.subrange(0, i as int)));
        assert(pre.last() == parts@[i as int]@);
        if i > 0 {
            push_all(&mut r, sep);
        } else {
            assert(r@ =~= Seq::<char>::empty());
        }
        push_all(&mut r, &parts[i]);
        proof {
            if i == 0 {
                assert(pre.len() == 1);
                assert(r@ =~= pre[0]);
            }
        }
        i = i + 1;
    }
    assert(parts@.subrange(0, parts@.len() as int) =~= parts@);
    r
}

// ---------------------------------------------------------------------------
// String order and sorted sets of strings
// ---------------------------------------------------------------------------
/// `a` sorts before `b` in the order of `String` (byte-wise on UTF-8, which
/// is the order of the code points, character by character).
pub open spec fn str_lt(a: Seq<char>, b: Seq<char>) -> bool
    decreases a.len(),
{
    if a.len() == 0 {
        b.len() > 0
    } else if b.len() == 0 {
        false
    } else if a[0] != b[0] {
        (a[0] as int) < (b[0] as int)
    } else {
        str_lt(a.drop_first(), b.drop_first())
    }
}

/// No string sorts before itself.
pub proof fn lemma_str_lt_irreflexive(a: Seq<char>)
    ensures
        !str_lt(a, a),
    decreases a.len(),
{
    if a.len() > 0 {
        lemma_str_lt_irreflexive(a.drop_first());
    }
}

/// The string order is transitive.
pub proof fn lemma_str_lt_transitive(a: Seq<char>, b: Seq<char>, c: Seq<char>)
    requires
        str_lt(a, b),
        str_lt(b, c),
    ensures
        str_lt(a, c),
    decreases a.len(),
{
    if a.len() > 0 && b.len() > 0 && c.len() > 0 && a[0] == b[0] && b[0] == c[0] {
        lemma_str_lt_transitive(a.drop_first(), b.drop_first(), c.drop_first());
    }
}

/// Two different strings are ordered one way or the other.
pub proof fn lemma_str_lt_total(a: Seq<char>, b: Seq<char>)
    requires
        a != b,
    ensures
        str_lt(a, b) || str_lt(b, a),
    decreases a.len(),
{
    if a.len() > 0 && b.len() > 0 && a[0] == b[0] {
        if a.drop_first() == b.drop_first() {
            assert(a =~= seq![a[0]] + a.drop_first());
            assert(b =~= seq![b[0]] + b.drop_first());
        }
        lemma_str_lt_total(a.drop_first(), b.drop_first());
    } else if a.len() > 0 && b.len() > 0 {
        assert((a[0] as int) != (b[0] as int));
    } else if a.len() == 0 && b.len() == 0 {
        assert(a =~= b);
    }
}

/// Tests whether `a` sorts before `b`.
pub fn less_str(a: &str, b: &str) -> (r: bool)
    ensures
        r == str_lt(a@, b@),
{
    let x = to_chars(a);
    let y = to_chars(b);
    let mut i: usize = 0;
    assert(x@.subrange(0, x@.len() as int) =~= x@);
    assert(y@.subrange(0, y@.len() as int) =~= y@);
    while i < x.len() && i < y.len() && x[i] == y[i]
        invariant
            0 <= i <= x@.len(),
            i <= y@.len(),
            x@ == a@,
            y@ == b@,
            str_lt(a@, b@) == str_lt(
                x@.subrange(i as int, x@.len() as int),
                y@.subrange(i as int, y@.len() as int),
            ),
        decreases x@.len() - i,
    {
        assert(x@.subrange(i as int, x@.len() as int).drop_first() =~= x@.subrange(
            i + 1,
            x@.len() as int,
        ));
        assert(y@.subrange(i as int, y@.len() as int).drop_first() =~= y@.subrange(
            i + 1,
            y@.len() as int,
        ));
        i = i + 1;
    }
    let ghost xs = x@.subrange(i as int, x@.len() as int);
    let ghost ys = y@.subrange(i as int, y@.len() as int);
    if i == x.len() {
        i < y.len()
    } else if i == y.len() {
        false
    } else {
        assert(xs[0] == x@[i as int] && ys[0] == y@[i as int]);
        x[i] < y[i]
    }
}

/// `k` added to the sorted sequence `s`: placed before the first element it
/// sorts before, unless it is already there.
pub open spec fn insert_key(s: Seq<Seq<char>>, k: Seq<char>) -> Seq<Seq<char>>
    decreases s.len(),
{
    if s.len() == 0 {
        seq![k]
    } else if s[0] == k {
        s
    } else if str_lt(k, s[0]) {
        seq![k] + s
    } else {
        seq![s[0]] + insert_key(s.drop_first(), k)
    }
}

/// The strings of `keys`, sorted and without repeats (as a `BTreeSet`
/// iterates them).
pub open spec fn sort_unique(keys: Seq<Seq<char>>) -> Seq<Seq<char>>
    decreases keys.len(),
{
    if keys.len() == 0 {
        seq![]
    } else {
        insert_key(sort_unique(keys.drop_last()), keys.last())
    }
}

/// `s` is strictly increasing.
pub open spec fn strictly_sorted(s: Seq<Seq<char>>) -> bool {
    forall|i: int, j: int| 0 <= i < j < s.len() ==> str_lt(#[trigger] s[i], #[trigger] s[j])
}

proof fn lemma_insert_key_at(s: Seq<Seq<char>>, k: Seq<char>, p: int)
    requires
        0 <= p <= s.len(),
        forall|j: int| 0 <= j < p ==> str_lt(#[trigger] s[j], k),
    ensures
        insert_key(s, k) == s.subrange(0, p) + insert_key(s.subrange(p, s.len() as int), k),
    decreases p,
{
    if p == 0 {
        assert(s.subrange(0, 0) + s.subrange(0, s.len() as int) =~= s);
        assert(s.subrange(0, s.len() as int) =~= s);
        assert(s.subrange(0, 0) + insert_key(s, k) =~= insert_key(s, k));
    } else {
        lemma_str_lt_irreflexive(k);
        assert(str_lt(s[0], k));
        if str_lt(k, s[0]) {
            lemma_str_lt_transitive(k, s[0], k);
        }
        let t = s.drop_first();
        assert forall|j: int| 0 <= j < p - 1 implies str_lt(#[trigger] t[j], k) by {
            assert(t[j] == s[j + 1]);
        }
        lemma_insert_key_at(t, k, p - 1);
        assert(t.subrange(0, p - 1) =~= s.subrange(1, p));
        assert(t.subrange(p - 1, t.len() as int) =~= s.subrange(p, s.len() as int));
        assert(seq![s[0]] + s.subrange(1, p) =~= s.subrange(0, p));
    }
}

/// Adds `key` to the sorted, repeat-free list `set`.
pub fn insert_sorted(set: &mut Vec<String>, key: String)
    ensures
        views(final(set)@) == insert_key(views(old(set)@), key@),
{
    let ghost s = views(set@);
    let mut p: usize = 0;
    while p < set.len() && less_str(&set[p], &key)
        invariant
            0 <= p <= set@.len(),
            set@ == old(set)@,
            s == views(set@),
            forall|j: int| 0 <= j < p ==> str_lt(#[trigger] s[j], key@),
        decreases set@.len() - p,
    {
        assert(s[p as int] == set@[p as int]@);
        p = p + 1;
    }
    proof {
        lemma_insert_key_at(s, key@, p as int);
    }
    let ghost tail = s.subrange(p as int, s.len() as int);
    if p == set.len() {
        set.push(key);
        assert(views(set@) =~= s + seq![key@]);
        assert(s.subrange(0, p as int) =~= s);
    } else if set[p] == key {
        assert(tail[0] == key@);
        assert(s.subrange(0, p as int) + tail =~= s);
    } else {
        proof {
            assert(tail[0] == s[p as int]);
            assert(!str_lt(s[p as int], key@));
            lemma_str_lt_total(s[p as int], key@);
        }
        set.insert(p, key);
        assert(views(set@) =~= s.subrange(0, p as int) + (seq![key@] + tail));
    }
}

/// The strings of `keys`, sorted and without repeats.
pub fn sorted_unique(keys: &Vec<String>) -> (r: Vec<String>)
    ensures
        views(r@) == sort_unique(views(keys@)),
{
    let mut r: Vec<String> = Vec::new();
    let mut i: usize = 0;
    while i < keys.len()
        invariant
            0 <= i <= keys@.len(),
            views(r@) == sort_unique(views(keys@.subrange(0, i as int))),
        decreases keys@.len() - i,
    {
        let ghost pre = views(keys@.subrange(0, i + 1));
        assert(pre.drop_last() =~= views(keys@.subrange(0, i as int)));
        assert(pre.last() == keys@[i as int]@);
        insert_sorted(&mut r, copy_str(&keys[i]));
        i = i + 1;
    }
    assert(keys@.subrange(0, keys@.len() as int) =~= keys@);
    r
}

proof fn lemma_contains_front(s: Seq<Seq<char>>, x: Seq<char>)
    requires
        s.len() > 0,
    ensures
        s.contains(x) <==> (x == s[0] || s.drop_first().contains(x)),
{
    if s.contains(x) {
        let i = choose|i: int| 0 <= i < s.len() && s[i] == x;
        if i > 0 {
            assert(s.drop_first()[i - 1] == x);
        }
    }
    if s.drop_first().contains(x) {
        let i = choose|i: int| 0 <= i < s.drop_first().len() && s.drop_first()[i] == x;
        assert(s[i + 1] == x);
    }
    if x == s[0] {
        assert(s[0] == x);
    }
}

/// A member of a non-empty list is its last element or a member of the rest.
pub proof fn lemma_contains_back(s: Seq<Seq<char>>, x: Seq<char>)
    requires
        s.len() > 0,
    ensures
        s.contains(x) <==> (x == s.last() || s.drop_last().contains(x)),
{
    if s.contains(x) {
        let i = choose|i: int| 0 <= i < s.len() && s[i] == x;
        if i < s.len() - 1 {
            assert(s.drop_last()[i] == x);
        }
    }
    if s.drop_last().contains(x) {
        let i = choose|i: int| 0 <= i < s.drop_last().len() && s.drop_last()[i] == x;
        assert(s[i] == x);
    }
    if x == s.last() {
        assert(s[s.len() - 1] == x);
    }
}

/// Adding a key keeps exactly the old members and the key.
pub proof fn lemma_insert_key_members(s: Seq<Seq<char>>, k: Seq<char>, x: Seq<char>)
    ensures
        insert_key(s, k).contains(x) <==> (s.contains(x) || x == k),
    decreases s.len(),
{
    let r = insert_key(s, k);
    if s.len() == 0 {
        lemma_contains_front(r, x);
        assert(r.drop_first() =~= Seq::<Seq<char>>::empty());
    } else if s[0] == k {
        lemma_contains_front(s, x);
    } else if str_lt(k, s[0]) {
        lemma_contains_front(r, x);
        assert(r.drop_first() =~= s);
    } else {
        lemma_insert_key_members(s.drop_first(), k, x);
        lemma_contains_front(r, x);
        lemma_contains_front(s, x);
        assert(r.drop_first() =~= insert_key(s.drop_first(), k));
    }
}

/// Adding a key to a strictly sorted list keeps it strictly sorted.
pub proof fn lemma_insert_key_sorted(s: Seq<Seq<char>>, k: Seq<char>)
    requires
        strictly_sorted(s),
    ensures
        strictly_sorted(insert_key(s, k)),
    decreases s.len(),
{
    let r = insert_key(s, k);
    if s.len() == 0 {
    } else if s[0] == k {
    } else if str_lt(k, s[0]) {
        assert forall|i: int, j: int| 0 <= i < j < r.len() implies str_lt(
            #[trigger] r[i],
            #[trigger] r[j],
        ) by {
            if i == 0 {
                if j > 1 {
                    assert(str_lt(s[0], s[j - 1]));
                    lemma_str_lt_transitive(k, s[0], s[j - 1]);
                }
            } else {
                assert(r[i] == s[i - 1] && r[j] == s[j - 1]);
            }
        }
    } else {
        lemma_str_lt_total(s[0], k);
        let t = s.drop_first();
        assert(strictly_sorted(t)) by {
            assert forall|i: int, j: int| 0 <= i < j < t.len() implies str_lt(
                #[trigger] t[i],
                #[trigger] t[j],
            ) by {
                assert(t[i] == s[i + 1] && t[j] == s[j + 1]);
            }
        }
        lemma_insert_key_sorted(t, k);
        let u = insert_key(t, k);
        assert forall|i: int, j: int| 0 <= i < j < r.len() implies str_lt(
            #[trigger] r[i],
            #[trigger] r[j],
        ) by {
            if i == 0 {
                let y = u[j - 1];
                assert(u.contains(y));
                lemma_insert_key_members(t, k, y);
                if t.contains(y) {
                    let q = choose|q: int| 0 <= q < t.len() && t[q] == y;
                    assert(s[q + 1] == y);
                }
            } else {
                assert(r[i] == u[i - 1] && r[j] == u[j - 1]);
            }
        }
    }
}

/// `sort_unique` gives a strictly sorted list with exactly the given
/// strings as members.
pub proof fn lemma_sort_unique(keys: Seq<Seq<char>>)
    ensures
        strictly_sorted(sort_unique(keys)),
        forall|x: Seq<char>| #[trigger] sort_unique(keys).contains(x) <==> keys.contains(x),
    decreases keys.len(),
{
    if keys.len() > 0 {
        lemma_sort_unique(keys.drop_last());
        lemma_insert_key_sorted(sort_unique(keys.drop_last()), keys.last());
        assert forall|x: Seq<char>| #[trigger] sort_unique(keys).contains(x) <==> keys.contains(
            x,
        ) by {
            lemma_insert_key_members(sort_unique(keys.drop_last()), keys.last(), x);
            lemma_contains_back(keys, x);
        }
    }
}

} // verus!
