//! Character-level helpers: numeric text in a given radix, equality and
//! substring search over character sequences.
use vstd::arithmetic::power::pow;
use vstd::prelude::*;

verus! {

/// The characters of `s`, one per element.
pub fn chars_of(s: &str) -> (r: Vec<char>)
    ensures
        r@ == s@,
{
    let mut r: Vec<char> = Vec::new();
    for c in it: s.chars()
        invariant
            r@ == it.seq().take(it.index() as int),
            it.seq() == s@,
    {
        r.push(c);
    }
    r
}

/// Value of a digit character (`0-9`, `a-f`, `A-F`), or -1 for any other character.
pub open spec fn digit_value(c: char) -> int {
    let v = c as u32;
    if 48 <= v <= 57 {
        v - 48
    } else if 97 <= v <= 102 {
        v - 87
    } else if 65 <= v <= 70 {
        v - 55
    } else {
        -1
    }
}

pub open spec fn is_digit_in(c: char, radix: int) -> bool {
    0 <= digit_value(c) < radix
}

pub open spec fn all_digits_in(s: Seq<char>, radix: int) -> bool {
    forall|i: int| 0 <= i < s.len() ==> is_digit_in(#[trigger] s[i], radix)
}

/// The number that the digits `s` denote in `radix`, most significant first.
pub open spec fn digits_value(s: Seq<char>, radix: int) -> int
    decreases s.len(),
{
    if s.len() == 0 {
        0
    } else {
        digits_value(s.drop_last(), radix) * radix + digit_value(s.last())
    }
}

/// Reading `s` as an unsigned number in `radix` that may not exceed `max`:
/// at least one digit, and nothing else (no sign).
pub open spec fn parse_unsigned(s: Seq<char>, radix: int, max: int) -> Option<int> {
    if s.len() > 0 && all_digits_in(s, radix) && digits_value(s, radix) <= max {
        Some(digits_value(s, radix))
    } else {
        None
    }
}

proof fn lemma_digits_value_nonneg(s: Seq<char>, radix: int)
    requires
        all_digits_in(s, radix),
        radix >= 1,
    ensures
        digits_value(s, radix) >= 0,
    decreases s.len(),
{
    if s.len() > 0 {
        assert(all_digits_in(s.drop_last(), radix)) by {
            assert forall|i: int| 0 <= i < s.drop_last().len() implies is_digit_in(
                #[trigger] s.drop_last()[i],
                radix,
            ) by {
                assert(s.drop_last()[i] == s[i]);
            }
        }
        lemma_digits_value_nonneg(s.drop_last(), radix);
        assert(is_digit_in(s[s.len() - 1], radix));
        let v = digits_value(s.drop_last(), radix);
        assert(v * radix >= 0) by (nonlinear_arith)
            requires
                v >= 0,
                radix >= 1,
        ;
    }
}

fn digit_of(c: char) -> (r: i64)
    ensures
        r == digit_value(c),
{
    let v = c as u32;
    if 48 <= v && v <= 57 {
        (v - 48) as i64
    } else if 97 <= v && v <= 102 {
        (v - 87) as i64
    } else if 65 <= v && v <= 70 {
        (v - 55) as i64
    } else {
        -1
    }
}

/// Reads `s` as an unsigned number in `radix`, refusing values above `max`.
pub fn parse_unsigned_chars(s: &Vec<char>, radix: u64, max: u64) -> (r: Option<u64>)
    requires
        radix == 10 || radix == 16,
    ensures
        r is Some <==> parse_unsigned(s@, radix as int, max as int) is Some,
        r is Some ==> r->0 as int == parse_unsigned(s@, radix as int, max as int)->0,
{
    let n = s.len();
    let start: usize = 0;
    let ghost d = s@;
    assert(d == s@.subrange(start as int, n as int));
    if start >= n {
        return None;
    }
    let bound: u128 = max as u128 + 1;
    let mut acc: u128 = 0;
    let mut i: usize = start;
    while i < n
        invariant
            start <= i <= n,
            n == s.len(),
            bound == max + 1,
            d == s@.subrange(start as int, n as int),
            radix == 10 || radix == 16,
            all_digits_in(s@.subrange(start as int, i as int), radix as int),
            acc == if digits_value(s@.subrange(start as int, i as int), radix as int) <= max {
                digits_value(s@.subrange(start as int, i as int), radix as int)
            } else {
                bound as int
            },
        decreases n - i,
    {
        let dv = digit_of(s[i]);
        if dv < 0 || dv >= radix as i64 {
            assert(d[i - start] == s@[i as int]);
            assert(!is_digit_in(d[i - start], radix as int));
            return None;
        }
        let ghost pre = s@.subrange(start as int, i as int);
        let ghost next = s@.subrange(start as int, i + 1);
        assert(next.drop_last() == pre);
        assert(next.last() == s@[i as int]);
        assert(all_digits_in(next, radix as int)) by {
            assert forall|k: int| 0 <= k < next.len() implies is_digit_in(
                #[trigger] next[k],
                radix as int,
            ) by {
                if k < pre.len() {
                    assert(next[k] == pre[k]);
                }
            }
        }
        proof {
            lemma_digits_value_nonneg(pre, radix as int);
        }
        let ghost pv = digits_value(pre, radix as int);
        if acc >= bound {
            assert(pv * radix + dv > max) by (nonlinear_arith)
                requires
                    pv > max,
                    radix >= 1,
                    dv >= 0,
            ;
        } else {
            assert(acc * (radix as u128) + (dv as u128) < bound * 16) by (nonlinear_arith)
                requires
                    acc < bound,
                    radix <= 16,
                    0 <= dv < radix,
            ;
            let nv: u128 = acc * (radix as u128) + (dv as u128);
            if nv > max as u128 {
                acc = bound;
            } else {
                acc = nv;
            }
        }
        i = i + 1;
    }
    assert(s@.subrange(start as int, n as int) == d);
    if acc >= bound {
        None
    } else {
        Some(acc as u64)
    }
}

/// The digit characters, lowest value first.
pub open spec fn lower_digits() -> Seq<char> {
    seq!['0', '1', '2', '3', '4', '5', '6', '7', '8', '9', 'a', 'b', 'c', 'd', 'e', 'f']
}

/// The `width` lowest digits of `v` in `radix`, most significant first, with leading zeros.
pub open spec fn fixed_digits(v: nat, radix: nat, width: nat) -> Seq<char>
    decreases width,
{
    if width == 0 || radix == 0 {
        Seq::empty()
    } else {
        fixed_digits(v / radix, radix, (width - 1) as nat).push(lower_digits()[(v % radix) as int])
    }
}

/// How many digits `v` has in `radix` (zero has one).
pub open spec fn num_digits(v: nat, radix: nat) -> nat
    decreases v,
    via num_digits_decreases
{
    if v < radix || radix <= 1 {
        1
    } else {
        1 + num_digits(v / radix, radix)
    }
}

#[via_fn]
proof fn num_digits_decreases(v: nat, radix: nat) {
    if !(v < radix || radix <= 1) {
        assert(v / radix < v) by (nonlinear_arith)
            requires
                v >= radix,
                radix >= 2,
        ;
    }
}

fn digit_str(d: u64) -> (r: &'static str)
    requires
        d < 16,
    ensures
        r@ == seq![lower_digits()[d as int]],
{
    let digits: &'static str = "0123456789abcdef";
    proof {
        reveal_strlit("0123456789abcdef");
        assert(digits@ == lower_digits());
    }
    let r = digits.substring_ascii(d as usize, d as usize + 1);
    assert(r@ =~= seq![lower_digits()[d as int]]);
    r
}

/// `v` written with exactly `width` digits in `radix`.
pub fn format_fixed(v: u64, radix: u64, width: usize) -> (r: String)
    requires
        2 <= radix <= 16,
    ensures
        r@ == fixed_digits(v as nat, radix as nat, width as nat),
    decreases width,
{
    if width == 0 {
        String::new()
    } else {
        let mut s = format_fixed(v / radix, radix, width - 1);
        s.append(digit_str(v % radix));
        s
    }
}

/// How many digits `v` has in `radix`.
pub fn count_digits(v: u64, radix: u64) -> (r: usize)
    requires
        2 <= radix,
    ensures
        r == num_digits(v as nat, radix as nat),
        r <= 64,
    decreases v,
{
    if v < radix {
        1
    } else {
        assert(v / radix < v) by (nonlinear_arith)
            requires
                v >= radix,
                radix >= 2,
        ;
        let k = count_digits(v / radix, radix);
        proof {
            lemma_num_digits_bound(v as nat, radix as nat);
        }
        k + 1
    }
}

proof fn lemma_num_digits_bound(v: nat, radix: nat)
    requires
        radix >= 2,
        v <= u64::MAX,
    ensures
        num_digits(v, radix) <= 64,
        pow(radix as int, num_digits(v, radix)) > v,
        pow(radix as int, (num_digits(v, radix) - 1) as nat) <= if v == 0 { 1 } else { v },
    decreases v,
{
    reveal(pow);
    if v >= radix {
        assert(v / radix < v) by (nonlinear_arith)
            requires
                v >= radix,
                radix >= 2,
        ;
        lemma_num_digits_bound(v / radix, radix);
        let k = num_digits(v / radix, radix);
        let p = pow(radix as int, k);
        let q = pow(radix as int, (k - 1) as nat);
        assert(pow(radix as int, k + 1) == radix * p);
        assert(v < radix * p) by (nonlinear_arith)
            requires
                p > v / radix,
                radix >= 2,
        ;
        assert(v / radix >= 1) by (nonlinear_arith)
            requires
                v >= radix,
                radix >= 2,
        ;
        assert(p == radix * q);
        assert(radix * q <= v) by (nonlinear_arith)
            requires
                q <= v / radix,
                radix >= 2,
        ;
        if k >= 64 {
            lemma_pow_mono(radix as int, 64, k);
            lemma_two_pow_64();
            lemma_pow_base_mono(2, radix as int, 64);
        }
    } else {
        assert(pow(radix as int, 1) == radix * pow(radix as int, 0));
    }
}

proof fn lemma_pow_ge(b: int, e: nat)
    requires
        b >= 1,
    ensures
        pow(b, e) >= 1,
    decreases e,
{
    reveal(pow);
    if e > 0 {
        lemma_pow_ge(b, (e - 1) as nat);
        let p = pow(b, (e - 1) as nat);
        assert(b * p >= 1) by (nonlinear_arith)
            requires
                b >= 1,
                p >= 1,
        ;
    }
}

proof fn lemma_pow_mono(b: int, e1: nat, e2: nat)
    requires
        b >= 1,
        e1 <= e2,
    ensures
        pow(b, e1) <= pow(b, e2),
    decreases e2,
{
    reveal(pow);
    if e1 < e2 {
        lemma_pow_mono(b, e1, (e2 - 1) as nat);
        lemma_pow_ge(b, (e2 - 1) as nat);
        let p = pow(b, (e2 - 1) as nat);
        assert(p <= b * p) by (nonlinear_arith)
            requires
                b >= 1,
                p >= 1,
        ;
    }
}

proof fn lemma_pow_base_mono(a: int, b: int, e: nat)
    requires
        1 <= a <= b,
    ensures
        pow(a, e) <= pow(b, e),
    decreases e,
{
    reveal(pow);
    if e > 0 {
        lemma_pow_base_mono(a, b, (e - 1) as nat);
        lemma_pow_ge(a, (e - 1) as nat);
        let p = pow(a, (e - 1) as nat);
        let q = pow(b, (e - 1) as nat);
        assert(a * p <= b * q) by (nonlinear_arith)
            requires
                1 <= a <= b,
                1 <= p <= q,
        ;
    }
}

proof fn lemma_two_pow_64()
    ensures
        pow(2, 64) == 0x1_0000_0000_0000_0000,
{
    reveal_with_fuel(pow, 65);
}

/// Sixteen hexadecimal digits cover every `u64`.
pub proof fn lemma_sixteen_pow_16()
    ensures
        pow(16, 16) == 0x1_0000_0000_0000_0000,
{
    reveal_with_fuel(pow, 17);
}

/// Digits written by `fixed_digits` read back as the number, when it fits the width.
pub proof fn lemma_fixed_digits_value(v: nat, radix: nat, width: nat)
    requires
        2 <= radix <= 16,
        v < pow(radix as int, width),
    ensures
        fixed_digits(v, radix, width).len() == width,
        all_digits_in(fixed_digits(v, radix, width), radix as int),
        digits_value(fixed_digits(v, radix, width), radix as int) == v,
    decreases width,
{
    reveal(pow);
    let s = fixed_digits(v, radix, width);
    if width > 0 {
        let p = pow(radix as int, (width - 1) as nat);
        assert(v / radix < p) by (nonlinear_arith)
            requires
                v < radix * p,
                radix >= 2,
        ;
        lemma_fixed_digits_value(v / radix, radix, (width - 1) as nat);
        let prev = fixed_digits(v / radix, radix, (width - 1) as nat);
        let c = lower_digits()[(v % radix) as int];
        assert(s == prev.push(c));
        assert(s.drop_last() == prev);
        lemma_lower_digit_value((v % radix) as int);
        assert(v == (v / radix) * radix + v % radix) by (nonlinear_arith)
            requires
                radix >= 2,
        ;
        assert forall|i: int| 0 <= i < s.len() implies is_digit_in(#[trigger] s[i], radix as int) by {
            if i < prev.len() {
                assert(s[i] == prev[i]);
            }
        }
    } else {
        assert(v == 0);
    }
}

proof fn lemma_lower_digit_value(d: int)
    requires
        0 <= d < 16,
    ensures
        digit_value(lower_digits()[d]) == d,
{
    let ds = lower_digits();
    assert(ds[0] == '0' && ds[1] == '1' && ds[2] == '2' && ds[3] == '3');
    assert(ds[4] == '4' && ds[5] == '5' && ds[6] == '6' && ds[7] == '7');
    assert(ds[8] == '8' && ds[9] == '9' && ds[10] == 'a' && ds[11] == 'b');
    assert(ds[12] == 'c' && ds[13] == 'd' && ds[14] == 'e' && ds[15] == 'f');
}

/// The number of digits is enough to write `v` back exactly.
pub proof fn lemma_num_digits_fit(v: nat, radix: nat, width: nat)
    requires
        2 <= radix <= 16,
        v <= u64::MAX,
        width >= num_digits(v, radix),
    ensures
        v < pow(radix as int, width),
{
    lemma_num_digits_bound(v, radix);
    lemma_pow_mono(radix as int, num_digits(v, radix), width);
}

/// Whether `a` and `b` hold the same characters.
pub fn chars_equal(a: &Vec<char>, b: &Vec<char>) -> (r: bool)
    ensures
        r == (a@ == b@),
{
    if a.len() != b.len() {
        return false;
    }
    let mut i: usize = 0;
    while i < a.len()
        invariant
            a.len() == b.len(),
            i <= a.len(),
            a@.take(i as int) == b@.take(i as int),
        decreases a.len() - i,
    {
        if a[i] != b[i] {
            assert(a@[i as int] != b@[i as int]);
            return false;
        }
        assert(a@.take(i + 1) == a@.take(i as int).push(a@[i as int]));
        assert(b@.take(i + 1) == b@.take(i as int).push(b@[i as int]));
        i = i + 1;
    }
    assert(a@ == a@.take(a.len() as int));
    assert(b@ == b@.take(b.len() as int));
    true
}

/// Whether `needle` occurs in `hay` as a contiguous run.
pub open spec fn is_substring(needle: Seq<char>, hay: Seq<char>) -> bool {
    exists|i: int|
        0 <= i && i + needle.len() <= hay.len() && #[trigger] hay.subrange(i, i + needle.len())
            == needle
}

fn matches_at(hay: &Vec<char>, needle: &Vec<char>, at: usize) -> (r: bool)
    requires
        at + needle.len() <= hay.len(),
    ensures
        r == (hay@.subrange(at as int, at + needle.len()) == needle@),
{
    let mut j: usize = 0;
    while j < needle.len()
        invariant
            at + needle.len() <= hay.len(),
            j <= needle.len(),
            hay@.subrange(at as int, at + j) == needle@.take(j as int),
        decreases needle.len() - j,
    {
        if hay[at + j] != needle[j] {
            assert(hay@.subrange(at as int, at + needle.len())[j as int] != needle@[j as int]);
            return false;
        }
        assert(hay@.subrange(at as int, at + j + 1) == hay@.subrange(at as int, at + j).push(
            hay@[at + j],
        ));
        assert(needle@.take(j + 1) == needle@.take(j as int).push(needle@[j as int]));
        j = j + 1;
    }
    assert(needle@ == needle@.take(needle.len() as int));
    true
}

/// Whether `needle` occurs in `hay`.
pub fn contains_chars(hay: &Vec<char>, needle: &Vec<char>) -> (r: bool)
    ensures
        r == is_substring(needle@, hay@),
{
    if needle.len() > hay.len() {
        return false;
    }
    let last = hay.len() - needle.len();
    let mut i: usize = 0;
    while i < last
        invariant
            last + needle.len() == hay.len(),
            i <= last,
            forall|k: int|
                0 <= k < i ==> #[trigger] hay@.subrange(k, k + needle.len()) != needle@,
        decreases last - i,
    {
        if matches_at(hay, needle, i) {
            return true;
        }
        i = i + 1;
    }
    matches_at(hay, needle, last)
}

} // verus!
