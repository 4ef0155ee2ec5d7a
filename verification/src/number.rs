//! Decimal numbers in text: reading counts and angles, and writing them.

use vstd::prelude::*;

verus! {

/// Whether `c` is one of the ten ASCII digits.
pub open spec fn is_digit(c: char) -> bool {
    0x30 <= c as u32 <= 0x39
}

/// The number that the digit `c` stands for.
pub open spec fn digit_value(c: char) -> nat {
    (c as u32 - 0x30) as nat
}

/// Whether `s` holds digits only.
pub open spec fn all_digits(s: Seq<char>) -> bool {
    forall|i: int| 0 <= i < s.len() ==> is_digit(#[trigger] s[i])
}

/// The number that the digits of `s` spell in base ten (0 for no digits).
pub open spec fn digits_value(s: Seq<char>) -> nat
    decreases s.len(),
{
    if s.len() == 0 {
        0
    } else {
        digits_value(s.drop_last()) * 10 + digit_value(s.last())
    }
}

/// The number that `s` spells, if `s` holds digits only and the number is at
/// most `limit`.
pub open spec fn bounded_value(s: Seq<char>, limit: nat) -> Option<nat> {
    if all_digits(s) && digits_value(s) <= limit {
        Some(digits_value(s))
    } else {
        None
    }
}

/// A longer run of digits never spells a smaller number than its beginning.
pub proof fn lemma_digits_value_prefix(s: Seq<char>, k: int)
    requires
        0 <= k <= s.len(),
    ensures
        digits_value(s.take(k)) <= digits_value(s),
    decreases s.len(),
{
    if k == s.len() {
        assert(s.take(k) =~= s);
    } else {
        assert(s.take(k) =~= s.drop_last().take(k));
        lemma_digits_value_prefix(s.drop_last(), k);
    }
}

/// Tests `is_digit`.
pub fn char_is_digit(c: char) -> (b: bool)
    ensures
        b == is_digit(c),
{
    let u: u32 = c as u32;
    0x30 <= u && u <= 0x39
}

/// Computes `bounded_value` of `v[lo..hi]`.
pub fn read_digits(v: &Vec<char>, lo: usize, hi: usize, limit: u64) -> (r: Option<u64>)
    requires
        lo <= hi <= v.len(),
        limit <= 1_000_000_000_000_000_000,
    ensures
        r is Some <==> bounded_value(v@.subrange(lo as int, hi as int), limit as nat) is Some,
        r matches Some(n) ==> bounded_value(v@.subrange(lo as int, hi as int), limit as nat)
            == Some(n as nat),
{
    let ghost full = v@.subrange(lo as int, hi as int);
    let mut acc: u64 = 0;
    let mut i: usize = lo;
    while i < hi
        invariant
            lo <= i <= hi <= v.len(),
            limit <= 1_000_000_000_000_000_000,
            full == v@.subrange(lo as int, hi as int),
            acc <= limit,
            acc == digits_value(v@.subrange(lo as int, i as int)),
            all_digits(v@.subrange(lo as int, i as int)),
        decreases hi - i,
    {
        let c: char = v[i];
        if !char_is_digit(c) {
            assert(full[i - lo] == c);
            return None;
        }
        let d: u64 = (c as u32 - 0x30) as u64;
        let ghost next = v@.subrange(lo as int, i + 1);
        assert(next.drop_last() =~= v@.subrange(lo as int, i as int));
        assert(next.last() == c);
        assert(digits_value(next) == acc * 10 + d);
        if acc * 10 + d > limit {
            proof {
                assert(next =~= full.take(i + 1 - lo));
                lemma_digits_value_prefix(full, i + 1 - lo);
            }
            return None;
        }
        acc = acc * 10 + d;
        i = i + 1;
    }
    assert(v@.subrange(lo as int, i as int) == full);
    Some(acc)
}

/// The whole number that `s` spells as a signed 32-bit count: an optional
/// sign, then at least one digit, the number within the range of `i32`.
pub open spec fn parse_i32(s: Seq<char>) -> Option<int> {
    let negative = s.len() > 0 && s[0] == '-';
    let signed = s.len() > 0 && (s[0] == '-' || s[0] == '+');
    let body = if signed {
        s.subrange(1, s.len() as int)
    } else {
        s
    };
    if body.len() == 0 || !all_digits(body) {
        None
    } else if negative {
        if digits_value(body) <= 0x8000_0000 {
            Some(-(digits_value(body) as int))
        } else {
            None
        }
    } else {
        if digits_value(body) <= 0x7fff_ffff {
            Some(digits_value(body) as int)
        } else {
            None
        }
    }
}

/// Computes `parse_i32` of `v[lo..hi]`.
pub fn read_i32(v: &Vec<char>, lo: usize, hi: usize) -> (r: Option<i32>)
    requires
        lo <= hi <= v.len(),
    ensures
        r is Some <==> parse_i32(v@.subrange(lo as int, hi as int)) is Some,
        r matches Some(n) ==> parse_i32(v@.subrange(lo as int, hi as int)) == Some(n as int),
{
    let ghost s = v@.subrange(lo as int, hi as int);
    if lo == hi {
        return None;
    }
    assert(s[0] == v@[lo as int]);
    let negative: bool = v[lo] == '-';
    let signed: bool = negative || v[lo] == '+';
    let start: usize = if signed {
        lo + 1
    } else {
        lo
    };
    assert(v@.subrange(start as int, hi as int) =~= if signed {
        s.subrange(1, s.len() as int)
    } else {
        s
    });
    if start == hi {
        return None;
    }
    if negative {
        match read_digits(v, start, hi, 0x8000_0000) {
            Some(m) => {
                let n: i64 = -(m as i64);
                Some(n as i32)
            },
            None => None,
        }
    } else {
        match read_digits(v, start, hi, 0x7fff_ffff) {
            Some(m) => Some(m as i32),
            None => None,
        }
    }
}

/// The largest whole part that a decimal number may have to be read.
pub const WHOLE_LIMIT: u64 = 0x7fff_ffff;

/// The first index at or after `i` that holds a decimal point (`s.len()` if
/// there is none).
pub open spec fn first_point(s: Seq<char>, i: int) -> int
    decreases s.len() - i,
{
    if 0 <= i < s.len() && s[i] != '.' {
        first_point(s, i + 1)
    } else {
        i
    }
}

/// The thousandths that the digits behind a decimal point stand for; digits
/// behind the third are dropped.
pub open spec fn thousandths(frac: Seq<char>) -> nat {
    if frac.len() >= 3 {
        digits_value(frac.take(3))
    } else if frac.len() == 2 {
        digits_value(frac) * 10
    } else if frac.len() == 1 {
        digits_value(frac) * 100
    } else {
        0
    }
}

/// The digits of `body` behind its first decimal point.
pub open spec fn fraction_digits(body: Seq<char>) -> Seq<char> {
    let p = first_point(body, 0);
    if p < body.len() {
        body.subrange(p + 1, body.len() as int)
    } else {
        Seq::empty()
    }
}

/// The digits of `body` before its first decimal point.
pub open spec fn whole_digits(body: Seq<char>) -> Seq<char> {
    body.subrange(0, first_point(body, 0))
}

/// The number that the unsigned decimal `body` spells, in thousandths:
/// digits, and optionally a decimal point and more digits, with at least one
/// digit in all and a whole part of at most `WHOLE_LIMIT`.
pub open spec fn parse_unsigned_milli(body: Seq<char>) -> Option<nat> {
    let whole = whole_digits(body);
    let frac = fraction_digits(body);
    if whole.len() + frac.len() == 0 || !all_digits(whole) || !all_digits(frac) || digits_value(
        whole,
    ) > WHOLE_LIMIT {
        None
    } else {
        Some(digits_value(whole) * 1000 + thousandths(frac))
    }
}

/// The number that `s` spells, in thousandths: an optional sign, then an
/// unsigned decimal as `parse_unsigned_milli` reads it. Anything else spells
/// no number.
pub open spec fn parse_milli(s: Seq<char>) -> Option<int> {
    let negative = s.len() > 0 && s[0] == '-';
    let signed = s.len() > 0 && (s[0] == '-' || s[0] == '+');
    let body = if signed {
        s.subrange(1, s.len() as int)
    } else {
        s
    };
    match parse_unsigned_milli(body) {
        Some(m) => Some(
            if negative {
                -(m as int)
            } else {
                m as int
            },
        ),
        None => None,
    }
}

/// Up to three digits spell a number below a thousand.
pub proof fn lemma_digits_value_small(s: Seq<char>)
    requires
        all_digits(s),
    ensures
        s.len() == 0 ==> digits_value(s) == 0,
        s.len() == 1 ==> digits_value(s) <= 9,
        s.len() == 2 ==> digits_value(s) <= 99,
        s.len() == 3 ==> digits_value(s) <= 999,
    decreases s.len(),
{
    if s.len() > 0 {
        assert(is_digit(s[s.len() - 1]));
        assert forall|i: int| 0 <= i < s.drop_last().len() implies is_digit(
            #[trigger] s.drop_last()[i],
        ) by {
            assert(s.drop_last()[i] == s[i]);
        }
        lemma_digits_value_small(s.drop_last());
    }
}

/// Tests `all_digits` on `v[lo..hi]`.
pub fn digits_only(v: &Vec<char>, lo: usize, hi: usize) -> (b: bool)
    requires
        lo <= hi <= v.len(),
    ensures
        b == all_digits(v@.subrange(lo as int, hi as int)),
{
    let ghost s = v@.subrange(lo as int, hi as int);
    let mut i: usize = lo;
    while i < hi
        invariant
            lo <= i <= hi <= v.len(),
            s == v@.subrange(lo as int, hi as int),
            forall|k: int| 0 <= k < i - lo ==> is_digit(#[trigger] s[k]),
        decreases hi - i,
    {
        if !char_is_digit(v[i]) {
            assert(s[i - lo] == v@[i as int]);
            return false;
        }
        i = i + 1;
    }
    true
}

/// Computes `first_point` on `v[lo..hi]`, as an index into `v`.
pub fn find_point(v: &Vec<char>, lo: usize, hi: usize) -> (p: usize)
    requires
        lo <= hi <= v.len(),
    ensures
        lo <= p <= hi,
        p - lo == first_point(v@.subrange(lo as int, hi as int), 0),
{
    let ghost s = v@.subrange(lo as int, hi as int);
    let mut p: usize = lo;
    while p < hi && v[p] != '.'
        invariant
            lo <= p <= hi <= v.len(),
            s == v@.subrange(lo as int, hi as int),
            first_point(s, 0) == first_point(s, p - lo),
        decreases hi - p,
    {
        assert(s[p - lo] == v@[p as int]);
        p = p + 1;
    }
    assert(p < hi ==> s[p - lo] == v@[p as int]);
    p
}

/// Whether a run of digits that is cut in two holds digits only.
pub proof fn lemma_all_digits_split(s: Seq<char>, k: int)
    requires
        0 <= k <= s.len(),
    ensures
        all_digits(s) <==> all_digits(s.take(k)) && all_digits(s.skip(k)),
{
    let head = s.take(k);
    let tail = s.skip(k);
    if all_digits(s) {
        assert forall|i: int| 0 <= i < head.len() implies is_digit(#[trigger] head[i]) by {
            assert(head[i] == s[i]);
        }
        assert forall|i: int| 0 <= i < tail.len() implies is_digit(#[trigger] tail[i]) by {
            assert(tail[i] == s[i + k]);
        }
    }
    if all_digits(head) && all_digits(tail) {
        assert forall|i: int| 0 <= i < s.len() implies is_digit(#[trigger] s[i]) by {
            if i < k {
                assert(s[i] == head[i]);
            } else {
                assert(s[i] == tail[i - k]);
            }
        }
    }
}

/// Reads the digits `v[lo..hi]` behind a decimal point as thousandths.
pub fn read_fraction(v: &Vec<char>, lo: usize, hi: usize) -> (r: Option<u64>)
    requires
        lo <= hi <= v.len(),
    ensures
        r is Some <==> all_digits(v@.subrange(lo as int, hi as int)),
        r matches Some(t) ==> t == thousandths(v@.subrange(lo as int, hi as int)) && t <= 999,
{
    let ghost frac = v@.subrange(lo as int, hi as int);
    let fe: usize = if hi - lo > 3 {
        lo + 3
    } else {
        hi
    };
    let ghost head = v@.subrange(lo as int, fe as int);
    proof {
        assert(head =~= frac.take(fe - lo));
        assert(v@.subrange(fe as int, hi as int) =~= frac.skip(fe - lo));
        lemma_all_digits_split(frac, fe - lo);
        if all_digits(head) {
            lemma_digits_value_small(head);
        }
        if frac.len() <= 3 {
            assert(head =~= frac);
        }
    }
    if !digits_only(v, fe, hi) {
        return None;
    }
    match read_digits(v, lo, fe, 999) {
        Some(f) => {
            if fe - lo == 3 {
                Some(f)
            } else if fe - lo == 2 {
                Some(f * 10)
            } else if fe - lo == 1 {
                Some(f * 100)
            } else {
                Some(0)
            }
        },
        None => None,
    }
}

/// Computes `parse_unsigned_milli` of `v[lo..hi]`.
pub fn read_unsigned_milli(v: &Vec<char>, lo: usize, hi: usize) -> (r: Option<u64>)
    requires
        lo <= hi <= v.len(),
    ensures
        r is Some <==> parse_unsigned_milli(v@.subrange(lo as int, hi as int)) is Some,
        r matches Some(n) ==> parse_unsigned_milli(v@.subrange(lo as int, hi as int)) == Some(
            n as nat,
        ) && n <= WHOLE_LIMIT * 1000 + 999,
{
    let ghost body = v@.subrange(lo as int, hi as int);
    let p: usize = find_point(v, lo, hi);
    let fl: usize = if p < hi {
        p + 1
    } else {
        hi
    };
    assert(whole_digits(body) =~= v@.subrange(lo as int, p as int));
    assert(fraction_digits(body) =~= v@.subrange(fl as int, hi as int));
    if p - lo + (hi - fl) == 0 {
        return None;
    }
    match read_digits(v, lo, p, WHOLE_LIMIT) {
        Some(w) => match read_fraction(v, fl, hi) {
            Some(t) => Some(w * 1000 + t),
            None => None,
        },
        None => None,
    }
}

/// Computes `parse_milli` of `v[lo..hi]`.
pub fn read_milli(v: &Vec<char>, lo: usize, hi: usize) -> (r: Option<i64>)
    requires
        lo <= hi <= v.len(),
    ensures
        r is Some <==> parse_milli(v@.subrange(lo as int, hi as int)) is Some,
        r matches Some(n) ==> parse_milli(v@.subrange(lo as int, hi as int)) == Some(n as int),
{
    let ghost s = v@.subrange(lo as int, hi as int);
    let negative: bool = lo < hi && v[lo] == '-';
    let signed: bool = lo < hi && (v[lo] == '-' || v[lo] == '+');
    assert(lo < hi ==> s[0] == v@[lo as int]);
    let start: usize = if signed {
        lo + 1
    } else {
        lo
    };
    assert(v@.subrange(start as int, hi as int) =~= if signed {
        s.subrange(1, s.len() as int)
    } else {
        s
    });
    match read_unsigned_milli(v, start, hi) {
        Some(m) => {
            if negative {
                Some(-(m as i64))
            } else {
                Some(m as i64)
            }
        },
        None => None,
    }
}

/// The digit that stands for `d`, for `d` below ten.
pub open spec fn digit_char(d: nat) -> char {
    if d == 0 {
        '0'
    } else if d == 1 {
        '1'
    } else if d == 2 {
        '2'
    } else if d == 3 {
        '3'
    } else if d == 4 {
        '4'
    } else if d == 5 {
        '5'
    } else if d == 6 {
        '6'
    } else if d == 7 {
        '7'
    } else if d == 8 {
        '8'
    } else {
        '9'
    }
}

/// The digits of `n` in base ten, without leading zeros.
pub open spec fn nat_text(n: nat) -> Seq<char>
    decreases n,
{
    if n < 10 {
        seq![digit_char(n)]
    } else {
        nat_text(n / 10).push(digit_char(n % 10))
    }
}

/// The whole number `i` in base ten, with a minus sign if it is negative.
pub open spec fn int_text(i: int) -> Seq<char> {
    if i < 0 {
        seq!['-'] + nat_text((-i) as nat)
    } else {
        nat_text(i as nat)
    }
}

/// The fraction of `f` thousandths, for `f` below a thousand: nothing for
/// zero, else a decimal point and up to three digits, none of them a zero at
/// the end.
pub open spec fn fraction_text(f: nat) -> Seq<char> {
    if f == 0 {
        Seq::empty()
    } else if f % 100 == 0 {
        seq!['.', digit_char(f / 100)]
    } else if f % 10 == 0 {
        seq!['.', digit_char(f / 100), digit_char(f / 10 % 10)]
    } else {
        seq!['.', digit_char(f / 100), digit_char(f / 10 % 10), digit_char(f % 10)]
    }
}

/// The size of `m`.
pub open spec fn magnitude(m: int) -> nat {
    if m < 0 {
        (-m) as nat
    } else {
        m as nat
    }
}

/// A number of `m` thousandths as a decimal: sign, whole part, and the
/// fraction only if there is one.
pub open spec fn milli_text(m: int) -> Seq<char> {
    let sign = if m < 0 {
        seq!['-']
    } else {
        Seq::empty()
    };
    sign + nat_text(magnitude(m) / 1000) + fraction_text(magnitude(m) % 1000)
}

/// The digit for `d` as a text of its own.
pub fn digit_str(d: u64) -> (s: &'static str)
    requires
        d < 10,
    ensures
        s@ == seq![digit_char(d as nat)],
{
    proof {
        reveal_strlit("0");
        reveal_strlit("1");
        reveal_strlit("2");
        reveal_strlit("3");
        reveal_strlit("4");
        reveal_strlit("5");
        reveal_strlit("6");
        reveal_strlit("7");
        reveal_strlit("8");
        reveal_strlit("9");
    }
    let s: &'static str = if d == 0 {
        "0"
    } else if d == 1 {
        "1"
    } else if d == 2 {
        "2"
    } else if d == 3 {
        "3"
    } else if d == 4 {
        "4"
    } else if d == 5 {
        "5"
    } else if d == 6 {
        "6"
    } else if d == 7 {
        "7"
    } else if d == 8 {
        "8"
    } else {
        "9"
    };
    assert(s@ =~= seq![digit_char(d as nat)]);
    s
}

/// Appends `nat_text(n)` to `out`.
pub fn push_nat(out: &mut String, n: u64)
    ensures
        final(out)@ == old(out)@ + nat_text(n as nat),
    decreases n,
{
    if n >= 10 {
        push_nat(out, n / 10);
    }
    out.append(digit_str(n % 10));
    assert(out@ =~= old(out)@ + nat_text(n as nat));
}

/// Computes `magnitude`.
pub fn magnitude_of(m: i64) -> (a: u64)
    ensures
        a == magnitude(m as int),
{
    if m == i64::MIN {
        0x8000_0000_0000_0000
    } else if m < 0 {
        (-m) as u64
    } else {
        m as u64
    }
}

/// Appends a minus sign to `out`.
fn push_minus(out: &mut String)
    ensures
        final(out)@ == old(out)@ + seq!['-'],
{
    proof {
        reveal_strlit("-");
    }
    out.append("-");
    assert(out@ =~= old(out)@ + seq!['-']);
}

/// Appends `int_text(i)` to `out`.
pub fn push_int(out: &mut String, i: i64)
    ensures
        final(out)@ == old(out)@ + int_text(i as int),
{
    if i < 0 {
        push_minus(out);
    }
    push_nat(out, magnitude_of(i));
    assert(out@ =~= old(out)@ + int_text(i as int));
}

/// Appends `fraction_text(f)` to `out`.
pub fn push_fraction(out: &mut String, f: u64)
    requires
        f < 1000,
    ensures
        final(out)@ == old(out)@ + fraction_text(f as nat),
{
    if f != 0 {
        proof {
            reveal_strlit(".");
        }
        out.append(".");
        out.append(digit_str(f / 100));
        if f % 100 != 0 {
            out.append(digit_str(f / 10 % 10));
            if f % 10 != 0 {
                out.append(digit_str(f % 10));
            }
        }
    }
    assert(out@ =~= old(out)@ + fraction_text(f as nat));
}

/// Appends `milli_text(m)` to `out`.
pub fn push_milli(out: &mut String, m: i64)
    ensures
        final(out)@ == old(out)@ + milli_text(m as int),
{
    if m < 0 {
        push_minus(out);
    }
    let a: u64 = magnitude_of(m);
    push_nat(out, a / 1000);
    push_fraction(out, a % 1000);
    assert(out@ =~= old(out)@ + milli_text(m as int));
}

/// The digits of a number are digits, at least one, and spell the number.
pub proof fn lemma_nat_text_reads_back(n: nat)
    ensures
        nat_text(n).len() >= 1,
        all_digits(nat_text(n)),
        digits_value(nat_text(n)) == n,
    decreases n,
{
    let d = digit_char(n % 10);
    assert(is_digit(d) && digit_value(d) == n % 10);
    if n >= 10 {
        lemma_nat_text_reads_back(n / 10);
        let t = nat_text(n);
        assert(t.drop_last() =~= nat_text(n / 10));
        assert(t.last() == d);
        assert forall|i: int| 0 <= i < t.len() implies is_digit(#[trigger] t[i]) by {
            if i < t.len() - 1 {
                assert(t[i] == nat_text(n / 10)[i]);
            }
        }
    } else {
        let t = nat_text(n);
        assert(t.drop_last() =~= Seq::<char>::empty());
        assert(digits_value(t) == digits_value(t.drop_last()) * 10 + digit_value(t.last()));
    }
}

/// The text of a fraction is empty or a point and digits, and the digits
/// spell the thousandths.
pub proof fn lemma_fraction_text_reads_back(f: nat)
    requires
        f < 1000,
    ensures
        f == 0 ==> fraction_text(f).len() == 0,
        f > 0 ==> fraction_text(f).len() >= 2 && fraction_text(f)[0] == '.',
        f > 0 ==> all_digits(fraction_text(f).subrange(1, fraction_text(f).len() as int)),
        f > 0 ==> thousandths(fraction_text(f).subrange(1, fraction_text(f).len() as int)) == f,
{
    if f > 0 {
        let a = digit_char(f / 100);
        let b = digit_char(f / 10 % 10);
        let c = digit_char(f % 10);
        assert(is_digit(a) && digit_value(a) == f / 100);
        assert(is_digit(b) && digit_value(b) == f / 10 % 10);
        assert(is_digit(c) && digit_value(c) == f % 10);
        let digits = fraction_text(f).subrange(1, fraction_text(f).len() as int);
        let one = seq![a];
        let two = seq![a, b];
        let three = seq![a, b, c];
        assert(one.drop_last() =~= Seq::<char>::empty());
        assert(two.drop_last() =~= one);
        assert(three.drop_last() =~= two);
        assert(digits_value(one) == f / 100) by {
            assert(digits_value(one) == digits_value(one.drop_last()) * 10 + digit_value(
                one.last(),
            ));
        }
        assert(digits_value(two) == (f / 100) * 10 + f / 10 % 10);
        assert(digits_value(three) == ((f / 100) * 10 + f / 10 % 10) * 10 + f % 10);
        if f % 100 == 0 {
            assert(digits =~= one);
        } else if f % 10 == 0 {
            assert(digits =~= two);
        } else {
            assert(digits =~= three);
            assert(digits.take(3) =~= three);
        }
    }
}

/// Behind a run of digits, the first point is the one that follows them.
proof fn lemma_first_point_behind_digits(s: Seq<char>, n: int, i: int)
    requires
        0 <= i <= n <= s.len(),
        all_digits(s.subrange(0, n)),
        n < s.len() ==> s[n] == '.',
    ensures
        first_point(s, i) == n,
    decreases n - i,
{
    if i < n {
        assert(is_digit(s.subrange(0, n)[i]));
        lemma_first_point_behind_digits(s, n, i + 1);
    }
}

/// A number that is written as a decimal reads back as itself, as long as
/// its whole part is one that is read at all.
pub proof fn law_milli_text_reads_back(m: int)
    requires
        magnitude(m) / 1000 <= WHOLE_LIMIT,
    ensures
        parse_milli(milli_text(m)) == Some(m),
{
    let w = magnitude(m) / 1000;
    let f = magnitude(m) % 1000;
    let whole = nat_text(w);
    let frac = fraction_text(f);
    let body = whole + frac;
    lemma_nat_text_reads_back(w);
    lemma_fraction_text_reads_back(f);
    assert(body.subrange(0, whole.len() as int) =~= whole);
    lemma_first_point_behind_digits(body, whole.len() as int, 0);
    assert(whole_digits(body) =~= whole);
    if f > 0 {
        assert(fraction_digits(body) =~= frac.subrange(1, frac.len() as int));
    } else {
        assert(fraction_digits(body) =~= Seq::<char>::empty());
    }
    assert(parse_unsigned_milli(body) == Some(magnitude(m)));
    let text = milli_text(m);
    assert(is_digit(whole[0]));
    if m < 0 {
        assert(text =~= seq!['-'] + body);
        assert(text.subrange(1, text.len() as int) =~= body);
    } else {
        assert(text =~= body);
        assert(text[0] == whole[0]);
    }
}

} // verus!
