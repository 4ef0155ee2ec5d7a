//! Scanning of received text: white space, trimming and tokens.

use vstd::prelude::*;

verus! {

/// Whether `c` has the Unicode property `White_Space`.
pub open spec fn is_space(c: char) -> bool {
    let u = c as u32;
    ||| 0x09 <= u <= 0x0D
    ||| u == 0x20
    ||| u == 0x85
    ||| u == 0xA0
    ||| u == 0x1680
    ||| 0x2000 <= u <= 0x200A
    ||| u == 0x2028
    ||| u == 0x2029
    ||| u == 0x202F
    ||| u == 0x205F
    ||| u == 0x3000
}

/// The first index at or after `i` that holds no white space (`s.len()` if
/// there is none).
pub open spec fn first_nonspace(s: Seq<char>, i: int) -> int
    decreases s.len() - i,
{
    if 0 <= i < s.len() && is_space(s[i]) {
        first_nonspace(s, i + 1)
    } else {
        i
    }
}

/// The first index at or after `i` that holds white space (`s.len()` if
/// there is none).
pub open spec fn first_space(s: Seq<char>, i: int) -> int
    decreases s.len() - i,
{
    if 0 <= i < s.len() && !is_space(s[i]) {
        first_space(s, i + 1)
    } else {
        i
    }
}

/// The end of `s[lo..j]` once the white space at its end is dropped.
pub open spec fn end_without_space(s: Seq<char>, lo: int, j: int) -> int
    decreases j,
{
    if 0 <= lo < j <= s.len() && is_space(s[j - 1]) {
        end_without_space(s, lo, j - 1)
    } else {
        j
    }
}

/// Where the trimmed part of `s` begins.
pub open spec fn trim_start(s: Seq<char>) -> int {
    first_nonspace(s, 0)
}

/// Where the trimmed part of `s` ends.
pub open spec fn trim_end(s: Seq<char>) -> int {
    end_without_space(s, trim_start(s), s.len() as int)
}

/// `s` without the white space at its two ends.
pub open spec fn trimmed(s: Seq<char>) -> Seq<char> {
    s.subrange(trim_start(s), trim_end(s))
}

/// Where the `k`-th run of characters other than white space begins
/// (`s.len()` if there are not that many).
pub open spec fn token_start(s: Seq<char>, k: nat) -> int
    decreases k,
{
    if k == 0 {
        first_nonspace(s, 0)
    } else {
        first_nonspace(s, first_space(s, token_start(s, (k - 1) as nat)))
    }
}

/// The `k`-th token of `s` when it is split at white space.
pub open spec fn token(s: Seq<char>, k: nat) -> Option<Seq<char>> {
    let a = token_start(s, k);
    if 0 <= a < s.len() {
        Some(s.subrange(a, first_space(s, a)))
    } else {
        None
    }
}

/// Whether `s` begins with `p`.
pub open spec fn has_prefix(s: Seq<char>, p: Seq<char>) -> bool {
    p.len() <= s.len() && s.subrange(0, p.len() as int) == p
}

/// `first_nonspace` stays within the text.
proof fn lemma_first_nonspace_bounds(s: Seq<char>, i: int)
    requires
        0 <= i <= s.len(),
    ensures
        i <= first_nonspace(s, i) <= s.len(),
    decreases s.len() - i,
{
    if i < s.len() && is_space(s[i]) {
        lemma_first_nonspace_bounds(s, i + 1);
    }
}

/// `first_space` stays within the text.
proof fn lemma_first_space_bounds(s: Seq<char>, i: int)
    requires
        0 <= i <= s.len(),
    ensures
        i <= first_space(s, i) <= s.len(),
    decreases s.len() - i,
{
    if i < s.len() && !is_space(s[i]) {
        lemma_first_space_bounds(s, i + 1);
    }
}

/// `end_without_space` stays between its two bounds.
proof fn lemma_end_without_space_bounds(s: Seq<char>, lo: int, j: int)
    requires
        0 <= lo <= j <= s.len(),
    ensures
        lo <= end_without_space(s, lo, j) <= j,
    decreases j,
{
    if lo < j && is_space(s[j - 1]) {
        lemma_end_without_space_bounds(s, lo, j - 1);
    }
}

/// A token starts within the text, or at its end if there is no such token.
proof fn lemma_token_start_bounds(s: Seq<char>, k: nat)
    ensures
        0 <= token_start(s, k) <= s.len(),
    decreases k,
{
    if k == 0 {
        lemma_first_nonspace_bounds(s, 0);
    } else {
        lemma_token_start_bounds(s, (k - 1) as nat);
        let a = token_start(s, (k - 1) as nat);
        lemma_first_space_bounds(s, a);
        lemma_first_nonspace_bounds(s, first_space(s, a));
    }
}

/// Tests `is_space`.
pub fn char_is_space(c: char) -> (b: bool)
    ensures
        b == is_space(c),
{
    let u: u32 = c as u32;
    (0x09 <= u && u <= 0x0D) || u == 0x20 || u == 0x85 || u == 0xA0 || u == 0x1680 || (0x2000 <= u
        && u <= 0x200A) || u == 0x2028 || u == 0x2029 || u == 0x202F || u == 0x205F || u == 0x3000
}

/// The characters of `s`, one by one.
pub fn chars_of(s: &str) -> (v: Vec<char>)
    ensures
        v@ == s@,
{
    let mut v: Vec<char> = Vec::new();
    for c in it: s.chars()
        invariant
            it.seq() == s@,
            v@ == s@.take(it.index() as int),
    {
        v.push(c);
    }
    assert(s@.take(s@.len() as int) =~= s@);
    v
}

/// Computes `first_nonspace`.
pub fn skip_spaces(v: &Vec<char>, i: usize) -> (j: usize)
    requires
        i <= v.len(),
    ensures
        j == first_nonspace(v@, i as int),
        i <= j <= v.len(),
{
    let mut j: usize = i;
    while j < v.len() && char_is_space(v[j])
        invariant
            i <= j <= v.len(),
            first_nonspace(v@, i as int) == first_nonspace(v@, j as int),
        decreases v.len() - j,
    {
        j = j + 1;
    }
    j
}

/// Computes `first_space`.
pub fn skip_word(v: &Vec<char>, i: usize) -> (j: usize)
    requires
        i <= v.len(),
    ensures
        j == first_space(v@, i as int),
        i <= j <= v.len(),
{
    let mut j: usize = i;
    while j < v.len() && !char_is_space(v[j])
        invariant
            i <= j <= v.len(),
            first_space(v@, i as int) == first_space(v@, j as int),
        decreases v.len() - j,
    {
        j = j + 1;
    }
    j
}

/// Computes `end_without_space`.
pub fn skip_spaces_back(v: &Vec<char>, lo: usize, hi: usize) -> (j: usize)
    requires
        lo <= hi <= v.len(),
    ensures
        j == end_without_space(v@, lo as int, hi as int),
        lo <= j <= hi,
{
    let mut j: usize = hi;
    while lo < j && char_is_space(v[j - 1])
        invariant
            lo <= j <= hi <= v.len(),
            end_without_space(v@, lo as int, hi as int) == end_without_space(v@, lo as int, j as int),
        decreases j,
    {
        j = j - 1;
    }
    j
}

/// The characters of `v[lo..hi]` as a vector of their own.
pub fn slice_of(v: &Vec<char>, lo: usize, hi: usize) -> (out: Vec<char>)
    requires
        lo <= hi <= v.len(),
    ensures
        out@ == v@.subrange(lo as int, hi as int),
{
    let mut out: Vec<char> = Vec::new();
    let mut i: usize = lo;
    while i < hi
        invariant
            lo <= i <= hi <= v.len(),
            out@ == v@.subrange(lo as int, i as int),
        decreases hi - i,
    {
        out.push(v[i]);
        i = i + 1;
    }
    out
}

/// The characters of `s` without the white space at its two ends.
pub fn trim(v: &Vec<char>) -> (out: Vec<char>)
    ensures
        out@ == trimmed(v@),
{
    let a: usize = skip_spaces(v, 0);
    let b: usize = skip_spaces_back(v, a, v.len());
    slice_of(v, a, b)
}

/// The bounds of the `k`-th token of `v`, if it has that many.
pub fn token_bounds(v: &Vec<char>, k: usize) -> (r: Option<(usize, usize)>)
    ensures
        r is Some <==> token(v@, k as nat) is Some,
        r matches Some((a, b)) ==> a < b <= v.len() && token(v@, k as nat) == Some(
            v@.subrange(a as int, b as int),
        ),
{
    let mut a: usize = skip_spaces(v, 0);
    let mut n: usize = 0;
    while n < k
        invariant
            n <= k,
            a <= v.len(),
            a == token_start(v@, n as nat),
        decreases k - n,
    {
        let e: usize = skip_word(v, a);
        a = skip_spaces(v, e);
        n = n + 1;
    }
    if a < v.len() {
        let b: usize = skip_word(v, a);
        proof {
            lemma_token_start_nonspace(v@, k as nat);
            lemma_first_space_bounds(v@, a + 1);
        }
        Some((a, b))
    } else {
        None
    }
}

/// Where `first_nonspace` stops within the text, no white space stands.
proof fn lemma_first_nonspace_stops(s: Seq<char>, i: int)
    requires
        0 <= i <= s.len(),
    ensures
        first_nonspace(s, i) < s.len() ==> !is_space(s[first_nonspace(s, i)]),
    decreases s.len() - i,
{
    if i < s.len() && is_space(s[i]) {
        lemma_first_nonspace_stops(s, i + 1);
    }
}

/// A token begins with a character that is no white space.
proof fn lemma_token_start_nonspace(s: Seq<char>, k: nat)
    ensures
        token_start(s, k) < s.len() ==> !is_space(s[token_start(s, k)]),
{
    if k == 0 {
        lemma_first_nonspace_stops(s, 0);
    } else {
        lemma_token_start_bounds(s, (k - 1) as nat);
        let a = token_start(s, (k - 1) as nat);
        lemma_first_space_bounds(s, a);
        lemma_first_nonspace_stops(s, first_space(s, a));
    }
}

/// Tests `has_prefix`.
pub fn starts_with(v: &Vec<char>, p: &str) -> (b: bool)
    ensures
        b == has_prefix(v@, p@),
{
    let prefix = chars_of(p);
    let n: usize = prefix.len();
    if n > v.len() {
        return false;
    }
    let mut i: usize = 0;
    while i < n
        invariant
            prefix@ == p@,
            n == prefix@.len(),
            i <= n <= v.len(),
            v@.subrange(0, i as int) == prefix@.subrange(0, i as int),
        decreases n - i,
    {
        if v[i] != prefix[i] {
            assert(v@.subrange(0, n as int)[i as int] != prefix@[i as int]);
            return false;
        }
        assert(v@.subrange(0, i + 1) =~= v@.subrange(0, i as int).push(v@[i as int]));
        assert(prefix@.subrange(0, i + 1) =~= prefix@.subrange(0, i as int).push(
            prefix@[i as int],
        ));
        i = i + 1;
    }
    assert(prefix@.subrange(0, n as int) =~= prefix@);
    true
}

/// `end_without_space` drops white space only, and all of it.
proof fn lemma_end_without_space_stops(s: Seq<char>, lo: int, j: int)
    requires
        0 <= lo <= j <= s.len(),
    ensures
        lo < end_without_space(s, lo, j) ==> !is_space(s[end_without_space(s, lo, j) - 1]),
        forall|k: int| end_without_space(s, lo, j) <= k < j ==> is_space(#[trigger] s[k]),
    decreases j,
{
    if lo < j && is_space(s[j - 1]) {
        lemma_end_without_space_stops(s, lo, j - 1);
    }
}

/// `first_nonspace` passes over white space only.
proof fn lemma_first_nonspace_skips(s: Seq<char>, i: int)
    requires
        0 <= i <= s.len(),
    ensures
        forall|k: int| i <= k < first_nonspace(s, i) ==> is_space(#[trigger] s[k]),
    decreases s.len() - i,
{
    if i < s.len() && is_space(s[i]) {
        lemma_first_nonspace_skips(s, i + 1);
    }
}

/// What trimming does: it drops white space only, and what is left neither
/// begins nor ends with white space.
pub proof fn lemma_trimmed_is_tight(s: Seq<char>)
    ensures
        0 <= trim_start(s) <= trim_end(s) <= s.len(),
        forall|k: int| 0 <= k < trim_start(s) ==> is_space(#[trigger] s[k]),
        forall|k: int| trim_end(s) <= k < s.len() ==> is_space(#[trigger] s[k]),
        trimmed(s).len() > 0 ==> !is_space(trimmed(s).first()) && !is_space(trimmed(s).last()),
{
    lemma_first_nonspace_bounds(s, 0);
    lemma_first_nonspace_skips(s, 0);
    lemma_first_nonspace_stops(s, 0);
    lemma_end_without_space_bounds(s, trim_start(s), s.len() as int);
    lemma_end_without_space_stops(s, trim_start(s), s.len() as int);
}

/// Text that begins with something other than white space keeps its
/// beginning when it is trimmed.
pub proof fn lemma_trimmed_keeps_start(s: Seq<char>)
    requires
        s.len() > 0,
        !is_space(s[0]),
    ensures
        trim_start(s) == 0,
        trimmed(s).len() > 0,
        trimmed(s)[0] == s[0],
{
    lemma_trimmed_is_tight(s);
    if trim_end(s) == 0 {
        assert(is_space(s[0]));
    }
}

} // verus!
