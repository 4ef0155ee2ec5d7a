//! The signal-strength line: readings that the dish prints one over the
//! other, each behind a cursor-control marker.

use crate::number::{parse_i32, read_i32};
use crate::pattern::{delete_matches, regex_compiles, regex_deleted};
use crate::text::{chars_of, trim, trimmed};
use vstd::string::StrSliceExecFns;
use vstd::prelude::*;

verus! {

/// Why a line could not be decoded.
#[derive(Clone, Copy, Debug, PartialEq, Eq, Structural)]
pub enum DecodeError {
    /// A reading of a signal-strength line holds no number that fits a count.
    MissingDigits,
    /// A pattern that cleans the readings was refused.
    BadPattern,
}

/// A mean, held exactly as the sum of the values and their number. With no
/// value at all it is no number.
#[derive(Clone, Copy, Debug, PartialEq, Eq, Structural)]
pub struct Average {
    pub sum: i128,
    pub count: u64,
}

impl Average {
    /// Whether the mean is a number above `limit`: with no value at all it
    /// is above nothing.
    pub open spec fn is_above(&self, limit: int) -> bool {
        self.count > 0 && self.sum > limit * self.count
    }

    /// Tests `is_above`.
    pub fn exceeds(&self, limit: i64) -> (b: bool)
        ensures
            b == self.is_above(limit as int),
    {
        assert(-0x8000_0000_0000_0000_0000_0000_0000_0000 <= limit * self.count
            < 0x8000_0000_0000_0000_0000_0000_0000_0000) by (nonlinear_arith)
            requires
                -0x8000_0000_0000_0000 <= limit < 0x8000_0000_0000_0000,
                0 <= self.count < 0x1_0000_0000_0000_0000,
        ;
        let bound: i128 = (limit as i128) * (self.count as i128);
        self.count > 0 && self.sum > bound
    }
}

/// The marker that the dish prints before each reading: what is left of the
/// escape sequence that moves the cursor five columns back.
pub open spec fn marker() -> Seq<char> {
    seq!['[', '5', 'D']
}

/// Whether a marker stands at index `i` of `s`.
pub open spec fn marker_at(s: Seq<char>, i: int) -> bool {
    0 <= i && i + 3 <= s.len() && s.subrange(i, i + 3) == marker()
}

/// The first index at or after `i` at which a marker stands (`s.len()` if
/// there is none).
pub open spec fn next_marker(s: Seq<char>, i: int) -> int
    decreases s.len() - i,
{
    if 0 <= i < s.len() && !marker_at(s, i) {
        next_marker(s, i + 1)
    } else {
        i
    }
}

/// For each marker of `s` at or after `i`, from left to right, the text
/// between it and the next marker or the end of `s`.
pub open spec fn after_markers(s: Seq<char>, i: int) -> Seq<Seq<char>>
    decreases s.len() - i,
{
    if 0 <= i < s.len() {
        if marker_at(s, i) {
            seq![s.subrange(i + 3, next_marker(s, i + 3))] + after_markers(s, i + 3)
        } else {
            after_markers(s, i + 1)
        }
    } else {
        Seq::empty()
    }
}

/// The pattern for the characters of Unicode's general category "Other":
/// control characters and their like.
pub open spec fn control_pattern() -> Seq<char> {
    "\\p{C}"@
}

/// The pattern for every character that is no digit.
pub open spec fn non_digit_pattern() -> Seq<char> {
    "[^\\d]"@
}

/// Whether both cleaning patterns are accepted.
pub open spec fn patterns_compile() -> bool {
    regex_compiles(control_pattern()) && regex_compiles(non_digit_pattern())
}

/// A segment with its control characters deleted, and then everything that
/// is no digit.
pub open spec fn cleaned(segment: Seq<char>) -> Seq<char> {
    regex_deleted(non_digit_pattern(), regex_deleted(control_pattern(), segment))
}

/// The count that a cleaned reading spells.
pub open spec fn reading_value(reading: Seq<char>) -> Option<int> {
    parse_i32(trimmed(reading))
}

/// Whether every reading spells a count.
pub open spec fn readings_ok(readings: Seq<Seq<char>>) -> bool {
    forall|i: int| 0 <= i < readings.len() ==> (#[trigger] reading_value(readings[i])) is Some
}

/// The sum of the counts that the readings spell.
pub open spec fn readings_sum(readings: Seq<Seq<char>>) -> int
    decreases readings.len(),
{
    if readings.len() == 0 {
        0
    } else {
        readings_sum(readings.drop_last()) + match reading_value(readings.last()) {
            Some(n) => n,
            None => 0,
        }
    }
}

/// The texts that a sequence of strings holds.
pub open spec fn texts(v: Seq<String>) -> Seq<Seq<char>> {
    Seq::new(v.len(), |i: int| v[i]@)
}

/// The parts of `s` between the given bounds.
pub open spec fn spans(s: Seq<char>, bounds: Seq<(usize, usize)>) -> Seq<Seq<char>> {
    Seq::new(bounds.len(), |k: int| s.subrange(bounds[k].0 as int, bounds[k].1 as int))
}

/// Whether each of the bounds marks a part of a text of `len` characters.
pub open spec fn bounds_within(bounds: Seq<(usize, usize)>, len: nat) -> bool {
    forall|k: int| 0 <= k < bounds.len() ==> (#[trigger] bounds[k]).0 <= bounds[k].1 <= len
}

/// Tests `marker_at`.
pub fn is_marker_at(v: &Vec<char>, i: usize) -> (b: bool)
    requires
        i <= v.len(),
    ensures
        b == marker_at(v@, i as int),
{
    if v.len() - i < 3 {
        return false;
    }
    let b: bool = v[i] == '[' && v[i + 1] == '5' && v[i + 2] == 'D';
    proof {
        let w = v@.subrange(i as int, i + 3);
        assert(w[0] == v@[i as int] && w[1] == v@[i + 1] && w[2] == v@[i + 2]);
        if b {
            assert(w =~= marker());
        }
    }
    b
}

/// Computes `next_marker`.
pub fn find_marker(v: &Vec<char>, i: usize) -> (j: usize)
    requires
        i <= v.len(),
    ensures
        j == next_marker(v@, i as int),
        i <= j <= v.len(),
{
    let mut j: usize = i;
    while j < v.len() && !is_marker_at(v, j)
        invariant
            i <= j <= v.len(),
            next_marker(v@, i as int) == next_marker(v@, j as int),
        decreases v.len() - j,
    {
        j = j + 1;
    }
    j
}

/// Where the texts behind the markers of `v` begin and end: the bounds of
/// `after_markers` from the start.
pub fn segment_bounds(v: &Vec<char>) -> (out: Vec<(usize, usize)>)
    ensures
        bounds_within(out@, v@.len()),
        spans(v@, out@) == after_markers(v@, 0),
{
    let mut out: Vec<(usize, usize)> = Vec::new();
    let mut i: usize = 0;
    while i < v.len()
        invariant
            i <= v.len(),
            bounds_within(out@, v@.len()),
            after_markers(v@, 0) == spans(v@, out@) + after_markers(v@, i as int),
        decreases v.len() - i,
    {
        if is_marker_at(v, i) {
            let e: usize = find_marker(v, i + 3);
            let ghost before = spans(v@, out@);
            out.push((i + 3, e));
            assert(spans(v@, out@) =~= before + seq![v@.subrange(i + 3, e as int)]);
            assert(after_markers(v@, 0) =~= spans(v@, out@) + after_markers(v@, i + 3));
            i = i + 3;
        } else {
            i = i + 1;
        }
    }
    assert(after_markers(v@, 0) =~= spans(v@, out@));
    out
}

/// `text` without what `pattern` matches; it fails where the pattern is
/// refused.
pub fn delete_all(pattern: &str, text: &str) -> (r: Result<String, DecodeError>)
    ensures
        r is Ok <==> regex_compiles(pattern@),
        r matches Ok(out) ==> out@ == regex_deleted(pattern@, text@),
        r matches Err(e) ==> e == DecodeError::BadPattern,
{
    match delete_matches(pattern, text) {
        Ok(out) => Ok(out),
        Err(_) => Err(DecodeError::BadPattern),
    }
}

/// Cleans one segment: deletes its control characters, then everything
/// that is no digit. Fails only where a pattern is refused.
pub fn clean_reading(segment: &str) -> (r: Result<String, DecodeError>)
    ensures
        r is Ok <==> patterns_compile(),
        r matches Ok(reading) ==> reading@ == cleaned(segment@),
        r matches Err(e) ==> e == DecodeError::BadPattern,
{
    match delete_all("\\p{C}", segment) {
        Ok(visible) => delete_all("[^\\d]", visible.as_str()),
        Err(e) => Err(e),
    }
}

/// Cleans the parts of `text` between the given bounds, in order.
pub fn clean_readings(text: &str, bounds: &Vec<(usize, usize)>) -> (r: Result<
    Vec<String>,
    DecodeError,
>)
    requires
        bounds_within(bounds@, text@.len()),
    ensures
        r is Ok <==> bounds@.len() == 0 || patterns_compile(),
        r matches Ok(readings) ==> texts(readings@) == spans(text@, bounds@).map_values(
            |p: Seq<char>| cleaned(p),
        ),
        r matches Err(e) ==> e == DecodeError::BadPattern,
{
    let mut out: Vec<String> = Vec::new();
    let mut i: usize = 0;
    while i < bounds.len()
        invariant
            i <= bounds.len(),
            out@.len() == i,
            bounds_within(bounds@, text@.len()),
            i > 0 ==> patterns_compile(),
            forall|k: int|
                0 <= k < i ==> (#[trigger] out@[k])@ == cleaned(
                    text@.subrange(bounds@[k].0 as int, bounds@[k].1 as int),
                ),
        decreases bounds.len() - i,
    {
        let (from, to) = bounds[i];
        match clean_reading(text.substring_char(from, to)) {
            Ok(reading) => {
                out.push(reading);
            },
            Err(e) => {
                return Err(e);
            },
        }
        i = i + 1;
    }
    assert(texts(out@) =~= spans(text@, bounds@).map_values(|p: Seq<char>| cleaned(p)));
    Ok(out)
}

/// The count that one cleaned reading spells: `reading_value`.
pub fn read_value(reading: &str) -> (r: Option<i32>)
    ensures
        r is Some <==> reading_value(reading@) is Some,
        r matches Some(n) ==> reading_value(reading@) == Some(n as int),
{
    let raw = chars_of(reading);
    let t = trim(&raw);
    assert(t@.subrange(0, t@.len() as int) =~= t@);
    read_i32(&t, 0, t.len())
}

/// The sum of the counts lies within the number of readings times the
/// range of a count.
pub proof fn lemma_readings_sum_bounds(readings: Seq<Seq<char>>)
    ensures
        -0x8000_0000 * readings.len() <= readings_sum(readings) <= 0x7fff_ffff * readings.len(),
    decreases readings.len(),
{
    if readings.len() > 0 {
        lemma_readings_sum_bounds(readings.drop_last());
    }
}

/// The mean of the counts that cleaned readings spell, as their sum and
/// their number. It fails on the first reading that spells no count.
pub fn average_readings(readings: &Vec<String>) -> (r: Result<Average, DecodeError>)
    ensures
        r is Ok <==> readings_ok(texts(readings@)),
        r matches Ok(a) ==> a.sum == readings_sum(texts(readings@)) && a.count
            == readings@.len(),
        r matches Err(e) ==> e == DecodeError::MissingDigits,
{
    let ghost all = texts(readings@);
    let mut sum: i128 = 0;
    let mut i: usize = 0;
    while i < readings.len()
        invariant
            i <= readings.len(),
            all == texts(readings@),
            sum == readings_sum(all.take(i as int)),
            forall|k: int| 0 <= k < i ==> (#[trigger] reading_value(all[k])) is Some,
        decreases readings.len() - i,
    {
        let ghost next = all.take(i + 1);
        proof {
            assert(next.drop_last() =~= all.take(i as int));
            assert(next.last() == all[i as int]);
            lemma_readings_sum_bounds(all.take(i as int));
        }
        match read_value(readings[i].as_str()) {
            Some(n) => {
                sum = sum + n as i128;
            },
            None => {
                return Err(DecodeError::MissingDigits);
            },
        }
        i = i + 1;
    }
    assert(all.take(i as int) =~= all);
    Ok(Average { sum, count: readings.len() as u64 })
}

/// The parts, each behind a marker of its own, as one text.
pub open spec fn marked(parts: Seq<Seq<char>>) -> Seq<char>
    decreases parts.len(),
{
    if parts.len() == 0 {
        Seq::empty()
    } else {
        marker() + parts.first() + marked(parts.drop_first())
    }
}

/// No marker stands before `next_marker`, which lies within the text.
proof fn lemma_next_marker(s: Seq<char>, i: int)
    requires
        0 <= i <= s.len(),
    ensures
        i <= next_marker(s, i) <= s.len(),
        forall|j: int| i <= j < next_marker(s, i) ==> !marker_at(s, j),
        next_marker(s, i) < s.len() ==> marker_at(s, next_marker(s, i)),
    decreases s.len() - i,
{
    if i < s.len() && !marker_at(s, i) {
        lemma_next_marker(s, i + 1);
    }
}

/// The markers split the text, and nothing is lost: what stands before the
/// first marker, and then each marker with the part behind it, make up the
/// text again.
pub proof fn law_markers_split_the_text(s: Seq<char>, i: int)
    requires
        0 <= i <= s.len(),
    ensures
        s.subrange(i, s.len() as int) == s.subrange(i, next_marker(s, i)) + marked(
            after_markers(s, i),
        ),
    decreases s.len() - i,
{
    let n = s.len() as int;
    lemma_next_marker(s, i);
    if i < n {
        if marker_at(s, i) {
            lemma_next_marker(s, i + 3);
            law_markers_split_the_text(s, i + 3);
            let part = s.subrange(i + 3, next_marker(s, i + 3));
            let rest = after_markers(s, i + 3);
            let all = after_markers(s, i);
            assert(all =~= seq![part] + rest);
            assert(all.first() == part);
            assert(all.drop_first() =~= rest);
            assert(marked(all) == marker() + part + marked(rest));
            assert(s.subrange(i, i + 3) == marker());
            assert(s.subrange(i, n) =~= s.subrange(i, i + 3) + s.subrange(i + 3, n));
            assert(s.subrange(i, n) =~= s.subrange(i, i) + marked(all));
        } else {
            lemma_next_marker(s, i + 1);
            law_markers_split_the_text(s, i + 1);
            let m = next_marker(s, i + 1);
            assert(next_marker(s, i) == m);
            assert(after_markers(s, i) == after_markers(s, i + 1));
            assert(s.subrange(i + 1, m) + marked(after_markers(s, i)) == s.subrange(i + 1, n));
            assert(s.subrange(i, n) =~= seq![s[i]] + s.subrange(i + 1, n));
            assert(s.subrange(i, m) =~= seq![s[i]] + s.subrange(i + 1, m));
            assert(s.subrange(i, n) =~= s.subrange(i, m) + marked(after_markers(s, i)));
        }
    } else {
        assert(s.subrange(i, n) =~= s.subrange(i, i) + marked(after_markers(s, i)));
    }
}

/// No part behind a marker holds a marker itself.
pub proof fn law_parts_hold_no_marker(s: Seq<char>, i: int, k: int, j: int)
    requires
        0 <= i <= s.len(),
        0 <= k < after_markers(s, i).len(),
    ensures
        !marker_at(after_markers(s, i)[k], j),
    decreases s.len() - i,
{
    if i < s.len() {
        if marker_at(s, i) {
            let a = i + 3;
            let b = next_marker(s, a);
            let part = s.subrange(a, b);
            let rest = after_markers(s, a);
            assert(after_markers(s, i) =~= seq![part] + rest);
            lemma_next_marker(s, a);
            if k == 0 {
                if marker_at(part, j) {
                    assert(part.subrange(j, j + 3) =~= s.subrange(a + j, a + j + 3));
                    assert(marker_at(s, a + j));
                }
            } else {
                assert(after_markers(s, i)[k] == rest[k - 1]);
                law_parts_hold_no_marker(s, a, k - 1, j);
            }
        } else {
            law_parts_hold_no_marker(s, i + 1, k, j);
        }
    }
}

} // verus!
