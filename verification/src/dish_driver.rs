//! The wire protocol of the dish: commands as lines of text, and the lines
//! that the dish sends as responses.

use crate::angle::Angle;
use crate::number::{
    digit_char, fraction_text, int_text, magnitude, milli_text, nat_text, push_int, push_milli,
};
use crate::number::{parse_i32, parse_milli, read_i32, read_milli};
use crate::rfss::{
    after_markers, average_readings, clean_readings, cleaned, patterns_compile, readings_ok,
    readings_sum, segment_bounds, Average, DecodeError,
};
use crate::text::{
    chars_of, has_prefix, is_space, lemma_trimmed_keeps_start, skip_spaces, skip_spaces_back,
    slice_of, starts_with, token, token_bounds, trimmed,
};
use vstd::string::StringExecFns;
use vstd::string::StrSliceExecFns;
use vstd::utf8::{is_ascii_chars, is_ascii_chars_encode_utf8};
use vstd::prelude::*;

verus! {

/// A command that the dish understands.
#[derive(Clone, Copy, Debug, PartialEq, Eq, Structural)]
pub enum DishCommand {
    SetAzimuthAngle(Angle),
    GetAzimuth,
    GetElevation,
    SetElevationAngle(Angle),
    NudgeAzimuthCcw,
    NudgeAzimuthCw,
    NudgeElevationUp,
    NudgeElevationDown,
    RfWatch(i32),
    Version,
}

/// The byte that ends a command on the wire: a carriage return.
pub const FRAME_END: u8 = 0x0D;

/// Whether `c` is a printable ASCII character (a space counts).
pub open spec fn is_printable_ascii(c: char) -> bool {
    ' ' <= c && c <= '~'
}

/// The byte that stands for an ASCII character.
pub open spec fn ascii_byte(c: char) -> u8 {
    c as u8
}

impl DishCommand {
    /// The line of text that stands for the command on the wire.
    pub open spec fn wire_text(&self) -> Seq<char> {
        match self {
            DishCommand::SetAzimuthAngle(a) => "azangle "@ + milli_text(a@),
            DishCommand::GetAzimuth => "azacc"@,
            DishCommand::GetElevation => "elacc"@,
            DishCommand::SetElevationAngle(a) => "elangle "@ + milli_text(a@),
            DishCommand::NudgeAzimuthCcw => "aznudge ccw"@,
            DishCommand::NudgeAzimuthCw => "aznudge cw"@,
            DishCommand::NudgeElevationUp => "elnudge up"@,
            DishCommand::NudgeElevationDown => "elnudge down"@,
            DishCommand::RfWatch(t) => "rfwatch "@ + int_text(*t as int),
            DishCommand::Version => "ver"@,
        }
    }

    /// The bytes that go out for the command: its text in ASCII, then a
    /// carriage return.
    pub open spec fn wire_frame(&self) -> Seq<u8> {
        Seq::new(self.wire_text().len(), |i: int| ascii_byte(self.wire_text()[i])).push(FRAME_END)
    }

    /// The command as the line of text that the dish expects.
    pub fn serialize(&self) -> (s: String)
        ensures
            s@ == self.wire_text(),
    {
        let mut s = String::new();
        match self {
            DishCommand::SetAzimuthAngle(a) => {
                s.append("azangle ");
                push_milli(&mut s, a.millidegrees);
            },
            DishCommand::GetAzimuth => {
                s.append("azacc");
            },
            DishCommand::GetElevation => {
                s.append("elacc");
            },
            DishCommand::SetElevationAngle(a) => {
                s.append("elangle ");
                push_milli(&mut s, a.millidegrees);
            },
            DishCommand::NudgeAzimuthCcw => {
                s.append("aznudge ccw");
            },
            DishCommand::NudgeAzimuthCw => {
                s.append("aznudge cw");
            },
            DishCommand::NudgeElevationUp => {
                s.append("elnudge up");
            },
            DishCommand::NudgeElevationDown => {
                s.append("elnudge down");
            },
            DishCommand::RfWatch(t) => {
                s.append("rfwatch ");
                push_int(&mut s, *t as i64);
            },
            DishCommand::Version => {
                s.append("ver");
            },
        }
        assert(s@ =~= self.wire_text());
        s
    }
}

/// Whether `s` holds printable ASCII only.
pub open spec fn all_printable(s: Seq<char>) -> bool {
    forall|i: int| 0 <= i < s.len() ==> is_printable_ascii(#[trigger] s[i])
}

/// Printable text is ASCII.
proof fn lemma_printable_is_ascii(s: Seq<char>)
    requires
        all_printable(s),
    ensures
        is_ascii_chars(s),
{
    assert forall|i: int| 0 <= i < s.len() implies '\0' <= #[trigger] s[i] <= '\u{7f}' by {
        assert(is_printable_ascii(s[i]));
    }
}

/// Two printable texts, one after the other, are printable.
proof fn lemma_printable_concat(a: Seq<char>, b: Seq<char>)
    requires
        all_printable(a),
        all_printable(b),
    ensures
        all_printable(a + b),
{
    assert forall|i: int| 0 <= i < (a + b).len() implies is_printable_ascii(
        #[trigger] (a + b)[i],
    ) by {
        if i < a.len() {
            assert((a + b)[i] == a[i]);
        } else {
            assert((a + b)[i] == b[i - a.len()]);
        }
    }
}

/// The digits of a number are printable.
proof fn lemma_nat_text_printable(n: nat)
    ensures
        all_printable(nat_text(n)),
    decreases n,
{
    if n >= 10 {
        lemma_nat_text_printable(n / 10);
        lemma_printable_concat(nat_text(n / 10), seq![digit_char(n % 10)]);
        assert(nat_text(n) =~= nat_text(n / 10) + seq![digit_char(n % 10)]);
    }
}

/// Numbers are written in printable characters.
proof fn lemma_number_text_printable(m: int)
    ensures
        all_printable(int_text(m)),
        all_printable(milli_text(m)),
{
    let a = magnitude(m);
    lemma_nat_text_printable(a);
    lemma_nat_text_printable(a / 1000);
    let sign: Seq<char> = if m < 0 {
        seq!['-']
    } else {
        Seq::empty()
    };
    lemma_printable_concat(sign, nat_text(a));
    assert(int_text(m) =~= sign + nat_text(a));
    lemma_printable_concat(sign, nat_text(a / 1000));
    lemma_printable_concat(sign + nat_text(a / 1000), fraction_text(a % 1000));
}

impl DishCommand {
    /// The text of a command is printable ASCII: it holds no line break, and
    /// its frame ends in the only carriage return.
    pub proof fn lemma_wire_text_printable(self)
        ensures
            all_printable(self.wire_text()),
    {
        reveal_strlit("azangle ");
        reveal_strlit("azacc");
        reveal_strlit("elacc");
        reveal_strlit("elangle ");
        reveal_strlit("aznudge ccw");
        reveal_strlit("aznudge cw");
        reveal_strlit("elnudge up");
        reveal_strlit("elnudge down");
        reveal_strlit("rfwatch ");
        reveal_strlit("ver");
        match self {
            DishCommand::SetAzimuthAngle(a) => {
                lemma_number_text_printable(a@);
                lemma_printable_concat("azangle "@, milli_text(a@));
            },
            DishCommand::SetElevationAngle(a) => {
                lemma_number_text_printable(a@);
                lemma_printable_concat("elangle "@, milli_text(a@));
            },
            DishCommand::RfWatch(t) => {
                lemma_number_text_printable(t as int);
                lemma_printable_concat("rfwatch "@, int_text(t as int));
            },
            _ => {},
        }
    }

    /// The bytes to write for the command: `wire_frame`.
    pub fn frame(&self) -> (f: Vec<u8>)
        ensures
            f@ == self.wire_frame(),
            f@.len() == self.wire_text().len() + 1,
            f@.last() == FRAME_END,
            forall|i: int| 0 <= i < f@.len() - 1 ==> 0x20 <= #[trigger] f@[i] <= 0x7E,
    {
        let text = self.serialize();
        proof {
            self.lemma_wire_text_printable();
            lemma_printable_is_ascii(text@);
            is_ascii_chars_encode_utf8(text@);
        }
        let mut f: Vec<u8> = text.as_str().as_bytes_vec();
        f.push(FRAME_END);
        assert(f@ =~= self.wire_frame());
        assert forall|k: int| 0 <= k < f@.len() - 1 implies 0x20 <= #[trigger] f@[k] <= 0x7E by {
            assert(is_printable_ascii(text@[k]));
        }
        f
    }
}

/// What the dish reports in one line.
#[derive(Debug, PartialEq)]
pub enum DishResponse {
    /// The azimuth: the encoder count, and the angle that the dish gives.
    Azimuth(i32, Angle),
    /// The encoder count of the elevation.
    Elevation(i32),
    /// The mean of the signal-strength readings of one line.
    RfPower(Average),
    /// The version of the console.
    Ver(String),
}

/// The first index at or after `i` that holds no opening parenthesis
/// (`s.len()` if there is none).
pub open spec fn first_non_paren(s: Seq<char>, i: int) -> int
    decreases s.len() - i,
{
    if 0 <= i < s.len() && s[i] == '(' {
        first_non_paren(s, i + 1)
    } else {
        i
    }
}

/// The count in a line: its third token, read as a signed 32-bit number.
pub open spec fn count_field(t: Seq<char>) -> Option<int> {
    match token(t, 2) {
        Some(field) => parse_i32(field),
        None => None,
    }
}

/// The angle in a heading line, in thousandths of a degree: its fourth token
/// without the parentheses it begins with, read as a decimal. Where the
/// token is missing or spells no number, the angle is 0.
pub open spec fn heading_angle(t: Seq<char>) -> int {
    match token(t, 3) {
        Some(field) => match parse_milli(
            field.subrange(first_non_paren(field, 0), field.len() as int),
        ) {
            Some(m) => m,
            None => 0,
        },
        None => 0,
    }
}

/// What the readings of a signal-strength line decode to, given the texts
/// behind its markers.
pub open spec fn decode_rfss(parts: Seq<Seq<char>>) -> Result<Option<DishResponse>, DecodeError> {
    let readings = parts.map_values(|p: Seq<char>| cleaned(p));
    if parts.len() > 0 && !patterns_compile() {
        Err(DecodeError::BadPattern)
    } else if !readings_ok(readings) {
        Err(DecodeError::MissingDigits)
    } else {
        Ok(
            Some(
                DishResponse::RfPower(
                    Average { sum: readings_sum(readings) as i128, count: parts.len() as u64 },
                ),
            ),
        )
    }
}

/// What a received line decodes to: a response, nothing (`None`), or, for a
/// signal-strength line only, an error.
pub open spec fn decode(line: Seq<char>) -> Result<Option<DishResponse>, DecodeError> {
    let t = trimmed(line);
    if has_prefix(t, "Current heading:"@) {
        Ok(
            match count_field(t) {
                Some(n) => Some(
                    DishResponse::Azimuth(
                        n as i32,
                        Angle { millidegrees: heading_angle(t) as i64 },
                    ),
                ),
                None => None,
            },
        )
    } else if has_prefix(t, "Current elevation:"@) {
        Ok(
            match count_field(t) {
                Some(n) => Some(DishResponse::Elevation(n as i32)),
                None => None,
            },
        )
    } else if has_prefix(t, "Current rfss:"@) {
        decode_rfss(after_markers(t, 0))
    } else {
        Ok(None)
    }
}

/// Computes `count_field`.
pub fn read_count(t: &Vec<char>) -> (r: Option<i32>)
    ensures
        r is Some <==> count_field(t@) is Some,
        r matches Some(n) ==> count_field(t@) == Some(n as int),
{
    match token_bounds(t, 2) {
        Some((a, b)) => read_i32(t, a, b),
        None => None,
    }
}

/// Computes `heading_angle`.
pub fn read_heading_angle(t: &Vec<char>) -> (a: Angle)
    ensures
        a@ == heading_angle(t@),
{
    match token_bounds(t, 3) {
        Some((a, b)) => {
            let ghost field = t@.subrange(a as int, b as int);
            let mut i: usize = a;
            while i < b && t[i] == '('
                invariant
                    a <= i <= b <= t.len(),
                    field == t@.subrange(a as int, b as int),
                    first_non_paren(field, 0) == first_non_paren(field, i - a),
                decreases b - i,
            {
                assert(field[i - a] == t@[i as int]);
                i = i + 1;
            }
            assert(i < b ==> field[i - a] == t@[i as int]);
            assert(t@.subrange(i as int, b as int) =~= field.subrange(
                first_non_paren(field, 0),
                field.len() as int,
            ));
            match read_milli(t, i, b) {
                Some(m) => Angle { millidegrees: m },
                None => Angle { millidegrees: 0 },
            }
        },
        None => Angle { millidegrees: 0 },
    }
}

impl DishResponse {
    /// Decodes one received line. Most lines decode to nothing; only a
    /// signal-strength line can fail.
    pub fn parse(line_from_dish: &str) -> (r: Result<Option<DishResponse>, DecodeError>)
        ensures
            r == decode(line_from_dish@),
            r is Err ==> has_prefix(trimmed(line_from_dish@), "Current rfss:"@),
    {
        let raw = chars_of(line_from_dish);
        let from: usize = skip_spaces(&raw, 0);
        let to: usize = skip_spaces_back(&raw, from, raw.len());
        let t = slice_of(&raw, from, to);
        if starts_with(&t, "Current heading:") {
            match read_count(&t) {
                Some(n) => Ok(Some(DishResponse::Azimuth(n, read_heading_angle(&t)))),
                None => Ok(None),
            }
        } else if starts_with(&t, "Current elevation:") {
            match read_count(&t) {
                Some(n) => Ok(Some(DishResponse::Elevation(n))),
                None => Ok(None),
            }
        } else if starts_with(&t, "Current rfss:") {
            let bounds = segment_bounds(&t);
            let text = line_from_dish.substring_char(from, to);
            match clean_readings(text, &bounds) {
                Ok(readings) => match average_readings(&readings) {
                    Ok(a) => Ok(Some(DishResponse::RfPower(a))),
                    Err(e) => Err(e),
                },
                Err(e) => Err(e),
            }
        } else {
            Ok(None)
        }
    }
}

/// Decoding gives an answer for every line, and fails on none but a
/// signal-strength line: there, where a pattern is refused, or where the
/// patterns are in order and a reading spells no count.
pub proof fn law_decode_fails_on_signal_lines_only(line: Seq<char>)
    ensures
        decode(line) is Err ==> has_prefix(trimmed(line), "Current rfss:"@),
        has_prefix(trimmed(line), "Current rfss:"@) ==> decode(line) == decode_rfss(
            after_markers(trimmed(line), 0),
        ),
        decode(line) == Err::<Option<DishResponse>, DecodeError>(DecodeError::BadPattern)
            <==> has_prefix(trimmed(line), "Current rfss:"@) && after_markers(
            trimmed(line),
            0,
        ).len() > 0 && !patterns_compile(),
        decode(line) == Err::<Option<DishResponse>, DecodeError>(DecodeError::MissingDigits)
            <==> has_prefix(trimmed(line), "Current rfss:"@) && patterns_compile() && !readings_ok(
            after_markers(trimmed(line), 0).map_values(|p: Seq<char>| cleaned(p)),
        ),
{
    reveal_strlit("Current heading:");
    reveal_strlit("Current elevation:");
    reveal_strlit("Current rfss:");
    let t = trimmed(line);
    if has_prefix(t, "Current rfss:"@) {
        assert(t.subrange(0, 13)[8] == t[8]);
        if has_prefix(t, "Current heading:"@) {
            assert(t.subrange(0, 16)[8] == t[8]);
        }
        if has_prefix(t, "Current elevation:"@) {
            assert(t.subrange(0, 18)[8] == t[8]);
        }
    }
}

/// Blank lines, prompts and the echoes of the position requests decode to
/// nothing.
pub proof fn law_inert_lines_decode_to_nothing(line: Seq<char>)
    requires
        trimmed(line).len() == 0 || has_prefix(trimmed(line), "GO>"@) || trimmed(line)
            == "azacc"@ || trimmed(line) == "elacc"@,
    ensures
        decode(line) == Ok::<Option<DishResponse>, DecodeError>(None),
{
    reveal_strlit("Current heading:");
    reveal_strlit("Current elevation:");
    reveal_strlit("Current rfss:");
    reveal_strlit("GO>");
    reveal_strlit("azacc");
    reveal_strlit("elacc");
    let t = trimmed(line);
    if t.len() > 0 {
        if has_prefix(t, "GO>"@) {
            assert(t.subrange(0, 3)[0] == t[0]);
        }
        if has_prefix(t, "Current heading:"@) {
            assert(t.subrange(0, 16)[0] == t[0]);
        }
        if has_prefix(t, "Current elevation:"@) {
            assert(t.subrange(0, 18)[0] == t[0]);
        }
        if has_prefix(t, "Current rfss:"@) {
            assert(t.subrange(0, 13)[0] == t[0]);
        }
    }
}

/// Encoding and decoding are two directions with nothing in common: no
/// command, read as a line from the dish, decodes to a response.
pub proof fn law_command_text_decodes_to_nothing(command: DishCommand)
    ensures
        decode(command.wire_text()) == Ok::<Option<DishResponse>, DecodeError>(None),
{
    reveal_strlit("azangle ");
    reveal_strlit("azacc");
    reveal_strlit("elacc");
    reveal_strlit("elangle ");
    reveal_strlit("aznudge ccw");
    reveal_strlit("aznudge cw");
    reveal_strlit("elnudge up");
    reveal_strlit("elnudge down");
    reveal_strlit("rfwatch ");
    reveal_strlit("ver");
    reveal_strlit("Current heading:");
    reveal_strlit("Current elevation:");
    reveal_strlit("Current rfss:");
    let text = command.wire_text();
    assert(text.len() > 0 && text[0] != 'C' && !is_space(text[0]));
    lemma_trimmed_keeps_start(text);
    let t = trimmed(text);
    if has_prefix(t, "Current heading:"@) {
        assert(t.subrange(0, 16)[0] == t[0]);
    }
    if has_prefix(t, "Current elevation:"@) {
        assert(t.subrange(0, 18)[0] == t[0]);
    }
    if has_prefix(t, "Current rfss:"@) {
        assert(t.subrange(0, 13)[0] == t[0]);
    }
}

} // verus!
