//! The telemetry store: what is known of the dish, and how responses
//! change it.

use crate::angle::{div_toward_zero, quotient_toward_zero, Angle};
use crate::dish_driver::{DishCommand, DishResponse};
use crate::rfss::Average;
use vstd::prelude::*;

verus! {

/// The elevation count at which the dish points at the horizon.
pub const ELEVATION_COUNT_LOW: i32 = 334;

/// The elevation count at the upper end of the travel.
pub const ELEVATION_COUNT_HIGH: i32 = 1487;

/// The elevation at `ELEVATION_COUNT_HIGH`, in thousandths of a degree.
pub const ELEVATION_SPAN: i64 = 70000;

/// Milliseconds between two rounds of position requests.
pub const POLL_INTERVAL_MS: u64 = 100;

/// Milliseconds after which a read from the serial line gives up.
pub const READ_TIMEOUT_MS: u64 = 1000;

/// The last values that the dish reported.
#[derive(Clone, Copy, Debug, PartialEq, Eq, Structural)]
pub struct DishState {
    pub azimuth_count: i32,
    pub azimuth_angle: Angle,
    pub elevation_count: i32,
    pub elevation_angle: Angle,
    pub signal_strength: Average,
}

/// The elevation, in thousandths of a degree, of an encoder count:
/// `70 (count - 334) / (1487 - 334)` degrees, rounded toward zero.
pub open spec fn count_to_angle(count: int) -> int {
    div_toward_zero(70000 * (count - 334), 1487 - 334)
}

/// The encoder count of an elevation given in thousandths of a degree:
/// `334 + angle (1487 - 334) / 70`, rounded toward zero.
pub open spec fn angle_to_count(millidegrees: int) -> int {
    div_toward_zero(334 * 70000 + millidegrees * (1487 - 334), 70000)
}

/// `n`, or the end of the range of `i32` on the side where `n` leaves it.
pub open spec fn clamp_i32(n: int) -> int {
    if n < i32::MIN {
        i32::MIN as int
    } else if n > i32::MAX {
        i32::MAX as int
    } else {
        n
    }
}

impl DishState {
    /// The store before anything was heard from the dish.
    pub fn new() -> (s: DishState)
        ensures
            s == (DishState {
                azimuth_count: 0,
                azimuth_angle: Angle { millidegrees: 0 },
                elevation_count: 0,
                elevation_angle: Angle { millidegrees: 0 },
                signal_strength: Average { sum: 0, count: 1 },
            }),
    {
        DishState {
            azimuth_count: 0,
            azimuth_angle: Angle { millidegrees: 0 },
            elevation_count: 0,
            elevation_angle: Angle { millidegrees: 0 },
            signal_strength: Average { sum: 0, count: 1 },
        }
    }

    /// The store that results when `response` is applied to `self`.
    pub open spec fn updated(self, response: DishResponse) -> DishState {
        match response {
            DishResponse::Azimuth(count, angle) => DishState {
                azimuth_count: count,
                azimuth_angle: angle,
                ..self
            },
            DishResponse::Elevation(count) => DishState {
                elevation_count: count,
                elevation_angle: Angle { millidegrees: count_to_angle(count as int) as i64 },
                ..self
            },
            DishResponse::RfPower(power) => DishState { signal_strength: power, ..self },
            DishResponse::Ver(_) => self,
        }
    }

    /// Takes over what `response` reports; the other fields stay.
    pub fn update_from_response(&mut self, response: &DishResponse)
        ensures
            *final(self) == old(self).updated(*response),
    {
        match response {
            DishResponse::Azimuth(az, az_angle) => {
                self.azimuth_count = *az;
                self.azimuth_angle = *az_angle;
            },
            DishResponse::Elevation(el) => {
                self.elevation_count = *el;
                self.elevation_angle = Self::elevation_count_to_angle(*el);
            },
            DishResponse::RfPower(rf) => {
                self.signal_strength = *rf;
            },
            DishResponse::Ver(_) => {},
        }
    }

    /// The encoder count for an elevation, held to the range of a count.
    pub fn elevation_angle_to_count(angle: Angle) -> (count: i32)
        ensures
            count == clamp_i32(angle_to_count(angle@)),
    {
        let n: i128 = 334 * 70000 + (angle.millidegrees as i128) * 1153;
        let q: i128 = quotient_toward_zero(n, 70000);
        if q < i32::MIN as i128 {
            i32::MIN
        } else if q > i32::MAX as i128 {
            i32::MAX
        } else {
            q as i32
        }
    }

    /// The elevation that an encoder count stands for.
    pub fn elevation_count_to_angle(count: i32) -> (angle: Angle)
        ensures
            angle@ == count_to_angle(count as int),
    {
        let n: i128 = 70000 * (count as i128 - 334);
        let q: i128 = quotient_toward_zero(n, 1153);
        assert(-0x7fff_ffff_ffff <= q <= 0x7fff_ffff_ffff) by {
            if n >= 0 {
                assert(n / 1153 <= n) by (nonlinear_arith)
                    requires
                        n >= 0,
                ;
            } else {
                assert(0 <= (-n) / 1153 <= -n) by (nonlinear_arith)
                    requires
                        n < 0,
                ;
            }
        }
        Angle { millidegrees: q as i64 }
    }
}

/// The commands of one round of position requests, in the order in which
/// they go out.
pub fn poll_commands() -> (round: Vec<DishCommand>)
    ensures
        round@ == seq![DishCommand::GetAzimuth, DishCommand::GetElevation],
{
    let mut round: Vec<DishCommand> = Vec::new();
    round.push(DishCommand::GetAzimuth);
    round.push(DishCommand::GetElevation);
    round
}

/// How the bits of a character are checked on the serial line.
#[derive(Clone, Copy, Debug, PartialEq, Eq, Structural)]
pub enum Parity {
    Unchecked,
    Odd,
    Even,
}

/// How the two ends of the serial line hold each other back.
#[derive(Clone, Copy, Debug, PartialEq, Eq, Structural)]
pub enum FlowControl {
    Off,
    Software,
    Hardware,
}

/// The settings of the serial line.
#[derive(Clone, Copy, Debug, PartialEq, Eq, Structural)]
pub struct LinkSettings {
    pub baudrate: u32,
    pub data_bits: u8,
    pub parity: Parity,
    pub stop_bits: u8,
    pub flow_control: FlowControl,
    pub timeout_ms: u64,
}

/// The settings that the dish expects at a given speed: eight data bits, no
/// parity, one stop bit, no flow control, and reads that give up after a
/// second.
pub fn link_settings(baudrate: u32) -> (s: LinkSettings)
    ensures
        s == (LinkSettings {
            baudrate,
            data_bits: 8,
            parity: Parity::Unchecked,
            stop_bits: 1,
            flow_control: FlowControl::Off,
            timeout_ms: READ_TIMEOUT_MS,
        }),
{
    LinkSettings {
        baudrate,
        data_bits: 8,
        parity: Parity::Unchecked,
        stop_bits: 1,
        flow_control: FlowControl::Off,
        timeout_ms: READ_TIMEOUT_MS,
    }
}

/// An encoder count that is turned into an angle and back comes out as
/// itself or as a neighbour, for the angle drops what is less than a
/// thousandth of a degree. Where the angle is exact, as at both ends of the
/// travel, the count comes out as itself.
pub proof fn law_count_survives_angle(count: int)
    ensures
        count - 1 <= angle_to_count(count_to_angle(count)) <= count + 1,
        (count - 334) % 1153 == 0 ==> angle_to_count(count_to_angle(count)) == count,
        count_to_angle(334) == 0 && angle_to_count(0) == 334,
        count_to_angle(1487) == 70000 && angle_to_count(70000) == 1487,
{
}

} // verus!
