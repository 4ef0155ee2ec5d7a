//! The dispatcher: what each message on the bus leads to.

use crate::angle::Angle;
use crate::dish_controller::DishState;
use crate::dish_driver::{decode, DishCommand, DishResponse};
use crate::rfss::{Average, DecodeError};
use vstd::prelude::*;

verus! {

/// The signal strength at one moment, with the direction in which the dish
/// pointed then.
#[derive(Clone, Copy, Debug, PartialEq, Eq, Structural)]
pub struct RfPowerSample {
    pub power: Average,
    pub azimuth: Angle,
    pub elevation: Angle,
    /// When the sample was taken, in milliseconds on the caller's clock.
    pub time_ms: u64,
}

/// A key that was pressed.
#[derive(Clone, Copy, Debug, PartialEq, Eq, Structural)]
pub enum Key {
    Char(char),
    Left,
    Right,
    Up,
    Down,
    Other,
}

/// A message on the bus.
#[derive(Debug, PartialEq)]
pub enum GlobalBus {
    KeyboardEvent(Key),
    DishCommand(DishCommand),
    DishResponse(DishResponse),
    RfPowerSample(RfPowerSample),
    Update,
}

/// What the dispatcher asks of the world around it.
#[derive(Clone, Copy, Debug, PartialEq, Eq, Structural)]
pub enum Effect {
    /// Write the command to the serial line.
    Transmit(DishCommand),
    /// Put the sample on the bus.
    Publish(RfPowerSample),
    /// Append the sample to the record of the run.
    Persist(RfPowerSample),
    /// Let this many milliseconds pass.
    Pause(u64),
}

/// The dispatcher: the telemetry store, of which it is the only writer, and
/// the rules by which it treats samples.
#[derive(Clone, Copy, Debug, PartialEq, Eq, Structural)]
pub struct App {
    pub should_quit: bool,
    pub state: DishState,
    /// The signal strength above which a sample counts as a fault.
    pub power_limit: i64,
    /// Seconds for which the dish is asked to watch the signal.
    pub watch_seconds: i32,
    /// Milliseconds to wait after a sample was asked for again.
    pub resample_ms: u64,
}

/// The command that a key stands for, if any.
pub open spec fn key_command(key: Key, watch_seconds: i32) -> Option<DishCommand> {
    match key {
        Key::Left => Some(DishCommand::NudgeAzimuthCcw),
        Key::Right => Some(DishCommand::NudgeAzimuthCw),
        Key::Up => Some(DishCommand::NudgeElevationUp),
        Key::Down => Some(DishCommand::NudgeElevationDown),
        Key::Char(c) => if c == ' ' {
            Some(DishCommand::RfWatch(watch_seconds))
        } else {
            None
        },
        Key::Other => None,
    }
}

impl GlobalBus {
    /// The message that a received line leads to: its response, if it
    /// decodes to one.
    pub fn from_line(line: &str) -> (r: Result<Option<GlobalBus>, DecodeError>)
        ensures
            match decode(line@) {
                Ok(Some(response)) => r == Ok::<Option<GlobalBus>, DecodeError>(
                    Some(GlobalBus::DishResponse(response)),
                ),
                Ok(None) => r == Ok::<Option<GlobalBus>, DecodeError>(None),
                Err(e) => r == Err::<Option<GlobalBus>, DecodeError>(e),
            },
    {
        match DishResponse::parse(line) {
            Ok(Some(response)) => Ok(Some(GlobalBus::DishResponse(response))),
            Ok(None) => Ok(None),
            Err(e) => Err(e),
        }
    }
}

impl App {
    /// The dispatcher at the start of a run: nothing heard yet, samples
    /// above 5000 taken as faults.
    pub fn new() -> (app: App)
        ensures
            app == (App {
                should_quit: false,
                state: DishState {
                    azimuth_count: 0,
                    azimuth_angle: Angle { millidegrees: 0 },
                    elevation_count: 0,
                    elevation_angle: Angle { millidegrees: 0 },
                    signal_strength: Average { sum: 0, count: 1 },
                },
                power_limit: 5000,
                watch_seconds: 1,
                resample_ms: 1000,
            }),
    {
        App {
            should_quit: false,
            state: DishState::new(),
            power_limit: 5000,
            watch_seconds: 1,
            resample_ms: 1000,
        }
    }

    /// The dispatcher after `message`.
    pub open spec fn after(self, message: GlobalBus) -> App {
        match message {
            GlobalBus::KeyboardEvent(key) => App {
                should_quit: self.should_quit || key == Key::Char('q'),
                ..self
            },
            GlobalBus::DishResponse(response) => App {
                state: self.state.updated(response),
                ..self
            },
            _ => self,
        }
    }

    /// What `message` asks for, when it arrives at the time `now_ms`.
    pub open spec fn effects(self, message: GlobalBus, now_ms: u64) -> Seq<Effect> {
        match message {
            GlobalBus::KeyboardEvent(key) => match key_command(key, self.watch_seconds) {
                Some(command) => seq![Effect::Transmit(command)],
                None => Seq::empty(),
            },
            GlobalBus::DishCommand(command) => seq![Effect::Transmit(command)],
            GlobalBus::DishResponse(response) => match response {
                DishResponse::RfPower(power) => seq![
                    Effect::Publish(
                        RfPowerSample {
                            power,
                            azimuth: self.state.updated(response).azimuth_angle,
                            elevation: self.state.updated(response).elevation_angle,
                            time_ms: now_ms,
                        },
                    ),
                ],
                _ => Seq::empty(),
            },
            GlobalBus::RfPowerSample(sample) => if sample.power.is_above(self.power_limit as int) {
                seq![
                    Effect::Transmit(DishCommand::RfWatch(self.watch_seconds)),
                    Effect::Pause(self.resample_ms),
                ]
            } else {
                seq![Effect::Persist(sample)]
            },
            GlobalBus::Update => Seq::empty(),
        }
    }

    /// Treats one message: updates the store and the quit flag, and says
    /// what is to be done. A sample above the limit is not recorded: one
    /// new sample is asked for in its place.
    pub fn handle(&mut self, message: &GlobalBus, now_ms: u64) -> (out: Vec<Effect>)
        ensures
            *final(self) == old(self).after(*message),
            out@ == old(self).effects(*message, now_ms),
    {
        let mut out: Vec<Effect> = Vec::new();
        match message {
            GlobalBus::KeyboardEvent(key) => {
                match key {
                    Key::Left => {
                        out.push(Effect::Transmit(DishCommand::NudgeAzimuthCcw));
                    },
                    Key::Right => {
                        out.push(Effect::Transmit(DishCommand::NudgeAzimuthCw));
                    },
                    Key::Up => {
                        out.push(Effect::Transmit(DishCommand::NudgeElevationUp));
                    },
                    Key::Down => {
                        out.push(Effect::Transmit(DishCommand::NudgeElevationDown));
                    },
                    Key::Char(c) => {
                        if *c == ' ' {
                            out.push(Effect::Transmit(DishCommand::RfWatch(self.watch_seconds)));
                        } else if *c == 'q' {
                            self.should_quit = true;
                        }
                    },
                    Key::Other => {},
                }
            },
            GlobalBus::DishCommand(command) => {
                out.push(Effect::Transmit(*command));
            },
            GlobalBus::DishResponse(response) => {
                self.state.update_from_response(response);
                match response {
                    DishResponse::RfPower(power) => {
                        out.push(
                            Effect::Publish(
                                RfPowerSample {
                                    power: *power,
                                    azimuth: self.state.azimuth_angle,
                                    elevation: self.state.elevation_angle,
                                    time_ms: now_ms,
                                },
                            ),
                        );
                    },
                    _ => {},
                }
            },
            GlobalBus::RfPowerSample(sample) => {
                if sample.power.exceeds(self.power_limit) {
                    out.push(Effect::Transmit(DishCommand::RfWatch(self.watch_seconds)));
                    out.push(Effect::Pause(self.resample_ms));
                } else {
                    out.push(Effect::Persist(*sample));
                }
            },
            GlobalBus::Update => {},
        }
        assert(out@ =~= old(self).effects(*message, now_ms));
        out
    }
}

impl App {
    /// The dispatcher and all that was asked for once the messages from the
    /// `i`-th on are treated in the order of their arrival, up to the one
    /// that sets the quit flag.
    pub open spec fn run_from(self, messages: Seq<GlobalBus>, now_ms: u64, i: int) -> (
        App,
        Seq<Effect>,
    )
        decreases messages.len() - i,
    {
        if 0 <= i < messages.len() && !self.should_quit {
            let rest = self.after(messages[i]).run_from(messages, now_ms, i + 1);
            (rest.0, self.effects(messages[i], now_ms) + rest.1)
        } else {
            (self, Seq::empty())
        }
    }

    /// Treats the messages in the order of their arrival and stops behind
    /// the one that sets the quit flag; what follows it is left alone.
    pub fn run(&mut self, messages: &Vec<GlobalBus>, now_ms: u64) -> (out: Vec<Effect>)
        ensures
            *final(self) == old(self).run_from(messages@, now_ms, 0).0,
            out@ == old(self).run_from(messages@, now_ms, 0).1,
    {
        let mut out: Vec<Effect> = Vec::new();
        let mut i: usize = 0;
        while i < messages.len() && !self.should_quit
            invariant
                i <= messages.len(),
                old(self).run_from(messages@, now_ms, 0).0 == self.run_from(
                    messages@,
                    now_ms,
                    i as int,
                ).0,
                old(self).run_from(messages@, now_ms, 0).1 == out@ + self.run_from(
                    messages@,
                    now_ms,
                    i as int,
                ).1,
            decreases messages.len() - i,
        {
            let ghost before = *self;
            let ghost so_far = out@;
            let mut step = self.handle(&messages[i], now_ms);
            out.append(&mut step);
            assert(so_far + before.run_from(messages@, now_ms, i as int).1 =~= out@
                + self.run_from(messages@, now_ms, i + 1).1);
            i = i + 1;
        }
        assert(out@ + self.run_from(messages@, now_ms, i as int).1 =~= out@);
        out
    }
}

/// A sample above the limit is not recorded, and leads to exactly one new
/// request for a sample; any other sample is recorded as it is.
pub proof fn law_faulty_sample_is_replaced_once(app: App, sample: RfPowerSample, now_ms: u64)
    ensures
        app.after(GlobalBus::RfPowerSample(sample)) == app,
        sample.power.is_above(app.power_limit as int) ==> app.effects(
            GlobalBus::RfPowerSample(sample),
            now_ms,
        ) == seq![
            Effect::Transmit(DishCommand::RfWatch(app.watch_seconds)),
            Effect::Pause(app.resample_ms),
        ],
        !sample.power.is_above(app.power_limit as int) ==> app.effects(
            GlobalBus::RfPowerSample(sample),
            now_ms,
        ) == seq![Effect::Persist(sample)],
{
}

/// Whatever arrives on the bus, no sample above the limit is ever recorded.
pub proof fn law_faulty_samples_are_not_persisted(
    app: App,
    messages: Seq<GlobalBus>,
    now_ms: u64,
    i: int,
)
    requires
        0 <= i <= messages.len(),
    ensures
        forall|k: int|
            0 <= k < app.run_from(messages, now_ms, i).1.len() ==> (#[trigger] app.run_from(
                messages,
                now_ms,
                i,
            ).1[k] matches Effect::Persist(sample) ==> !sample.power.is_above(
                app.power_limit as int,
            )),
    decreases messages.len() - i,
{
    if i < messages.len() && !app.should_quit {
        let next = app.after(messages[i]);
        law_faulty_samples_are_not_persisted(next, messages, now_ms, i + 1);
        let head = app.effects(messages[i], now_ms);
        let rest = next.run_from(messages, now_ms, i + 1).1;
        assert forall|k: int| 0 <= k < (head + rest).len() implies (#[trigger] (head + rest)[k]
            matches Effect::Persist(sample) ==> !sample.power.is_above(
            app.power_limit as int,
        )) by {
            if k < head.len() {
                assert((head + rest)[k] == head[k]);
            } else {
                assert((head + rest)[k] == rest[k - head.len()]);
            }
        }
    }
}

} // verus!
