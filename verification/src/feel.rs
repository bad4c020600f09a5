//! The renderer's ear: what it remembers of the energy it hears, and what it makes of it.
//!
//! One number is nothing; two numbers show direction; more than two show the rate of
//! change. The ear keeps a bounded history of energy frames, carries the last valid frame
//! over a glitch, counts the onsets and the frames between them, classifies the movement
//! that it feels, and shapes the output by it.
//!
//! Energies are of any type `E`. The arithmetic on them is handed in: [`EarArithmetic`] is
//! what listening needs, and [`ShapeArithmetic`] what shaping needs.

use vstd::prelude::*;

use crate::window::RollingWindow;

verus! {

/// Default number of energy frames held in the rolling history.
pub const DEFAULT_HISTORY: usize = 64;

/// The fewest frames that a history holds: the rate of change needs three.
pub const MIN_HISTORY: usize = 3;

/// The felt direction of a pulse: what the ear reads from the movement.
#[derive(Debug, Clone, Copy, PartialEq, Eq, Structural)]
pub enum FeltDirection {
    /// Energy is rising: the room is warming.
    Rising,
    /// Energy is falling: the room is cooling.
    Falling,
    /// Energy is holding: no meaningful movement.
    Flat,
}

/// How a value stands to the noise floor.
#[derive(Debug, Clone, Copy, PartialEq, Eq, Structural)]
pub struct Gauge {
    /// Is its size below the noise floor?
    pub within: bool,
    /// Is it above the noise floor?
    pub rises: bool,
    /// Is it below the negative noise floor?
    pub falls: bool,
}

/// The felt direction of a signal that stands so to the noise floor.
pub open spec fn felt_signal(signal: Gauge) -> FeltDirection {
    if signal.rises {
        FeltDirection::Rising
    } else if signal.falls {
        FeltDirection::Falling
    } else {
        FeltDirection::Flat
    }
}

impl FeltDirection {
    /// Classify a direction signal against the noise floor. `gauge` holds the one against the
    /// other.
    pub fn from_signal<E, G: Fn(E, E) -> Gauge>(direction: E, noise_floor: E, gauge: &G) -> (felt:
        FeltDirection)
        requires
            call_requires(gauge, (direction, noise_floor)),
        ensures
            exists|signal: Gauge|
                #[trigger] call_ensures(gauge, (direction, noise_floor), signal) && felt
                    == felt_signal(signal),
    {
        let signal = gauge(direction, noise_floor);
        FeltDirection::of_signal(signal)
    }

    /// The felt direction of a signal.
    fn of_signal(signal: Gauge) -> (felt: FeltDirection)
        ensures
            felt == felt_signal(signal),
    {
        if signal.rises {
            FeltDirection::Rising
        } else if signal.falls {
            FeltDirection::Falling
        } else {
            FeltDirection::Flat
        }
    }
}

/// A difference between readings, and how it stands to the noise floor.
#[derive(Debug, Clone, Copy)]
pub struct Movement<E> {
    pub value: E,
    pub gauge: Gauge,
}

/// What a difference counts for: nothing if there are too few readings for one, or if it is
/// below the noise floor.
pub open spec fn felt_movement<E>(movement: Option<Movement<E>>, rest: E) -> E {
    match movement {
        Some(m) => if m.gauge.within {
            rest
        } else {
            m.value
        },
        None => rest,
    }
}

/// What a difference counts for.
fn feel_movement<E: Copy>(movement: Option<Movement<E>>, rest: E) -> (felt: E)
    ensures
        felt == felt_movement(movement, rest),
{
    match movement {
        Some(m) => if m.gauge.within {
            rest
        } else {
            m.value
        },
        None => rest,
    }
}

/// `movement` is the difference of the last two readings of `series`, gauged against the
/// noise floor; there is none if there are not two readings.
pub open spec fn is_last_difference<E>(
    series: Seq<E>,
    noise_floor: E,
    subtract: spec_fn(E, E, E) -> bool,
    gauge: spec_fn(E, E, Gauge) -> bool,
    movement: Option<Movement<E>>,
) -> bool {
    let n = series.len() as int;
    match movement {
        Some(m) => {
            &&& n >= 2
            &&& subtract(series[n - 1], series[n - 2], m.value)
            &&& gauge(m.value, noise_floor, m.gauge)
        },
        None => n < 2,
    }
}

/// `movement` is the second difference of the last three readings of `series`, gauged against
/// the noise floor; there is none if there are not three readings.
pub open spec fn is_last_second_difference<E>(
    series: Seq<E>,
    noise_floor: E,
    second_difference: spec_fn(E, E, E, E) -> bool,
    gauge: spec_fn(E, E, Gauge) -> bool,
    movement: Option<Movement<E>>,
) -> bool {
    let n = series.len() as int;
    match movement {
        Some(m) => {
            &&& n >= 3
            &&& second_difference(series[n - 1], series[n - 2], series[n - 3], m.value)
            &&& gauge(m.value, noise_floor, m.gauge)
        },
        None => n < 3,
    }
}

/// `felt` is the direction of `series`: what the difference of its last two readings counts
/// for.
pub open spec fn is_direction<E>(
    series: Seq<E>,
    noise_floor: E,
    rest: E,
    subtract: spec_fn(E, E, E) -> bool,
    gauge: spec_fn(E, E, Gauge) -> bool,
    felt: E,
) -> bool {
    exists|movement: Option<Movement<E>>|
        #[trigger] is_last_difference(series, noise_floor, subtract, gauge, movement) && felt
            == felt_movement(movement, rest)
}

/// `felt` is the rate of change of `series`: what the second difference of its last three
/// readings counts for.
pub open spec fn is_rate<E>(
    series: Seq<E>,
    noise_floor: E,
    rest: E,
    second_difference: spec_fn(E, E, E, E) -> bool,
    gauge: spec_fn(E, E, Gauge) -> bool,
    felt: E,
) -> bool {
    exists|movement: Option<Movement<E>>|
        #[trigger] is_last_second_difference(
            series,
            noise_floor,
            second_difference,
            gauge,
            movement,
        ) && felt == felt_movement(movement, rest)
}

/// Direction from the last two readings of `series`: their difference, the newer one first,
/// or `rest` if there are not two or the difference is below the noise floor.
///
/// `subtract` gives the difference, and `gauge` holds a value against the noise floor.
pub fn direction<E: Copy, D: Fn(E, E) -> E, G: Fn(E, E) -> Gauge>(
    series: &[E],
    noise_floor: E,
    rest: E,
    subtract: D,
    gauge: G,
) -> (felt: E)
    requires
        forall|a: E, b: E| call_requires(subtract, (a, b)),
        forall|a: E, b: E| call_requires(gauge, (a, b)),
    ensures
        is_direction(
            series@,
            noise_floor,
            rest,
            crate::relation::binary(subtract),
            crate::relation::binary(gauge),
            felt,
        ),
{
    let n: usize = series.len();
    let movement = if n < 2 {
        None
    } else {
        let value = subtract(series[n - 1], series[n - 2]);
        Some(Movement { value, gauge: gauge(value, noise_floor) })
    };
    assert(is_last_difference(
        series@,
        noise_floor,
        crate::relation::binary(subtract),
        crate::relation::binary(gauge),
        movement,
    ));
    feel_movement(movement, rest)
}

/// Rate of change from the last three readings of `series`: their second difference, the
/// newest one first, or `rest` if there are not three or the difference is below the noise
/// floor.
pub fn rate_of_change<E: Copy, A: Fn(E, E, E) -> E, G: Fn(E, E) -> Gauge>(
    series: &[E],
    noise_floor: E,
    rest: E,
    second_difference: A,
    gauge: G,
) -> (felt: E)
    requires
        forall|a: E, b: E, c: E| call_requires(second_difference, (a, b, c)),
        forall|a: E, b: E| call_requires(gauge, (a, b)),
    ensures
        is_rate(
            series@,
            noise_floor,
            rest,
            crate::relation::ternary(second_difference),
            crate::relation::binary(gauge),
            felt,
        ),
{
    let n: usize = series.len();
    let movement = if n < 3 {
        None
    } else {
        let value = second_difference(series[n - 1], series[n - 2], series[n - 3]);
        Some(Movement { value, gauge: gauge(value, noise_floor) })
    };
    assert(is_last_second_difference(
        series@,
        noise_floor,
        crate::relation::ternary(second_difference),
        crate::relation::binary(gauge),
        movement,
    ));
    feel_movement(movement, rest)
}

/// One macro read of the pulse.
#[derive(Debug, Clone, Copy)]
pub struct Perception<E> {
    /// Number of energy frames in the history.
    pub n_readings: usize,
    /// Rolling mean energy.
    pub energy: E,
    /// Rolling loudness in dB.
    pub loudness_db: E,
    /// Rolling tempo: smoothed spacing between energy onsets, in frames.
    pub tempo_frames: E,
    /// Direction from the last two frames.
    pub direction: E,
    /// Rate of change from the last three frames.
    pub rate: E,
    /// The felt direction.
    pub felt: FeltDirection,
}

/// The state of the renderer that the feel may shape.
#[derive(Debug, Clone, Copy)]
pub struct RenderState<E> {
    /// Master gain.
    pub gain: E,
    /// Note velocity.
    pub velocity: E,
}

impl<E> RenderState<E> {
    pub fn new(gain: E, velocity: E) -> (state: RenderState<E>)
        ensures
            state == (RenderState { gain, velocity }),
    {
        RenderState { gain, velocity }
    }
}

/// The room's dials: its loudness and its warmth.
#[derive(Debug, Clone, Copy)]
pub struct DialsReadings<E> {
    /// Room loudness, from silent to shouting.
    pub volume: E,
    /// Room warmth, from cold to warm.
    pub mood: E,
}

impl<E> DialsReadings<E> {
    pub fn new(volume: E, mood: E) -> (readings: DialsReadings<E>)
        ensures
            readings == (DialsReadings { volume, mood }),
    {
        DialsReadings { volume, mood }
    }
}

/// The arithmetic that listening needs, as functions on energies.
#[derive(Clone, Copy)]
pub struct EarArithmetic<Fin, Add, Sub, Sec, Mea, Out, Smo, Gau> {
    /// Is the energy a number, and not a glitch?
    pub is_finite: Fin,
    /// The sum of two energies.
    pub add: Add,
    /// The first energy without the second.
    pub subtract: Sub,
    /// The second difference of three energies, the newest first.
    pub second_difference: Sec,
    /// The mean of so many energies with this sum.
    pub mean: Mea,
    /// Does the energy stand out of this mean, as an onset does?
    pub stands_out: Out,
    /// The tempo after an onset so many frames after the one before.
    pub smooth: Smo,
    /// How the value stands to the noise floor.
    pub gauge: Gau,
}

/// What an [`EarArithmetic`] may give: its functions as relations.
#[verifier::reject_recursive_types(E)]
pub struct EarRelation<E> {
    pub is_finite: spec_fn(E, bool) -> bool,
    pub add: spec_fn(E, E, E) -> bool,
    pub subtract: spec_fn(E, E, E) -> bool,
    pub second_difference: spec_fn(E, E, E, E) -> bool,
    pub mean: spec_fn(E, usize, E) -> bool,
    pub stands_out: spec_fn(E, E, bool) -> bool,
    pub smooth: spec_fn(E, u64, E) -> bool,
    pub gauge: spec_fn(E, E, Gauge) -> bool,
}

/// What the arithmetic may give.
pub open spec fn ear_relation<
    E,
    Fin: Fn(E) -> bool,
    Add: Fn(E, E) -> E,
    Sub: Fn(E, E) -> E,
    Sec: Fn(E, E, E) -> E,
    Mea: Fn(E, usize) -> E,
    Out: Fn(E, E) -> bool,
    Smo: Fn(E, u64) -> E,
    Gau: Fn(E, E) -> Gauge,
>(ops: EarArithmetic<Fin, Add, Sub, Sec, Mea, Out, Smo, Gau>) -> EarRelation<E> {
    EarRelation {
        is_finite: crate::relation::unary(ops.is_finite),
        add: crate::relation::binary(ops.add),
        subtract: crate::relation::binary(ops.subtract),
        second_difference: crate::relation::ternary(ops.second_difference),
        mean: crate::relation::binary(ops.mean),
        stands_out: crate::relation::binary(ops.stands_out),
        smooth: crate::relation::binary(ops.smooth),
        gauge: crate::relation::binary(ops.gauge),
    }
}

/// The arithmetic can be asked of any energies.
pub open spec fn ear_total<
    E,
    Fin: Fn(E) -> bool,
    Add: Fn(E, E) -> E,
    Sub: Fn(E, E) -> E,
    Sec: Fn(E, E, E) -> E,
    Mea: Fn(E, usize) -> E,
    Out: Fn(E, E) -> bool,
    Smo: Fn(E, u64) -> E,
    Gau: Fn(E, E) -> Gauge,
>(ops: EarArithmetic<Fin, Add, Sub, Sec, Mea, Out, Smo, Gau>) -> bool {
    &&& forall|a: E| call_requires(ops.is_finite, (a,))
    &&& forall|a: E, b: E| call_requires(ops.add, (a, b))
    &&& forall|a: E, b: E| call_requires(ops.subtract, (a, b))
    &&& forall|a: E, b: E, c: E| call_requires(ops.second_difference, (a, b, c))
    &&& forall|a: E, n: usize| n > 0 ==> call_requires(ops.mean, (a, n))
    &&& forall|a: E, b: E| call_requires(ops.stands_out, (a, b))
    &&& forall|a: E, n: u64| n > 0 ==> call_requires(ops.smooth, (a, n))
    &&& forall|a: E, b: E| call_requires(ops.gauge, (a, b))
}

/// A push on the output, and whether it is up or down.
#[derive(Debug, Clone, Copy)]
pub struct Push<E> {
    pub value: E,
    pub raises: bool,
    pub lowers: bool,
}

/// The arithmetic that shaping needs, as functions on energies.
#[derive(Clone, Copy)]
pub struct ShapeArithmetic<Com, Ste, Mul, Sca> {
    /// The push of a direction and a rate of change together.
    pub combine: Com,
    /// The push of a direction alone.
    pub steady: Ste,
    /// The multiplier of a push.
    pub multiplier: Mul,
    /// A level under a multiplier.
    pub scale: Sca,
}

/// What a [`ShapeArithmetic`] may give: its functions as relations.
#[verifier::reject_recursive_types(E)]
pub struct ShapeRelation<E> {
    pub combine: spec_fn(E, E, Push<E>) -> bool,
    pub steady: spec_fn(E, Push<E>) -> bool,
    pub multiplier: spec_fn(E, E) -> bool,
    pub scale: spec_fn(E, E, E) -> bool,
}

/// What the arithmetic may give.
pub open spec fn shape_relation<
    E,
    Com: Fn(E, E) -> Push<E>,
    Ste: Fn(E) -> Push<E>,
    Mul: Fn(E) -> E,
    Sca: Fn(E, E) -> E,
>(ops: ShapeArithmetic<Com, Ste, Mul, Sca>) -> ShapeRelation<E> {
    ShapeRelation {
        combine: crate::relation::binary(ops.combine),
        steady: crate::relation::unary(ops.steady),
        multiplier: crate::relation::unary(ops.multiplier),
        scale: crate::relation::binary(ops.scale),
    }
}

/// The arithmetic can be asked of any energies.
pub open spec fn shape_total<
    E,
    Com: Fn(E, E) -> Push<E>,
    Ste: Fn(E) -> Push<E>,
    Mul: Fn(E) -> E,
    Sca: Fn(E, E) -> E,
>(ops: ShapeArithmetic<Com, Ste, Mul, Sca>) -> bool {
    &&& forall|a: E, b: E| call_requires(ops.combine, (a, b))
    &&& forall|a: E| call_requires(ops.steady, (a,))
    &&& forall|a: E| call_requires(ops.multiplier, (a,))
    &&& forall|a: E, b: E| call_requires(ops.scale, (a, b))
}

/// What the ear made of one frame.
#[derive(Debug, Clone, Copy)]
pub struct Heard<E> {
    /// The frame as it came.
    pub frame: E,
    /// Is it a number, and not a glitch?
    pub finite: bool,
    /// The energy that counts: the frame, or the last valid one in place of a glitch.
    pub energy: E,
    /// The frame that left the history for it.
    pub evicted: Option<E>,
    /// The sum of the history before it and this energy.
    pub added: E,
    /// The sum of the history with it.
    pub energy_sum: E,
    /// The mean of the history with it.
    pub mean: E,
    /// Does it stand out of the mean?
    pub above: bool,
    /// The tempo after it.
    pub tempo_frames: E,
    /// Difference of the last two frames, if there are two.
    pub movement: Option<Movement<E>>,
    /// Second difference of the last three frames, if there are three.
    pub acceleration: Option<Movement<E>>,
    /// How the direction stands to the noise floor.
    pub signal: Gauge,
}

/// The state of a pulse, as a mathematical value.
#[verifier::ext_equal]
pub struct PulseState<E> {
    /// The energy frames held, oldest first.
    pub history: Seq<E>,
    /// The most frames that are held.
    pub history_cap: int,
    pub noise_floor: E,
    /// The reading of silence.
    pub rest: E,
    pub energy_sum: E,
    /// The newest frame, or `rest` before the first.
    pub last_valid: E,
    pub tempo_frames: E,
    pub onset_count: int,
    pub frames_since_onset: int,
    pub was_above: bool,
    pub direction: E,
    pub rate: E,
    pub felt: FeltDirection,
}

/// The most frames that an ear holds which is asked to hold `history_cap`.
pub open spec fn held_frames(history_cap: int) -> int {
    if history_cap < MIN_HISTORY {
        MIN_HISTORY as int
    } else {
        history_cap
    }
}

/// The state of an ear that has heard nothing.
pub open spec fn fresh<E>(noise_floor: E, rest: E, history_cap: int) -> PulseState<E> {
    PulseState {
        history: Seq::empty(),
        history_cap: held_frames(history_cap),
        noise_floor,
        rest,
        energy_sum: rest,
        last_valid: rest,
        tempo_frames: rest,
        onset_count: 0,
        frames_since_onset: 0,
        was_above: false,
        direction: rest,
        rate: rest,
        felt: FeltDirection::Flat,
    }
}

/// What holds of every pulse: the history is bounded and long enough for a rate of change,
/// and the last valid energy is the newest frame.
pub open spec fn pulse_valid<E>(p: PulseState<E>) -> bool {
    &&& p.history.len() <= p.history_cap
    &&& MIN_HISTORY <= p.history_cap <= usize::MAX
    &&& p.history.len() > 0 ==> p.last_valid == p.history.last()
    &&& p.history.len() == 0 ==> p.last_valid == p.rest
    &&& 0 <= p.onset_count <= u64::MAX
    &&& 0 <= p.frames_since_onset <= u64::MAX
}

/// The counters of the ear have room for another frame.
pub open spec fn has_room<E>(p: PulseState<E>) -> bool {
    &&& p.frames_since_onset < u64::MAX
    &&& p.was_above || p.onset_count < u64::MAX
}

/// The energy that counts for `frame`: a glitch counts as the last valid energy.
pub open spec fn admitted_energy<E>(p: PulseState<E>, frame: E, finite: bool) -> E {
    if finite {
        frame
    } else {
        p.last_valid
    }
}

/// The frame that leaves the history for the next one.
pub open spec fn leaving<E>(p: PulseState<E>) -> Option<E> {
    if p.history.len() < p.history_cap {
        None
    } else {
        Some(p.history[0])
    }
}

/// The state after `energy` is admitted to the history.
pub open spec fn admitted<E>(p: PulseState<E>, energy: E) -> PulseState<E> {
    PulseState {
        history: crate::window::rolled(p.history, p.history_cap, energy),
        last_valid: energy,
        frames_since_onset: p.frames_since_onset + 1,
        ..p
    }
}

/// A frame that stands out after one that did not is an onset.
pub open spec fn is_onset<E>(p: PulseState<E>, above: bool) -> bool {
    above && !p.was_above
}

/// The spacing that an onset shows: none for the first one, which has nothing before it.
pub open spec fn spacing<E>(p: PulseState<E>, above: bool) -> Option<int> {
    if is_onset(p, above) && p.onset_count >= 1 {
        Some(p.frames_since_onset)
    } else {
        None
    }
}

/// The state after what was made of the admitted frame is taken in.
pub open spec fn settled<E>(p: PulseState<E>, h: Heard<E>) -> PulseState<E> {
    let onset = is_onset(p, h.above);
    PulseState {
        energy_sum: h.energy_sum,
        tempo_frames: if spacing(p, h.above) is Some {
            h.tempo_frames
        } else {
            p.tempo_frames
        },
        onset_count: if onset {
            p.onset_count + 1
        } else {
            p.onset_count
        },
        frames_since_onset: if onset {
            0
        } else {
            p.frames_since_onset
        },
        was_above: h.above,
        ..refreshed(p, h)
    }
}

/// The state after the newest frames are read.
pub open spec fn refreshed<E>(p: PulseState<E>, h: Heard<E>) -> PulseState<E> {
    PulseState {
        direction: felt_movement(h.movement, p.rest),
        rate: felt_movement(h.acceleration, p.rest),
        felt: felt_signal(h.signal),
        ..p
    }
}

/// The state after a frame of which `h` was made.
pub open spec fn after<E>(p: PulseState<E>, h: Heard<E>) -> PulseState<E> {
    settled(admitted(p, h.energy), h)
}

/// What the newest frames of the pulse show, by the arithmetic `ops`: the differences of its
/// last two and last three frames, and how the direction that follows stands to the noise
/// floor.
pub open spec fn reads<E>(p: PulseState<E>, ops: EarRelation<E>, h: Heard<E>) -> bool {
    &&& is_last_difference(p.history, p.noise_floor, ops.subtract, ops.gauge, h.movement)
    &&& is_last_second_difference(
        p.history,
        p.noise_floor,
        ops.second_difference,
        ops.gauge,
        h.acceleration,
    )
    &&& (ops.gauge)(felt_movement(h.movement, p.rest), p.noise_floor, h.signal)
}

/// `h` is what the ear makes of the frame `h.frame`, by the arithmetic `ops`.
///
/// The energy joins the running sum, and what leaves the history leaves the sum. The frame
/// stands out, or not, of the mean of the history with it; the spacing of an onset moves the
/// tempo. Then the newest frames are read.
pub open spec fn hears<E>(p: PulseState<E>, ops: EarRelation<E>, h: Heard<E>) -> bool {
    let now = admitted(p, h.energy);
    &&& (ops.is_finite)(h.frame, h.finite)
    &&& h.energy == admitted_energy(p, h.frame, h.finite)
    &&& h.evicted == leaving(p)
    &&& (ops.add)(p.energy_sum, h.energy, h.added)
    &&& match h.evicted {
        Some(evicted) => (ops.subtract)(h.added, evicted, h.energy_sum),
        None => h.energy_sum == h.added,
    }
    &&& (ops.mean)(h.energy_sum, now.history.len() as usize, h.mean)
    &&& (ops.stands_out)(h.energy, h.mean, h.above)
    &&& match spacing(now, h.above) {
        Some(frames) => (ops.smooth)(p.tempo_frames, frames as u64, h.tempo_frames),
        None => h.tempo_frames == p.tempo_frames,
    }
    &&& reads(now, ops, h)
}

/// `energy` is the mean energy of the pulse: `rest` before the first frame, and the mean of
/// the history after.
pub open spec fn is_mean<E>(p: PulseState<E>, mean: spec_fn(E, usize, E) -> bool, energy: E) -> bool {
    if p.history.len() == 0 {
        energy == p.rest
    } else {
        mean(p.energy_sum, p.history.len() as usize, energy)
    }
}

/// `db` is the loudness of the pulse: that of its mean energy.
pub open spec fn is_loudness<E>(
    p: PulseState<E>,
    mean: spec_fn(E, usize, E) -> bool,
    loudness: spec_fn(E, E) -> bool,
    db: E,
) -> bool {
    exists|energy: E| #[trigger] is_mean(p, mean, energy) && loudness(energy, db)
}

/// Whether the tempo and the number of frames per second count.
pub open spec fn both_judged<E>(
    p: PulseState<E>,
    counts: spec_fn(E, bool) -> bool,
    frames_per_second: E,
    tempo_counts: bool,
    rate_counts: bool,
) -> bool {
    counts(p.tempo_frames, tempo_counts) && counts(frames_per_second, rate_counts)
}

/// `bpm` is the tempo of the pulse in beats per minute: `rest` unless both the tempo and the
/// number of frames per second count.
pub open spec fn is_bpm<E>(
    p: PulseState<E>,
    counts: spec_fn(E, bool) -> bool,
    per_minute: spec_fn(E, E, E) -> bool,
    frames_per_second: E,
    bpm: E,
) -> bool {
    exists|tempo_counts: bool, rate_counts: bool|
        #[trigger] both_judged(p, counts, frames_per_second, tempo_counts, rate_counts) && if tempo_counts
            && rate_counts {
            per_minute(frames_per_second, p.tempo_frames, bpm)
        } else {
            bpm == p.rest
        }
}

/// The push that a felt direction allows: a rising pulse pushes up, a falling pulse pulls
/// down, and a flat pulse holds. `combined` is the push of direction and rate together; where
/// the rate would turn it against the felt direction, `steady`, that of the direction alone,
/// takes its place.
pub open spec fn allowed_push<E>(
    felt: FeltDirection,
    combined: Push<E>,
    steady: Push<E>,
    rest: E,
) -> E {
    match felt {
        FeltDirection::Rising => if combined.raises {
            combined.value
        } else {
            steady.value
        },
        FeltDirection::Falling => if combined.lowers {
            combined.value
        } else {
            steady.value
        },
        FeltDirection::Flat => rest,
    }
}

/// The pushes that the pulse weighs: that of its direction and rate together, and that of its
/// direction alone.
pub open spec fn weighs<E>(
    p: PulseState<E>,
    ops: ShapeRelation<E>,
    combined: Push<E>,
    steady: Push<E>,
) -> bool {
    (ops.combine)(p.direction, p.rate, combined) && (ops.steady)(p.direction, steady)
}

/// `multiplier` is the felt gain multiplier of the pulse.
pub open spec fn is_multiplier<E>(p: PulseState<E>, ops: ShapeRelation<E>, multiplier: E) -> bool {
    exists|combined: Push<E>, steady: Push<E>|
        #[trigger] weighs(p, ops, combined, steady) && (ops.multiplier)(
            allowed_push(p.felt, combined, steady, p.rest),
            multiplier,
        )
}

/// `shaped` is `state` as the pulse shapes it: gain and velocity under its multiplier.
pub open spec fn is_shaped<E>(
    p: PulseState<E>,
    ops: ShapeRelation<E>,
    state: RenderState<E>,
    shaped: RenderState<E>,
) -> bool {
    exists|multiplier: E| #[trigger]
        is_multiplier(p, ops, multiplier) && (ops.scale)(state.gain, multiplier, shaped.gain) && (
        ops.scale)(state.velocity, multiplier, shaped.velocity)
}

/// The renderer's ear.
#[derive(Debug)]
pub struct FeelPulse<E> {
    history: RollingWindow<E>,
    noise_floor: E,
    rest: E,
    energy_sum: E,
    tempo_frames: E,
    onset_count: u64,
    frames_since_onset: u64,
    was_above: bool,
    direction: E,
    rate: E,
    felt: FeltDirection,
}

impl<E> View for FeelPulse<E> {
    type V = PulseState<E>;

    closed spec fn view(&self) -> PulseState<E> {
        PulseState {
            history: self.history@,
            history_cap: self.history.limit(),
            noise_floor: self.noise_floor,
            rest: self.rest,
            energy_sum: self.energy_sum,
            last_valid: if self.history@.len() > 0 {
                self.history@.last()
            } else {
                self.rest
            },
            tempo_frames: self.tempo_frames,
            onset_count: self.onset_count as int,
            frames_since_onset: self.frames_since_onset as int,
            was_above: self.was_above,
            direction: self.direction,
            rate: self.rate,
            felt: self.felt,
        }
    }
}

impl<E: Copy> Clone for FeelPulse<E> {
    fn clone(&self) -> (copy: Self)
        ensures
            copy@ == self@,
    {
        proof {
            use_type_invariant(self);
        }
        FeelPulse {
            history: self.history.clone(),
            noise_floor: self.noise_floor,
            rest: self.rest,
            energy_sum: self.energy_sum,
            tempo_frames: self.tempo_frames,
            onset_count: self.onset_count,
            frames_since_onset: self.frames_since_onset,
            was_above: self.was_above,
            direction: self.direction,
            rate: self.rate,
            felt: self.felt,
        }
    }
}

impl<E> FeelPulse<E> {
    #[verifier::type_invariant]
    spec fn well_formed(&self) -> bool {
        self.history.limit() >= MIN_HISTORY
    }
}

impl<E: Copy> FeelPulse<E> {
    /// A fresh ear with an explicit noise floor and history length. `rest` is the reading
    /// of silence. The history has to fit into one allocation.
    pub fn with_params(noise_floor: E, rest: E, history_cap: usize) -> (pulse: FeelPulse<E>)
        requires
            crate::window::fits_memory::<E>(held_frames(history_cap as int)),
        ensures
            pulse@ == fresh(noise_floor, rest, history_cap as int),
    {
        let cap: usize = if history_cap < MIN_HISTORY {
            MIN_HISTORY
        } else {
            history_cap
        };
        FeelPulse {
            history: RollingWindow::new(cap),
            noise_floor,
            rest,
            energy_sum: rest,
            tempo_frames: rest,
            onset_count: 0,
            frames_since_onset: 0,
            was_above: false,
            direction: rest,
            rate: rest,
            felt: FeltDirection::Flat,
        }
    }

    /// A fresh ear with the default history length.
    pub fn new(noise_floor: E, rest: E) -> (pulse: FeelPulse<E>)
        requires
            crate::window::fits_memory::<E>(DEFAULT_HISTORY as int),
        ensures
            pulse@ == fresh(noise_floor, rest, DEFAULT_HISTORY as int),
    {
        FeelPulse::with_params(noise_floor, rest, DEFAULT_HISTORY)
    }

    /// A fresh ear seeded with one reading of the room's dials. `tilt` turns loudness and
    /// warmth into an energy.
    pub fn from_dials<
        Til: Fn(E, E) -> E,
        Fin: Fn(E) -> bool,
        Add: Fn(E, E) -> E,
        Sub: Fn(E, E) -> E,
        Sec: Fn(E, E, E) -> E,
        Mea: Fn(E, usize) -> E,
        Out: Fn(E, E) -> bool,
        Smo: Fn(E, u64) -> E,
        Gau: Fn(E, E) -> Gauge,
    >(
        readings: DialsReadings<E>,
        noise_floor: E,
        rest: E,
        tilt: Til,
        ops: &EarArithmetic<Fin, Add, Sub, Sec, Mea, Out, Smo, Gau>,
    ) -> (pulse: FeelPulse<E>)
        requires
            crate::window::fits_memory::<E>(DEFAULT_HISTORY as int),
            call_requires(tilt, (readings.volume, readings.mood)),
            ear_total::<E, Fin, Add, Sub, Sec, Mea, Out, Smo, Gau>(*ops),
        ensures
            exists|h: Heard<E>|
                #[trigger] hears(
                    fresh(noise_floor, rest, DEFAULT_HISTORY as int),
                    ear_relation(*ops),
                    h,
                ) && call_ensures(tilt, (readings.volume, readings.mood), h.frame) && pulse@ == after(
                    fresh(noise_floor, rest, DEFAULT_HISTORY as int),
                    h,
                ),
    {
        let mut pulse = FeelPulse::new(noise_floor, rest);
        let _ = pulse.push_dials(readings, tilt, ops);
        pulse
    }

    /// Push one reading of the room's dials. `tilt` turns loudness and warmth into an energy.
    pub fn push_dials<
        Til: Fn(E, E) -> E,
        Fin: Fn(E) -> bool,
        Add: Fn(E, E) -> E,
        Sub: Fn(E, E) -> E,
        Sec: Fn(E, E, E) -> E,
        Mea: Fn(E, usize) -> E,
        Out: Fn(E, E) -> bool,
        Smo: Fn(E, u64) -> E,
        Gau: Fn(E, E) -> Gauge,
    >(
        &mut self,
        readings: DialsReadings<E>,
        tilt: Til,
        ops: &EarArithmetic<Fin, Add, Sub, Sec, Mea, Out, Smo, Gau>,
    ) -> (heard: Heard<E>)
        requires
            has_room(old(self)@),
            call_requires(tilt, (readings.volume, readings.mood)),
            ear_total::<E, Fin, Add, Sub, Sec, Mea, Out, Smo, Gau>(*ops),
        ensures
            call_ensures(tilt, (readings.volume, readings.mood), heard.frame),
            hears(old(self)@, ear_relation(*ops), heard),
            final(self)@ == after(old(self)@, heard),
            pulse_valid(final(self)@),
    {
        let energy = tilt(readings.volume, readings.mood);
        self.push(energy, ops)
    }

    /// Hear one energy frame. A frame that is not finite is a glitch and not a movement: the
    /// last valid energy is carried forward in its place. Returns what was made of it.
    pub fn push<
        Fin: Fn(E) -> bool,
        Add: Fn(E, E) -> E,
        Sub: Fn(E, E) -> E,
        Sec: Fn(E, E, E) -> E,
        Mea: Fn(E, usize) -> E,
        Out: Fn(E, E) -> bool,
        Smo: Fn(E, u64) -> E,
        Gau: Fn(E, E) -> Gauge,
    >(
        &mut self,
        energy_frame: E,
        ops: &EarArithmetic<Fin, Add, Sub, Sec, Mea, Out, Smo, Gau>,
    ) -> (heard: Heard<E>)
        requires
            has_room(old(self)@),
            ear_total::<E, Fin, Add, Sub, Sec, Mea, Out, Smo, Gau>(*ops),
        ensures
            heard.frame == energy_frame,
            hears(old(self)@, ear_relation(*ops), heard),
            final(self)@ == after(old(self)@, heard),
            pulse_valid(final(self)@),
    {
        proof {
            use_type_invariant(&*self);
        }
        let finite = (ops.is_finite)(energy_frame);
        let energy = if finite {
            energy_frame
        } else {
            self.last_energy()
        };
        let mut history: RollingWindow<E> = self.history.stand_in();
        std::mem::swap(&mut history, &mut self.history);
        let evicted = history.push(energy);
        self.history = history;
        let added = (ops.add)(self.energy_sum, energy);
        let energy_sum = match evicted {
            Some(evicted) => (ops.subtract)(added, evicted),
            None => added,
        };
        self.energy_sum = energy_sum;
        self.frames_since_onset = self.frames_since_onset + 1;
        let n: usize = self.history.len();
        let mean = (ops.mean)(energy_sum, n);
        let above = (ops.stands_out)(energy, mean);
        let mut tempo_frames = self.tempo_frames;
        if above && !self.was_above {
            self.onset_count = self.onset_count + 1;
            if self.onset_count > 1 {
                tempo_frames = (ops.smooth)(self.tempo_frames, self.frames_since_onset);
                self.tempo_frames = tempo_frames;
            }
            self.frames_since_onset = 0;
        }
        self.was_above = above;
        let (movement, acceleration, signal) = self.refresh(
            &ops.subtract,
            &ops.second_difference,
            &ops.gauge,
        );
        Heard {
            frame: energy_frame,
            finite,
            energy,
            evicted,
            added,
            energy_sum,
            mean,
            above,
            tempo_frames,
            movement,
            acceleration,
            signal,
        }
    }

    /// Read direction, rate and felt direction anew from the newest frames. Returns the
    /// differences, and how the direction stands to the noise floor.
    fn refresh<Sub: Fn(E, E) -> E, Sec: Fn(E, E, E) -> E, Gau: Fn(E, E) -> Gauge>(
        &mut self,
        subtract: &Sub,
        second_difference: &Sec,
        gauge: &Gau,
    ) -> (read: (Option<Movement<E>>, Option<Movement<E>>, Gauge))
        requires
            forall|a: E, b: E| call_requires(*subtract, (a, b)),
            forall|a: E, b: E, c: E| call_requires(*second_difference, (a, b, c)),
            forall|a: E, b: E| call_requires(*gauge, (a, b)),
        ensures
            is_last_difference(
                old(self)@.history,
                old(self)@.noise_floor,
                crate::relation::binary(*subtract),
                crate::relation::binary(*gauge),
                read.0,
            ),
            is_last_second_difference(
                old(self)@.history,
                old(self)@.noise_floor,
                crate::relation::ternary(*second_difference),
                crate::relation::binary(*gauge),
                read.1,
            ),
            call_ensures(
                *gauge,
                (felt_movement(read.0, old(self)@.rest), old(self)@.noise_floor),
                read.2,
            ),
            final(self)@ == (PulseState {
                direction: felt_movement(read.0, old(self)@.rest),
                rate: felt_movement(read.1, old(self)@.rest),
                felt: felt_signal(read.2),
                ..old(self)@
            }),
    {
        proof {
            use_type_invariant(&*self);
        }
        let floor = self.noise_floor;
        let movement = match (self.recent(0), self.recent(1)) {
            (Some(newest), Some(before)) => {
                let value = subtract(newest, before);
                Some(Movement { value, gauge: gauge(value, floor) })
            },
            _ => None,
        };
        let acceleration = match (self.recent(0), self.recent(1), self.recent(2)) {
            (Some(newest), Some(before), Some(earlier)) => {
                let value = second_difference(newest, before, earlier);
                Some(Movement { value, gauge: gauge(value, floor) })
            },
            _ => None,
        };
        let felt = feel_movement(movement, self.rest);
        let signal = gauge(felt, floor);
        self.direction = felt;
        self.rate = feel_movement(acceleration, self.rest);
        self.felt = FeltDirection::of_signal(signal);
        (movement, acceleration, signal)
    }

    /// The macro read of the pulse. `mean` gives the mean of so many energies with a sum, and
    /// `loudness` the loudness of an energy.
    pub fn perception_check<Mea: Fn(E, usize) -> E, Lou: Fn(E) -> E>(
        &self,
        mean: &Mea,
        loudness: &Lou,
    ) -> (read: Perception<E>)
        requires
            forall|a: E, n: usize| n > 0 ==> call_requires(*mean, (a, n)),
            forall|a: E| call_requires(*loudness, (a,)),
        ensures
            read.n_readings == self@.history.len(),
            is_mean(self@, crate::relation::binary(*mean), read.energy),
            is_loudness(
                self@,
                crate::relation::binary(*mean),
                crate::relation::unary(*loudness),
                read.loudness_db,
            ),
            read.tempo_frames == self@.tempo_frames,
            read.direction == self@.direction,
            read.rate == self@.rate,
            read.felt == self@.felt,
    {
        Perception {
            n_readings: self.history.len(),
            energy: self.energy_mean(mean),
            loudness_db: self.loudness_db(mean, loudness),
            tempo_frames: self.tempo_frames,
            direction: self.direction,
            rate: self.rate,
            felt: self.felt,
        }
    }

    /// Shape a render state by the felt direction: a rising pulse pushes gain and velocity up,
    /// a falling pulse pulls them down, and a flat pulse holds.
    pub fn shape_output<
        Com: Fn(E, E) -> Push<E>,
        Ste: Fn(E) -> Push<E>,
        Mul: Fn(E) -> E,
        Sca: Fn(E, E) -> E,
    >(&self, state: RenderState<E>, ops: &ShapeArithmetic<Com, Ste, Mul, Sca>) -> (shaped:
        RenderState<E>)
        requires
            shape_total::<E, Com, Ste, Mul, Sca>(*ops),
        ensures
            is_shaped(self@, shape_relation(*ops), state, shaped),
    {
        let multiplier = self.gain_multiplier(ops);
        RenderState {
            gain: (ops.scale)(state.gain, multiplier),
            velocity: (ops.scale)(state.velocity, multiplier),
        }
    }

    /// The felt gain multiplier.
    pub fn gain_multiplier<
        Com: Fn(E, E) -> Push<E>,
        Ste: Fn(E) -> Push<E>,
        Mul: Fn(E) -> E,
        Sca: Fn(E, E) -> E,
    >(&self, ops: &ShapeArithmetic<Com, Ste, Mul, Sca>) -> (multiplier: E)
        requires
            shape_total::<E, Com, Ste, Mul, Sca>(*ops),
        ensures
            is_multiplier(self@, shape_relation(*ops), multiplier),
    {
        let combined = (ops.combine)(self.direction, self.rate);
        let steady = (ops.steady)(self.direction);
        let multiplier = (ops.multiplier)(self.felt_push(combined, steady));
        assert(weighs(self@, shape_relation(*ops), combined, steady));
        multiplier
    }

    /// The felt push on the output.
    fn felt_push(&self, combined: Push<E>, steady: Push<E>) -> (push: E)
        ensures
            push == allowed_push(self@.felt, combined, steady, self@.rest),
    {
        match self.felt {
            FeltDirection::Rising => if combined.raises {
                combined.value
            } else {
                steady.value
            },
            FeltDirection::Falling => if combined.lowers {
                combined.value
            } else {
                steady.value
            },
            FeltDirection::Flat => self.rest,
        }
    }

    /// Rolling mean energy (`rest` when nothing has been heard yet). `mean` gives the mean of
    /// so many energies with a sum.
    pub fn energy_mean<Mea: Fn(E, usize) -> E>(&self, mean: &Mea) -> (energy: E)
        requires
            forall|a: E, n: usize| n > 0 ==> call_requires(*mean, (a, n)),
        ensures
            is_mean(self@, crate::relation::binary(*mean), energy),
    {
        let n: usize = self.history.len();
        if n == 0 {
            self.rest
        } else {
            mean(self.energy_sum, n)
        }
    }

    /// Rolling loudness: that of the rolling mean energy.
    pub fn loudness_db<Mea: Fn(E, usize) -> E, Lou: Fn(E) -> E>(
        &self,
        mean: &Mea,
        loudness: &Lou,
    ) -> (db: E)
        requires
            forall|a: E, n: usize| n > 0 ==> call_requires(*mean, (a, n)),
            forall|a: E| call_requires(*loudness, (a,)),
        ensures
            is_loudness(
                self@,
                crate::relation::binary(*mean),
                crate::relation::unary(*loudness),
                db,
            ),
    {
        let energy = self.energy_mean(mean);
        loudness(energy)
    }

    /// Rolling tempo in beats per minute, given how many energy frames arrive per second:
    /// `rest` until two onsets have been felt, or if there is no such number of frames.
    /// `counts` says whether a number is positive and finite, and `per_minute` gives the beats
    /// per minute of frames per second and frames per beat.
    pub fn tempo_bpm<Cou: Fn(E) -> bool, Per: Fn(E, E) -> E>(
        &self,
        frames_per_second: E,
        counts: &Cou,
        per_minute: &Per,
    ) -> (bpm: E)
        requires
            forall|a: E| call_requires(*counts, (a,)),
            forall|a: E, b: E| call_requires(*per_minute, (a, b)),
        ensures
            is_bpm(
                self@,
                crate::relation::unary(*counts),
                crate::relation::binary(*per_minute),
                frames_per_second,
                bpm,
            ),
    {
        let tempo_counts = counts(self.tempo_frames);
        let rate_counts = counts(frames_per_second);
        assert(both_judged(
            self@,
            crate::relation::unary(*counts),
            frames_per_second,
            tempo_counts,
            rate_counts,
        ));
        if tempo_counts && rate_counts {
            per_minute(frames_per_second, self.tempo_frames)
        } else {
            self.rest
        }
    }

    /// Number of energy frames held.
    pub fn n_readings(&self) -> (n: usize)
        ensures
            n == self@.history.len(),
            n <= self@.history_cap,
            pulse_valid(self@),
    {
        proof {
            use_type_invariant(self);
        }
        self.history.len()
    }

    /// The energy frame that came `back` frames before the newest one.
    pub fn recent(&self, back: usize) -> (energy: Option<E>)
        ensures
            energy == (if back < self@.history.len() {
                Some(self@.history[self@.history.len() - 1 - back])
            } else {
                None
            }),
    {
        match self.history.recent(back) {
            Some(energy) => Some(*energy),
            None => None,
        }
    }

    /// The most recent energy frame (`rest` if there is none yet).
    pub fn last_energy(&self) -> (energy: E)
        ensures
            energy == self@.last_valid,
            energy == (if self@.history.len() > 0 {
                self@.history.last()
            } else {
                self@.rest
            }),
    {
        match self.history.recent(0) {
            Some(energy) => *energy,
            None => self.rest,
        }
    }

    /// The felt direction.
    pub fn felt(&self) -> (felt: FeltDirection)
        ensures
            felt == self@.felt,
    {
        self.felt
    }

    /// Sum of the history.
    pub fn energy_sum(&self) -> (sum: E)
        ensures
            sum == self@.energy_sum,
    {
        self.energy_sum
    }

    /// Smoothed spacing between onsets, in frames.
    pub fn tempo_frames(&self) -> (tempo: E)
        ensures
            tempo == self@.tempo_frames,
    {
        self.tempo_frames
    }

    /// Direction from the last two frames.
    pub fn direction(&self) -> (direction: E)
        ensures
            direction == self@.direction,
    {
        self.direction
    }

    /// Rate of change from the last three frames.
    pub fn rate(&self) -> (rate: E)
        ensures
            rate == self@.rate,
    {
        self.rate
    }

    /// Do the counters of the ear have room for another frame?
    pub fn has_room(&self) -> (yes: bool)
        ensures
            yes == has_room(self@),
    {
        self.frames_since_onset < u64::MAX && (self.was_above || self.onset_count < u64::MAX)
    }

    /// Number of onsets felt.
    pub fn onset_count(&self) -> (n: u64)
        ensures
            n == self@.onset_count,
    {
        self.onset_count
    }

    /// Frames since the last onset.
    pub fn frames_since_onset(&self) -> (n: u64)
        ensures
            n == self@.frames_since_onset,
    {
        self.frames_since_onset
    }
}

/// A glitch is not a movement: once a frame has been heard, a frame that is not finite
/// leaves the two newest readings equal, whatever it held.
pub proof fn law_glitch_is_no_movement<E>(p: PulseState<E>, ops: EarRelation<E>, h: Heard<E>)
    requires
        pulse_valid(p),
        p.history.len() > 0,
        hears(p, ops, h),
        !h.finite,
    ensures
        ({
            let newest = after(p, h).history;
            &&& newest.len() >= 2
            &&& newest[newest.len() - 1] == newest[newest.len() - 2]
        }),
{
}

/// A glitch counts as the last energy heard again: whatever the ear makes of the glitch, it
/// may make of that energy, and both leave the same state, with the same last energy.
pub proof fn law_glitch_repeats_last_energy<E>(p: PulseState<E>, ops: EarRelation<E>, h: Heard<E>)
    requires
        pulse_valid(p),
        hears(p, ops, h),
        !h.finite,
        (ops.is_finite)(p.last_valid, true),
    ensures
        ({
            let again = Heard { frame: p.last_valid, finite: true, ..h };
            &&& hears(p, ops, again)
            &&& after(p, again) == after(p, h)
            &&& after(p, h).last_valid == p.last_valid
        }),
{
}

/// A glitch shows no direction, where the difference of an energy and itself is no movement.
pub proof fn law_glitch_shows_no_direction<E>(p: PulseState<E>, ops: EarRelation<E>, h: Heard<E>)
    requires
        pulse_valid(p),
        hears(p, ops, h),
        !h.finite,
        forall|a: E, d: E, g: Gauge| #[trigger]
            (ops.subtract)(a, a, d) && #[trigger] (ops.gauge)(d, p.noise_floor, g) ==> g.within || d
                == p.rest,
    ensures
        after(p, h).direction == p.rest,
{
    if p.history.len() > 0 {
        law_glitch_is_no_movement(p, ops, h);
        let newest = after(p, h).history;
        let m = h.movement->0;
        assert((ops.subtract)(newest[newest.len() - 1], newest[newest.len() - 1], m.value));
    }
}

/// The state of a pulse after a stream of frames of each of which `heard` was made.
pub open spec fn listened<E>(p: PulseState<E>, heard: Seq<Heard<E>>) -> PulseState<E>
    decreases heard.len(),
{
    if heard.len() == 0 {
        p
    } else {
        after(listened(p, heard.drop_last()), heard.last())
    }
}

/// `heard` is what the ear makes of a stream of frames, one after the other.
pub open spec fn hears_stream<E>(p: PulseState<E>, ops: EarRelation<E>, heard: Seq<Heard<E>>) -> bool
    decreases heard.len(),
{
    heard.len() > 0 ==> hears_stream(p, ops, heard.drop_last()) && hears(
        listened(p, heard.drop_last()),
        ops,
        heard.last(),
    )
}

/// Memory is bounded by the history, whatever the duration: after any stream of frames a
/// pulse holds as many frames as it has heard, or `history_cap` if they are more.
pub proof fn law_history_is_bounded<E>(p: PulseState<E>, heard: Seq<Heard<E>>)
    requires
        pulse_valid(p),
    ensures
        ({
            let q = listened(p, heard);
            &&& q.history_cap == p.history_cap
            &&& q.history.len() > 0 ==> q.last_valid == q.history.last()
            &&& q.history.len() == 0 ==> q.last_valid == q.rest
            &&& q.history.len() == (if p.history.len() + heard.len() <= p.history_cap {
                (p.history.len() + heard.len()) as int
            } else {
                p.history_cap
            })
        }),
    decreases heard.len(),
{
    if heard.len() > 0 {
        law_history_is_bounded(p, heard.drop_last());
    }
}

/// However long a glitch lasts, the energy stays at the last valid frame.
pub proof fn law_glitches_hold_the_level<E>(
    p: PulseState<E>,
    ops: EarRelation<E>,
    heard: Seq<Heard<E>>,
)
    requires
        hears_stream(p, ops, heard),
        forall|i: int| 0 <= i < heard.len() ==> !(#[trigger] heard[i]).finite,
    ensures
        listened(p, heard).last_valid == p.last_valid,
    decreases heard.len(),
{
    if heard.len() > 0 {
        let init = heard.drop_last();
        assert forall|i: int| 0 <= i < init.len() implies !(#[trigger] init[i]).finite by {
            assert(init[i] == heard[i]);
        }
        assert(!heard[heard.len() - 1].finite);
        law_glitches_hold_the_level(p, ops, init);
    }
}

/// Does frame `i` of a stream cross the onset threshold upwards? `was_above` says where the
/// frame before the stream was.
pub open spec fn crosses(was_above: bool, above: Seq<bool>, i: int) -> bool {
    above[i] && !(if i == 0 {
        was_above
    } else {
        above[i - 1]
    })
}

/// The number of upward crossings in a stream.
pub open spec fn crossings(was_above: bool, above: Seq<bool>) -> int
    decreases above.len(),
{
    if above.len() == 0 {
        0
    } else {
        crossings(was_above, above.drop_last()) + (if crosses(was_above, above, above.len() - 1) {
            1int
        } else {
            0
        })
    }
}

/// The last frame of a stream that crosses upwards, or -1 if none does.
pub open spec fn last_crossing(was_above: bool, above: Seq<bool>) -> int
    decreases above.len(),
{
    if above.len() == 0 {
        -1
    } else if crosses(was_above, above, above.len() - 1) {
        above.len() - 1
    } else {
        last_crossing(was_above, above.drop_last())
    }
}

/// Whether each frame of a stream stands out.
pub open spec fn above_of<E>(heard: Seq<Heard<E>>) -> Seq<bool> {
    heard.map_values(|h: Heard<E>| h.above)
}

/// Onsets are the upward crossings of the threshold: they are all counted, each once, and
/// the frames since the last one are counted from it, so that the spacing of an onset is
/// its distance in frames from the one before.
pub proof fn law_onsets_are_crossings<E>(p: PulseState<E>, heard: Seq<Heard<E>>)
    ensures
        ({
            let q = listened(p, heard);
            let above = above_of(heard);
            let last = last_crossing(p.was_above, above);
            &&& q.onset_count == p.onset_count + crossings(p.was_above, above)
            &&& q.was_above == (if above.len() == 0 {
                p.was_above
            } else {
                above.last()
            })
            &&& q.frames_since_onset == (if last < 0 {
                p.frames_since_onset + heard.len()
            } else {
                heard.len() - 1 - last
            })
        }),
    decreases heard.len(),
{
    if heard.len() > 0 {
        let init = heard.drop_last();
        law_onsets_are_crossings(p, init);
        assert(above_of(heard).drop_last() =~= above_of(init));
    }
}

/// A stream that never crosses the onset threshold upwards shows no onset and no tempo.
pub proof fn law_no_onset_no_tempo<E>(p: PulseState<E>, heard: Seq<Heard<E>>)
    requires
        !p.was_above,
        forall|i: int| 0 <= i < heard.len() ==> !(#[trigger] heard[i]).above,
    ensures
        listened(p, heard).onset_count == p.onset_count,
        listened(p, heard).tempo_frames == p.tempo_frames,
        !listened(p, heard).was_above,
    decreases heard.len(),
{
    if heard.len() > 0 {
        let init = heard.drop_last();
        assert forall|i: int| 0 <= i < init.len() implies !(#[trigger] init[i]).above by {
            assert(init[i] == heard[i]);
        }
        assert(!heard[heard.len() - 1].above);
        law_no_onset_no_tempo(p, init);
    }
}

/// A spacing between onsets is at least one frame.
pub proof fn law_spacing_is_positive<E>(p: PulseState<E>, energy: E, above: bool)
    requires
        pulse_valid(p),
    ensures
        spacing(admitted(p, energy), above) matches Some(n) ==> n >= 1,
{
}

/// The frames of a stream as they count: each glitch is replaced by what counted before it,
/// which is `last_valid` at the start.
pub open spec fn carried<E>(last_valid: E, heard: Seq<Heard<E>>) -> Seq<E>
    decreases heard.len(),
{
    if heard.len() == 0 {
        Seq::empty()
    } else {
        let before = carried(last_valid, heard.drop_last());
        before.push(
            if heard.last().finite {
                heard.last().frame
            } else if before.len() > 0 {
                before.last()
            } else {
                last_valid
            },
        )
    }
}

/// The newest frames, of those held before and those of a stream as they count.
pub open spec fn newest_counted<E>(p: PulseState<E>, heard: Seq<Heard<E>>) -> Seq<E> {
    crate::window::newest(p.history + carried(p.last_valid, heard), p.history_cap)
}

/// The ear remembers what it heard: after any stream, the history holds the newest frames,
/// in order, with each glitch replaced by what counted before it.
pub proof fn law_history_holds_newest<E>(
    p: PulseState<E>,
    ops: EarRelation<E>,
    heard: Seq<Heard<E>>,
)
    requires
        pulse_valid(p),
        hears_stream(p, ops, heard),
    ensures
        ({
            let q = listened(p, heard);
            let counted = carried(p.last_valid, heard);
            &&& counted.len() == heard.len()
            &&& q.history == newest_counted(p, heard)
            &&& q.last_valid == (if counted.len() > 0 {
                counted.last()
            } else {
                p.last_valid
            })
            &&& q.history_cap == p.history_cap
            &&& q.noise_floor == p.noise_floor
            &&& q.rest == p.rest
        }),
    decreases heard.len(),
{
    let counted = carried(p.last_valid, heard);
    if heard.len() == 0 {
        assert(p.history + counted =~= p.history);
    } else {
        law_history_holds_newest(p, ops, heard.drop_last());
        let before = carried(p.last_valid, heard.drop_last());
        let all = p.history + before;
        let energy = counted.last();
        assert(p.history + counted =~= all.push(energy));
        assert(crate::window::rolled(
            crate::window::newest(all, p.history_cap),
            p.history_cap,
            energy,
        ) =~= crate::window::newest(all.push(energy), p.history_cap));
    }
}

/// A stream without glitches counts as it is.
pub proof fn law_finite_frames_count<E>(last_valid: E, heard: Seq<Heard<E>>)
    requires
        forall|i: int| 0 <= i < heard.len() ==> (#[trigger] heard[i]).finite,
    ensures
        carried(last_valid, heard) == heard.map_values(|h: Heard<E>| h.frame),
    decreases heard.len(),
{
    let frames = heard.map_values(|h: Heard<E>| h.frame);
    if heard.len() > 0 {
        let init = heard.drop_last();
        assert forall|i: int| 0 <= i < init.len() implies (#[trigger] init[i]).finite by {
            assert(init[i] == heard[i]);
        }
        law_finite_frames_count(last_valid, init);
        assert(heard[heard.len() - 1].finite);
        assert(frames =~= init.map_values(|h: Heard<E>| h.frame).push(heard.last().frame));
    } else {
        assert(carried(last_valid, heard) =~= frames);
    }
}

/// Two numbers show direction, and more than two the rate of change: after any stream,
/// direction and rate are those of the newest frames as they count, as [`direction`] and
/// [`rate_of_change`] give them, and the felt direction is that of the direction against the
/// noise floor.
pub proof fn law_reads_newest<E>(p: PulseState<E>, ops: EarRelation<E>, heard: Seq<Heard<E>>)
    requires
        pulse_valid(p),
        heard.len() > 0,
        hears_stream(p, ops, heard),
    ensures
        ({
            let q = listened(p, heard);
            let h = heard.last();
            let newest = newest_counted(p, heard);
            &&& is_last_difference(newest, p.noise_floor, ops.subtract, ops.gauge, h.movement)
            &&& is_last_second_difference(
                newest,
                p.noise_floor,
                ops.second_difference,
                ops.gauge,
                h.acceleration,
            )
            &&& q.direction == felt_movement(h.movement, p.rest)
            &&& q.rate == felt_movement(h.acceleration, p.rest)
            &&& is_direction(newest, p.noise_floor, p.rest, ops.subtract, ops.gauge, q.direction)
            &&& is_rate(newest, p.noise_floor, p.rest, ops.second_difference, ops.gauge, q.rate)
            &&& (ops.gauge)(q.direction, p.noise_floor, h.signal)
            &&& q.felt == felt_signal(h.signal)
        }),
{
    law_history_holds_newest(p, ops, heard);
    law_history_holds_newest(p, ops, heard.drop_last());
}

/// The output follows the feeling: a level comes out greater under a rising pulse, smaller
/// under a falling one and unchanged under a flat one, whatever the rate of change.
///
/// This needs of the arithmetic that the push of a direction alone goes the way of the
/// direction, and that a push up makes the level `x` greater, a push down smaller, and none
/// leaves it as it is.
pub proof fn law_output_follows_feeling<E>(
    p: PulseState<E>,
    ops: ShapeRelation<E>,
    less: spec_fn(E, E) -> bool,
    multiplier: E,
    x: E,
    shaped: E,
)
    requires
        is_multiplier(p, ops, multiplier),
        (ops.scale)(x, multiplier, shaped),
        forall|push: Push<E>| #[trigger]
            (ops.steady)(p.direction, push) ==> (p.felt is Rising ==> push.raises) && (
            p.felt is Falling ==> push.lowers),
        forall|push: Push<E>, m: E, y: E|
            ((ops.combine)(p.direction, p.rate, push) || (ops.steady)(p.direction, push))
                && #[trigger] (ops.multiplier)(push.value, m) && #[trigger] (ops.scale)(x, m, y) ==> (
            push.raises ==> less(x, y)) && (push.lowers ==> less(y, x)),
        forall|m: E, y: E| #[trigger]
            (ops.multiplier)(p.rest, m) && #[trigger] (ops.scale)(x, m, y) ==> y == x,
    ensures
        p.felt is Rising ==> less(x, shaped),
        p.felt is Falling ==> less(shaped, x),
        p.felt is Flat ==> shaped == x,
{
    let (combined, steady) = choose|combined: Push<E>, steady: Push<E>|
        #[trigger] weighs(p, ops, combined, steady) && (ops.multiplier)(
            allowed_push(p.felt, combined, steady, p.rest),
            multiplier,
        );
    assert((ops.steady)(p.direction, steady));
    assert((ops.multiplier)(allowed_push(p.felt, combined, steady, p.rest), multiplier));
}

/// `plus` and `minus` calculate as in a commutative group with the neutral element `zero`, as
/// the integers do.
#[verifier::opaque]
pub open spec fn is_group<E>(
    plus: spec_fn(E, E) -> E,
    minus: spec_fn(E, E) -> E,
    zero: E,
) -> bool {
    &&& forall|a: E, b: E, c: E| #[trigger] plus(plus(a, b), c) == plus(a, plus(b, c))
    &&& forall|a: E, b: E| #[trigger] plus(a, b) == plus(b, a)
    &&& forall|a: E| #[trigger] plus(a, zero) == a
    &&& forall|a: E, b: E| #[trigger] minus(plus(a, b), b) == a
}

proof fn lemma_group<E>(
    plus: spec_fn(E, E) -> E,
    minus: spec_fn(E, E) -> E,
    zero: E,
    a: E,
    b: E,
    c: E,
)
    requires
        is_group(plus, minus, zero),
    ensures
        plus(plus(a, b), c) == plus(a, plus(b, c)),
        plus(a, b) == plus(b, a),
        plus(a, zero) == a,
        minus(plus(a, b), b) == a,
{
    reveal(is_group);
}

/// The arithmetic adds by `plus` and subtracts by `minus`.
pub open spec fn calculates<E>(
    ops: EarRelation<E>,
    plus: spec_fn(E, E) -> E,
    minus: spec_fn(E, E) -> E,
) -> bool {
    &&& forall|a: E, b: E, r: E| #[trigger] (ops.add)(a, b, r) ==> r == plus(a, b)
    &&& forall|a: E, b: E, r: E| #[trigger] (ops.subtract)(a, b, r) ==> r == minus(a, b)
}

/// The sum of all of `items`.
pub open spec fn total<E>(items: Seq<E>, plus: spec_fn(E, E) -> E, zero: E) -> E
    decreases items.len(),
{
    if items.len() == 0 {
        zero
    } else {
        plus(total(items.drop_last(), plus, zero), items.last())
    }
}

/// The first item can be taken out of a sum.
proof fn lemma_total_first<E>(
    items: Seq<E>,
    plus: spec_fn(E, E) -> E,
    minus: spec_fn(E, E) -> E,
    zero: E,
)
    requires
        is_group(plus, minus, zero),
        items.len() > 0,
    ensures
        total(items, plus, zero) == plus(total(items.drop_first(), plus, zero), items.first()),
    decreases items.len(),
{
    let rest = items.drop_first();
    if items.len() == 1 {
        assert(items.drop_last() =~= rest);
    } else {
        let init = items.drop_last();
        lemma_total_first(init, plus, minus, zero);
        assert(init.drop_first() =~= rest.drop_last());
        let middle = total(rest.drop_last(), plus, zero);
        let (first, last) = (items.first(), items.last());
        lemma_group(plus, minus, zero, middle, first, last);
        lemma_group(plus, minus, zero, first, last, last);
        lemma_group(plus, minus, zero, middle, last, first);
    }
}

/// The energy sum is the sum of the history: where the energies calculate as in a commutative
/// group, what leaves the history leaves the sum, so that after any stream the sum is that of
/// the frames held and of no others.
pub proof fn law_sum_is_that_of_history<E>(
    p: PulseState<E>,
    ops: EarRelation<E>,
    heard: Seq<Heard<E>>,
    plus: spec_fn(E, E) -> E,
    minus: spec_fn(E, E) -> E,
)
    requires
        pulse_valid(p),
        hears_stream(p, ops, heard),
        is_group(plus, minus, p.rest),
        calculates(ops, plus, minus),
        p.energy_sum == total(p.history, plus, p.rest),
    ensures
        listened(p, heard).energy_sum == total(listened(p, heard).history, plus, p.rest),
    decreases heard.len(),
{
    if heard.len() > 0 {
        let init = heard.drop_last();
        law_sum_is_that_of_history(p, ops, init, plus, minus);
        law_history_is_bounded(p, init);
        let q = listened(p, init);
        let h = heard.last();
        let grown = q.history.push(h.energy);
        assert(grown.drop_last() =~= q.history);
        assert(h.added == plus(q.energy_sum, h.energy));
        if q.history.len() >= q.history_cap {
            lemma_total_first(grown, plus, minus, p.rest);
            lemma_group(
                plus,
                minus,
                p.rest,
                total(grown.drop_first(), plus, p.rest),
                grown.first(),
                p.rest,
            );
        }
    }
}

/// `times` is the sum of so many equal energies.
pub open spec fn times<E>(n: nat, e: E, plus: spec_fn(E, E) -> E, zero: E) -> E {
    total(Seq::new(n, |i: int| e), plus, zero)
}

/// `mean` gives means: as many of it as were summed up make the sum.
pub open spec fn averages<E>(
    mean: spec_fn(E, usize, E) -> bool,
    plus: spec_fn(E, E) -> E,
    zero: E,
) -> bool {
    forall|sum: E, n: usize, m: E| n > 0 && #[trigger] mean(sum, n, m) ==> times(n as nat, m, plus, zero) == sum
}

/// The mean energy is the mean of the history: as many of it as there are frames held make
/// the sum of these frames. So it is for the mean that can be read after any stream, and for
/// the one that the last frame was held against.
pub proof fn law_mean_is_that_of_history<E>(
    p: PulseState<E>,
    ops: EarRelation<E>,
    heard: Seq<Heard<E>>,
    plus: spec_fn(E, E) -> E,
    minus: spec_fn(E, E) -> E,
    mean: spec_fn(E, usize, E) -> bool,
    energy: E,
)
    requires
        pulse_valid(p),
        hears_stream(p, ops, heard),
        heard.len() > 0,
        is_group(plus, minus, p.rest),
        calculates(ops, plus, minus),
        p.energy_sum == total(p.history, plus, p.rest),
        averages(ops.mean, plus, p.rest),
        averages(mean, plus, p.rest),
        is_mean(listened(p, heard), mean, energy),
    ensures
        ({
            let history = listened(p, heard).history;
            &&& history.len() > 0
            &&& times(history.len(), energy, plus, p.rest) == total(history, plus, p.rest)
            &&& times(history.len(), heard.last().mean, plus, p.rest) == total(
                history,
                plus,
                p.rest,
            )
            &&& (ops.stands_out)(history.last(), heard.last().mean, heard.last().above)
        }),
{
    law_sum_is_that_of_history(p, ops, heard, plus, minus);
    law_history_is_bounded(p, heard);
    law_history_is_bounded(p, heard.drop_last());
    let q = listened(p, heard);
    let h = heard.last();
    assert(mean(q.energy_sum, q.history.len() as usize, energy));
    assert((ops.mean)(h.energy_sum, q.history.len() as usize, h.mean));
}

/// A steady room has a steady mean: after a stream of nothing but `e`, however long, the mean
/// energy is one whose sum over the frames held is that of as many times `e`; where equal sums
/// have equal means, it is `e`.
pub proof fn law_steady_stream_has_steady_mean<E>(
    p: PulseState<E>,
    ops: EarRelation<E>,
    heard: Seq<Heard<E>>,
    plus: spec_fn(E, E) -> E,
    minus: spec_fn(E, E) -> E,
    mean: spec_fn(E, usize, E) -> bool,
    e: E,
    energy: E,
)
    requires
        pulse_valid(p),
        p.history.len() == 0,
        p.energy_sum == p.rest,
        hears_stream(p, ops, heard),
        heard.len() > 0,
        is_group(plus, minus, p.rest),
        calculates(ops, plus, minus),
        averages(mean, plus, p.rest),
        forall|a: E, b: E, n: nat|
            n > 0 && #[trigger] times(n, a, plus, p.rest) == #[trigger] times(n, b, plus, p.rest) ==> a == b,
        forall|i: int| 0 <= i < heard.len() ==> (#[trigger] heard[i]).finite && heard[i].frame == e,
        is_mean(listened(p, heard), mean, energy),
    ensures
        energy == e,
{
    law_sum_is_that_of_history(p, ops, heard, plus, minus);
    law_history_is_bounded(p, heard);
    law_history_holds_newest(p, ops, heard);
    law_finite_frames_count(p.last_valid, heard);
    let q = listened(p, heard);
    let n = q.history.len();
    let frames = heard.map_values(|h: Heard<E>| h.frame);
    assert(p.history + frames =~= frames);
    assert(q.history =~= Seq::new(n, |i: int| e));
    assert(mean(q.energy_sum, n as usize, energy));
    assert(times(n, energy, plus, p.rest) == times(n, e, plus, p.rest));
}

/// What counts of a frame is the frame itself if it is finite, and else the last finite frame
/// before it, or what counted before the stream if there is none.
pub proof fn law_last_finite_frame_counts<E>(last_valid: E, heard: Seq<Heard<E>>, i: int)
    requires
        0 <= i < heard.len(),
    ensures
        carried(last_valid, heard).len() == heard.len(),
        heard[i].finite ==> carried(last_valid, heard)[i] == heard[i].frame,
        forall|j: int|
            0 <= j < i && heard[j].finite && (forall|k: int| j < k <= i ==> !(#[trigger] heard[k]).finite)
                ==> #[trigger] carried(last_valid, heard)[i] == heard[j].frame,
        (forall|k: int| 0 <= k <= i ==> !(#[trigger] heard[k]).finite) ==> carried(last_valid, heard)[i]
            == last_valid,
    decreases heard.len(),
{
    let init = heard.drop_last();
    lemma_carried_len(last_valid, heard);
    lemma_carried_len(last_valid, init);
    if i < init.len() {
        law_last_finite_frame_counts(last_valid, init, i);
        assert(forall|k: int| 0 <= k < init.len() ==> #[trigger] heard[k] == init[k]);
        assert(carried(last_valid, heard)[i] == carried(last_valid, init)[i]);
        assert forall|j: int|
            0 <= j < i && heard[j].finite && (forall|k: int| j < k <= i ==> !(#[trigger] heard[k]).finite) implies #[trigger] carried(
            last_valid,
            heard,
        )[i] == heard[j].frame by {
            assert forall|k: int| j < k <= i implies !(#[trigger] init[k]).finite by {
                assert(heard[k] == init[k]);
            }
            assert(carried(last_valid, init)[i] == init[j].frame);
        }
        if forall|k: int| 0 <= k <= i ==> !(#[trigger] heard[k]).finite {
            assert forall|k: int| 0 <= k <= i implies !(#[trigger] init[k]).finite by {
                assert(heard[k] == init[k]);
            }
        }
    } else if i > 0 {
        law_last_finite_frame_counts(last_valid, init, i - 1);
        assert(forall|k: int| 0 <= k < init.len() ==> #[trigger] heard[k] == init[k]);
        assert forall|j: int|
            0 <= j < i && heard[j].finite && (forall|k: int| j < k <= i ==> !(#[trigger] heard[k]).finite) implies #[trigger] carried(
            last_valid,
            heard,
        )[i] == heard[j].frame by {
            assert(!heard[i].finite);
            assert(init[j] == heard[j]);
            if j < i - 1 {
                assert forall|k: int| j < k <= i - 1 implies !(#[trigger] init[k]).finite by {
                    assert(heard[k] == init[k]);
                }
            }
            assert(carried(last_valid, init)[i - 1] == init[j].frame);
        }
        if forall|k: int| 0 <= k <= i ==> !(#[trigger] heard[k]).finite {
            assert(!heard[i].finite);
            assert forall|k: int| 0 <= k <= i - 1 implies !(#[trigger] init[k]).finite by {
                assert(heard[k] == init[k]);
            }
        }
    }
}

proof fn lemma_carried_len<E>(last_valid: E, heard: Seq<Heard<E>>)
    ensures
        carried(last_valid, heard).len() == heard.len(),
    decreases heard.len(),
{
    if heard.len() > 0 {
        lemma_carried_len(last_valid, heard.drop_last());
    }
}

/// A frame is a glitch exactly if the arithmetic finds it not finite, and what counts of it is
/// in the history as the newest frame.
pub proof fn law_frame_is_judged<E>(p: PulseState<E>, ops: EarRelation<E>, h: Heard<E>)
    requires
        pulse_valid(p),
        hears(p, ops, h),
    ensures
        (ops.is_finite)(h.frame, h.finite),
        after(p, h).history.len() > 0,
        h.finite ==> after(p, h).history.last() == h.frame,
        !h.finite && p.history.len() > 0 ==> after(p, h).history.last() == p.history.last(),
        !h.finite && p.history.len() == 0 ==> after(p, h).history.last() == p.rest,
        after(p, h).history.last() == h.energy,
{
}

/// The tempo moves with an onset that has one before it, and with nothing else: it is then what
/// the arithmetic makes of the tempo before and of the distance in frames between the two.
pub proof fn law_tempo_is_distance_of_onsets<E>(
    p: PulseState<E>,
    ops: EarRelation<E>,
    heard: Seq<Heard<E>>,
)
    requires
        pulse_valid(p),
        p.onset_count == 0,
        p.frames_since_onset == 0,
        hears_stream(p, ops, heard),
        heard.len() > 0,
    ensures
        ({
            let n = heard.len() - 1;
            let above = above_of(heard);
            let before = listened(p, heard.drop_last()).tempo_frames;
            let now = listened(p, heard).tempo_frames;
            let onset = |i: int| above[i] && !(if i == 0 {
                p.was_above
            } else {
                above[i - 1]
            });
            &&& !onset(n) ==> now == before
            &&& (forall|i: int| 0 <= i < n ==> !#[trigger] onset(i)) ==> now == before
            &&& forall|i: int|
                0 <= i < n && onset(n) && #[trigger] onset(i) && (forall|j: int|
                    i < j < n ==> !#[trigger] onset(j)) ==> (ops.smooth)(before, (n - i) as u64, now)
        }),
{
    let init = heard.drop_last();
    let n = heard.len() - 1;
    let above = above_of(heard);
    let early = above_of(init);
    law_onsets_are_crossings(p, init);
    law_onsets_are_crossings(p, heard);
    assert(above.drop_last() =~= early);
    let onset = |i: int| above[i] && !(if i == 0 {
        p.was_above
    } else {
        above[i - 1]
    });
    assert forall|i: int| 0 <= i < n implies #[trigger] crosses(p.was_above, early, i) == onset(i) by {
        assert(early[i] == above[i]);
        if i > 0 {
            assert(early[i - 1] == above[i - 1]);
        }
    }
    let q = listened(p, init);
    let h = heard.last();
    assert(above[n] == h.above);
    if n > 0 {
        assert(above[n - 1] == early[n - 1]);
    }
    if forall|i: int| 0 <= i < n ==> !#[trigger] onset(i) {
        assert forall|i: int| 0 <= i < early.len() implies !#[trigger] crosses(p.was_above, early, i) by {
            assert(!onset(i));
        }
        lemma_no_crossing(p.was_above, early);
    }
    assert forall|i: int|
        0 <= i < n && onset(n) && #[trigger] onset(i) && (forall|j: int|
            i < j < n ==> !#[trigger] onset(j)) implies (ops.smooth)(
        q.tempo_frames,
        (n - i) as u64,
        listened(p, heard).tempo_frames,
    ) by {
        assert(crosses(p.was_above, early, i));
        assert forall|j: int| i < j < early.len() implies !#[trigger] crosses(p.was_above, early, j) by {
            assert(!onset(j));
        }
        lemma_last_crossing(p.was_above, early, i);
    }
}

proof fn lemma_no_crossing(was_above: bool, above: Seq<bool>)
    requires
        forall|i: int| 0 <= i < above.len() ==> !#[trigger] crosses(was_above, above, i),
    ensures
        crossings(was_above, above) == 0,
        last_crossing(was_above, above) == -1,
    decreases above.len(),
{
    if above.len() > 0 {
        let init = above.drop_last();
        assert forall|i: int| 0 <= i < init.len() implies !#[trigger] crosses(was_above, init, i) by {
            assert(!crosses(was_above, above, i));
        }
        assert(!crosses(was_above, above, above.len() - 1));
        lemma_no_crossing(was_above, init);
    }
}

proof fn lemma_last_crossing(was_above: bool, above: Seq<bool>, i: int)
    requires
        0 <= i < above.len(),
        crosses(was_above, above, i),
        forall|j: int| i < j < above.len() ==> !#[trigger] crosses(was_above, above, j),
    ensures
        last_crossing(was_above, above) == i,
        crossings(was_above, above) >= 1,
    decreases above.len(),
{
    let init = above.drop_last();
    lemma_crossings_nonnegative(was_above, init);
    if i < above.len() - 1 {
        assert(!crosses(was_above, above, above.len() - 1));
        assert forall|j: int| i < j < init.len() implies !#[trigger] crosses(was_above, init, j) by {
            assert(!crosses(was_above, above, j));
        }
        assert(crosses(was_above, init, i));
        lemma_last_crossing(was_above, init, i);
    }
}

proof fn lemma_crossings_nonnegative(was_above: bool, above: Seq<bool>)
    ensures
        crossings(was_above, above) >= 0,
    decreases above.len(),
{
    if above.len() > 0 {
        lemma_crossings_nonnegative(was_above, above.drop_last());
    }
}

/// Onsets of one stream and then of another add up to those of the two as one stream, and a
/// frame is an onset exactly if it stands out and the one before does not.
pub proof fn law_onsets_add_up(was_above: bool, first: Seq<bool>, later: Seq<bool>)
    ensures
        crossings(was_above, first + later) == crossings(was_above, first) + crossings(
            if first.len() == 0 {
                was_above
            } else {
                first.last()
            },
            later,
        ),
        forall|above: bool| #[trigger]
            crossings(was_above, seq![above]) == (if above && !was_above {
                1int
            } else {
                0
            }),
    decreases later.len(),
{
    let middle = if first.len() == 0 {
        was_above
    } else {
        first.last()
    };
    if later.len() == 0 {
        assert(first + later =~= first);
    } else {
        let init = later.drop_last();
        law_onsets_add_up(was_above, first, init);
        let all = first + later;
        assert(all.drop_last() =~= first + init);
        assert(all.last() == later.last());
        if later.len() > 1 {
            assert(all[all.len() - 2] == later[later.len() - 2]);
        }
    }
    assert forall|above: bool| #[trigger]
        crossings(was_above, seq![above]) == (if above && !was_above {
            1int
        } else {
            0
        }) by {
        assert(seq![above].drop_last() =~= Seq::empty());
        assert(crossings(was_above, Seq::<bool>::empty()) == 0);
    }
}

/// The gauge and the differences are functions: `small`, `high` and `low` say how a value stands
/// to a noise floor.
pub open spec fn gauges<E>(
    gauge: spec_fn(E, E, Gauge) -> bool,
    small: spec_fn(E, E) -> bool,
    high: spec_fn(E, E) -> bool,
    low: spec_fn(E, E) -> bool,
) -> bool {
    forall|v: E, floor: E, g: Gauge| #[trigger]
        gauge(v, floor, g) ==> g.within == small(v, floor) && g.rises == high(v, floor) && g.falls
            == low(v, floor)
}

/// Direction is the difference of the last two readings, the older taken from the newer, and
/// nothing if there are not two or it is small; what came before them does not matter.
pub proof fn law_direction_is_last_difference<E>(
    series: Seq<E>,
    noise_floor: E,
    rest: E,
    subtract: spec_fn(E, E, E) -> bool,
    gauge: spec_fn(E, E, Gauge) -> bool,
    minus: spec_fn(E, E) -> E,
    small: spec_fn(E, E) -> bool,
    high: spec_fn(E, E) -> bool,
    low: spec_fn(E, E) -> bool,
    felt: E,
)
    requires
        is_direction(series, noise_floor, rest, subtract, gauge, felt),
        forall|a: E, b: E, r: E| #[trigger] subtract(a, b, r) ==> r == minus(a, b),
        gauges(gauge, small, high, low),
    ensures
        series.len() < 2 ==> felt == rest,
        forall|before: Seq<E>, older: E, newer: E|
            series == #[trigger] before.push(older).push(newer) ==> felt == (if small(
                minus(newer, older),
                noise_floor,
            ) {
                rest
            } else {
                minus(newer, older)
            }),
{
    assert forall|before: Seq<E>, older: E, newer: E|
        series == #[trigger] before.push(older).push(newer) implies felt == (if small(
        minus(newer, older),
        noise_floor,
    ) {
        rest
    } else {
        minus(newer, older)
    }) by {
        assert(series[series.len() - 1] == newer);
        assert(series[series.len() - 2] == older);
    }
}

/// The rate of change is the second difference of the last three readings, and nothing if there
/// are not three or it is small; what came before them does not matter.
pub proof fn law_rate_is_last_second_difference<E>(
    series: Seq<E>,
    noise_floor: E,
    rest: E,
    second_difference: spec_fn(E, E, E, E) -> bool,
    gauge: spec_fn(E, E, Gauge) -> bool,
    second: spec_fn(E, E, E) -> E,
    small: spec_fn(E, E) -> bool,
    high: spec_fn(E, E) -> bool,
    low: spec_fn(E, E) -> bool,
    felt: E,
)
    requires
        is_rate(series, noise_floor, rest, second_difference, gauge, felt),
        forall|a: E, b: E, c: E, r: E| #[trigger] second_difference(a, b, c, r) ==> r == second(a, b, c),
        gauges(gauge, small, high, low),
    ensures
        series.len() < 3 ==> felt == rest,
        forall|before: Seq<E>, oldest: E, older: E, newer: E|
            series == #[trigger] before.push(oldest).push(older).push(newer) ==> felt == (if small(
                second(newer, older, oldest),
                noise_floor,
            ) {
                rest
            } else {
                second(newer, older, oldest)
            }),
{
    assert forall|before: Seq<E>, oldest: E, older: E, newer: E|
        series == #[trigger] before.push(oldest).push(older).push(newer) implies felt == (if small(
        second(newer, older, oldest),
        noise_floor,
    ) {
        rest
    } else {
        second(newer, older, oldest)
    }) by {
        assert(series[series.len() - 1] == newer);
        assert(series[series.len() - 2] == older);
        assert(series[series.len() - 3] == oldest);
    }
}

/// The felt direction after a frame is rising exactly if the direction is above the noise
/// floor, falling exactly if it is below its negative and not above it, and flat otherwise; it
/// does not depend on the rate of change or on what was felt before.
pub proof fn law_felt_is_that_of_direction<E>(
    p: PulseState<E>,
    ops: EarRelation<E>,
    h: Heard<E>,
    small: spec_fn(E, E) -> bool,
    high: spec_fn(E, E) -> bool,
    low: spec_fn(E, E) -> bool,
)
    requires
        hears(p, ops, h),
        gauges(ops.gauge, small, high, low),
    ensures
        ({
            let q = after(p, h);
            let rises = high(q.direction, p.noise_floor);
            let falls = low(q.direction, p.noise_floor);
            &&& q.felt is Rising <==> rises
            &&& q.felt is Falling <==> falls && !rises
            &&& q.felt is Flat <==> !rises && !falls
        }),
        forall|g: Gauge| (#[trigger] felt_signal(g)) is Rising <==> g.rises,
        forall|g: Gauge| (#[trigger] felt_signal(g)) is Falling <==> g.falls && !g.rises,
{
}

/// Hearing a frame leaves the noise floor, the reading of silence and the length of the
/// history as they were, and adds one frame to the history until it is full.
pub proof fn law_hearing_keeps_the_settings<E>(p: PulseState<E>, h: Heard<E>)
    requires
        pulse_valid(p),
    ensures
        ({
            let q = after(p, h);
            &&& q.noise_floor == p.noise_floor
            &&& q.rest == p.rest
            &&& q.history_cap == p.history_cap
            &&& p.history.len() < p.history_cap ==> q.history == p.history.push(h.energy)
            &&& p.history.len() == p.history_cap ==> q.history == p.history.drop_first().push(h.energy)
        }),
{
    if p.history.len() == p.history_cap {
        assert(p.history.push(h.energy).drop_first() =~= p.history.drop_first().push(h.energy));
    }
}

/// An ear that has heard nothing reads silence in everything, and holds as many frames as it is
/// asked to, but three at the least.
pub proof fn law_fresh_ear_reads_silence<E>(noise_floor: E, rest: E, history_cap: int)
    ensures
        ({
            let p = fresh(noise_floor, rest, history_cap);
            &&& p.history.len() == 0
            &&& p.noise_floor == noise_floor
            &&& p.rest == rest && p.energy_sum == rest && p.last_valid == rest
            &&& p.tempo_frames == rest && p.direction == rest && p.rate == rest
            &&& p.onset_count == 0 && p.frames_since_onset == 0 && !p.was_above
            &&& p.felt is Flat
            &&& p.history_cap >= 3
            &&& history_cap >= 3 ==> p.history_cap == history_cap
            &&& history_cap < 3 ==> p.history_cap == 3
        }),
{
}

/// The loudness is that of the mean energy, and of silence before the first frame.
pub proof fn law_loudness_is_that_of_mean<E>(
    p: PulseState<E>,
    mean: spec_fn(E, usize, E) -> bool,
    loudness: spec_fn(E, E) -> bool,
    average: spec_fn(E, usize) -> E,
    loud: spec_fn(E) -> E,
    energy: E,
    db: E,
)
    requires
        is_mean(p, mean, energy),
        is_loudness(p, mean, loudness, db),
        forall|s: E, n: usize, m: E| #[trigger] mean(s, n, m) ==> m == average(s, n),
        forall|e: E, d: E| #[trigger] loudness(e, d) ==> d == loud(e),
    ensures
        db == loud(energy),
        p.history.len() == 0 ==> db == loud(p.rest),
        p.history.len() > 0 ==> energy == average(p.energy_sum, p.history.len() as usize),
{
}

/// The tempo in beats per minute is that of the smoothed spacing at the given rate of frames,
/// if both count, and silence if either does not.
pub proof fn law_bpm_is_that_of_tempo<E>(
    p: PulseState<E>,
    counts: spec_fn(E, bool) -> bool,
    per_minute: spec_fn(E, E, E) -> bool,
    positive: spec_fn(E) -> bool,
    beats: spec_fn(E, E) -> E,
    frames_per_second: E,
    bpm: E,
)
    requires
        is_bpm(p, counts, per_minute, frames_per_second, bpm),
        forall|a: E, r: bool| #[trigger] counts(a, r) ==> r == positive(a),
        forall|a: E, b: E, r: E| #[trigger] per_minute(a, b, r) ==> r == beats(a, b),
    ensures
        positive(p.tempo_frames) && positive(frames_per_second) ==> bpm == beats(
            frames_per_second,
            p.tempo_frames,
        ),
        !positive(p.tempo_frames) || !positive(frames_per_second) ==> bpm == p.rest,
{
}

/// The shaping calculates by functions.
pub open spec fn shapes_by<E>(
    ops: ShapeRelation<E>,
    combine: spec_fn(E, E) -> Push<E>,
    steady: spec_fn(E) -> Push<E>,
    multiplier: spec_fn(E) -> E,
    scale: spec_fn(E, E) -> E,
) -> bool {
    &&& forall|a: E, b: E, r: Push<E>| #[trigger] (ops.combine)(a, b, r) ==> r == combine(a, b)
    &&& forall|a: E, r: Push<E>| #[trigger] (ops.steady)(a, r) ==> r == steady(a)
    &&& forall|a: E, r: E| #[trigger] (ops.multiplier)(a, r) ==> r == multiplier(a)
    &&& forall|a: E, b: E, r: E| #[trigger] (ops.scale)(a, b, r) ==> r == scale(a, b)
}

/// The multiplier of a rising or falling pulse takes the rate of change in, where direction and
/// rate together push the way that is felt, and goes by the direction alone where they do not.
/// That of a flat pulse depends on neither.
pub proof fn law_multiplier_weighs_direction_and_rate<E>(
    p: PulseState<E>,
    ops: ShapeRelation<E>,
    combine: spec_fn(E, E) -> Push<E>,
    steady: spec_fn(E) -> Push<E>,
    multiplier: spec_fn(E) -> E,
    scale: spec_fn(E, E) -> E,
    m: E,
)
    requires
        is_multiplier(p, ops, m),
        shapes_by(ops, combine, steady, multiplier, scale),
    ensures
        ({
            let both = combine(p.direction, p.rate);
            let alone = steady(p.direction);
            &&& p.felt is Rising && both.raises ==> m == multiplier(both.value)
            &&& p.felt is Rising && !both.raises ==> m == multiplier(alone.value)
            &&& p.felt is Falling && both.lowers ==> m == multiplier(both.value)
            &&& p.felt is Falling && !both.lowers ==> m == multiplier(alone.value)
            &&& p.felt is Flat ==> m == multiplier(p.rest)
        }),
{
}

/// Gain and velocity are shaped alike, each by the felt multiplier and neither by the other:
/// equal levels stay equal, whichever of the two they are.
pub proof fn law_gain_and_velocity_are_shaped_alike<E>(
    p: PulseState<E>,
    ops: ShapeRelation<E>,
    combine: spec_fn(E, E) -> Push<E>,
    steady: spec_fn(E) -> Push<E>,
    multiplier: spec_fn(E) -> E,
    scale: spec_fn(E, E) -> E,
    m: E,
    state: RenderState<E>,
    shaped: RenderState<E>,
)
    requires
        is_multiplier(p, ops, m),
        is_shaped(p, ops, state, shaped),
        shapes_by(ops, combine, steady, multiplier, scale),
    ensures
        shaped.gain == scale(state.gain, m),
        shaped.velocity == scale(state.velocity, m),
{
    let other = choose|other: E| #[trigger]
        is_multiplier(p, ops, other) && (ops.scale)(state.gain, other, shaped.gain) && (ops.scale)(
            state.velocity,
            other,
            shaped.velocity,
        );
    law_multiplier_weighs_direction_and_rate(p, ops, combine, steady, multiplier, scale, m);
    law_multiplier_weighs_direction_and_rate(p, ops, combine, steady, multiplier, scale, other);
}

/// The arithmetic of the ear is used as it is handed in: each of its relations holds of exactly
/// what the function of its name may return.
pub proof fn law_ear_uses_what_it_is_handed<
    E,
    Fin: Fn(E) -> bool,
    Add: Fn(E, E) -> E,
    Sub: Fn(E, E) -> E,
    Sec: Fn(E, E, E) -> E,
    Mea: Fn(E, usize) -> E,
    Out: Fn(E, E) -> bool,
    Smo: Fn(E, u64) -> E,
    Gau: Fn(E, E) -> Gauge,
>(
    ops: EarArithmetic<Fin, Add, Sub, Sec, Mea, Out, Smo, Gau>,
    a: E,
    b: E,
    c: E,
    r: E,
    n: usize,
    frames: u64,
    yes: bool,
    g: Gauge,
)
    ensures
        ({
            let relation = ear_relation::<E, Fin, Add, Sub, Sec, Mea, Out, Smo, Gau>(ops);
            &&& (relation.is_finite)(a, yes) <==> call_ensures(ops.is_finite, (a,), yes)
            &&& (relation.add)(a, b, r) <==> call_ensures(ops.add, (a, b), r)
            &&& (relation.subtract)(a, b, r) <==> call_ensures(ops.subtract, (a, b), r)
            &&& (relation.second_difference)(a, b, c, r) <==> call_ensures(
                ops.second_difference,
                (a, b, c),
                r,
            )
            &&& (relation.mean)(a, n, r) <==> call_ensures(ops.mean, (a, n), r)
            &&& (relation.stands_out)(a, b, yes) <==> call_ensures(ops.stands_out, (a, b), yes)
            &&& (relation.smooth)(a, frames, r) <==> call_ensures(ops.smooth, (a, frames), r)
            &&& (relation.gauge)(a, b, g) <==> call_ensures(ops.gauge, (a, b), g)
        }),
{
}

/// Hearing a frame, as it is done: the sum of the frames held stays the sum of the frames held,
/// the frame, or the last energy in place of a glitch, is the newest of them, and it stands out if
/// it does so of the mean of them all.
pub proof fn law_frame_joins_the_history<
    E: Copy,
    Fin: Fn(E) -> bool,
    Add: Fn(E, E) -> E,
    Sub: Fn(E, E) -> E,
    Sec: Fn(E, E, E) -> E,
    Mea: Fn(E, usize) -> E,
    Out: Fn(E, E) -> bool,
    Smo: Fn(E, u64) -> E,
    Gau: Fn(E, E) -> Gauge,
>(
    ear: &mut FeelPulse<E>,
    frame: E,
    ops: &EarArithmetic<Fin, Add, Sub, Sec, Mea, Out, Smo, Gau>,
    heard: Heard<E>,
    plus: spec_fn(E, E) -> E,
    minus: spec_fn(E, E) -> E,
    newest: E,
)
    requires
        call_ensures(
            FeelPulse::<E>::push::<Fin, Add, Sub, Sec, Mea, Out, Smo, Gau>,
            (ear, frame, ops),
            heard,
        ),
        call_ensures(FeelPulse::<E>::last_energy, (&*final(ear),), newest),
        pulse_valid(old(ear)@),
        is_group(plus, minus, old(ear)@.rest),
        calculates(ear_relation(*ops), plus, minus),
        averages(ear_relation(*ops).mean, plus, old(ear)@.rest),
        old(ear)@.energy_sum == total(old(ear)@.history, plus, old(ear)@.rest),
    ensures
        ({
            let history = final(ear)@.history;
            let rest = old(ear)@.rest;
            &&& final(ear)@.energy_sum == total(history, plus, rest)
            &&& 0 < history.len() <= old(ear)@.history_cap
            &&& newest == history.last()
            &&& call_ensures(ops.is_finite, (frame,), heard.finite)
            &&& heard.finite ==> newest == frame
            &&& !heard.finite && old(ear)@.history.len() > 0 ==> newest == old(ear)@.history.last()
            &&& !heard.finite && old(ear)@.history.len() == 0 ==> newest == rest
            &&& times(history.len(), heard.mean, plus, rest) == total(history, plus, rest)
            &&& call_ensures(ops.stands_out, (newest, heard.mean), heard.above)
            &&& final(ear)@.was_above == heard.above
        }),
{
    let p = old(ear)@;
    let relation = ear_relation(*ops);
    let one = seq![heard];
    assert(one.drop_last() =~= Seq::empty());
    assert(listened(p, Seq::empty()) == p);
    assert(hears_stream(p, relation, Seq::empty()));
    assert(hears_stream(p, relation, one));
    assert(listened(p, one) == after(p, heard));
    law_sum_is_that_of_history(p, relation, one, plus, minus);
    law_frame_is_judged(p, relation, heard);
    law_history_is_bounded(p, one);
    assert((relation.mean)(heard.energy_sum, final(ear)@.history.len() as usize, heard.mean));
}

/// Shaping by the ear, as it is done: gain and velocity are scaled by the multiplier that the ear
/// gives when it is asked, and by no other.
pub proof fn law_output_is_shaped_by_the_multiplier<
    E: Copy,
    Com: Fn(E, E) -> Push<E>,
    Ste: Fn(E) -> Push<E>,
    Mul: Fn(E) -> E,
    Sca: Fn(E, E) -> E,
>(
    ear: &FeelPulse<E>,
    state: RenderState<E>,
    ops: &ShapeArithmetic<Com, Ste, Mul, Sca>,
    multiplier: E,
    shaped: RenderState<E>,
    combined: spec_fn(E, E) -> Push<E>,
    steady: spec_fn(E) -> Push<E>,
    multiplied: spec_fn(E) -> E,
    scaled: spec_fn(E, E) -> E,
)
    requires
        call_ensures(FeelPulse::<E>::gain_multiplier::<Com, Ste, Mul, Sca>, (ear, ops), multiplier),
        call_ensures(FeelPulse::<E>::shape_output::<Com, Ste, Mul, Sca>, (ear, state, ops), shaped),
        shapes_by(shape_relation(*ops), combined, steady, multiplied, scaled),
    ensures
        shaped.gain == scaled(state.gain, multiplier),
        shaped.velocity == scaled(state.velocity, multiplier),
        ear@.felt is Flat ==> multiplier == multiplied(ear@.rest),
{
    let relation = shape_relation(*ops);
    law_gain_and_velocity_are_shaped_alike(
        ear@,
        relation,
        combined,
        steady,
        multiplied,
        scaled,
        multiplier,
        state,
        shaped,
    );
    law_multiplier_weighs_direction_and_rate(
        ear@,
        relation,
        combined,
        steady,
        multiplied,
        scaled,
        multiplier,
    );
}

/// The macro read says what the single readings say.
pub proof fn law_perception_is_the_readings<
    E: Copy,
    Mea: Fn(E, usize) -> E,
    Lou: Fn(E) -> E,
>(
    ear: &FeelPulse<E>,
    mean: &Mea,
    loudness: &Lou,
    averaged: spec_fn(E, usize) -> E,
    loud: spec_fn(E) -> E,
    read: Perception<E>,
    energy: E,
    db: E,
    n: usize,
    felt: FeltDirection,
    tempo: E,
    direction: E,
    rate: E,
)
    requires
        call_ensures(FeelPulse::<E>::perception_check::<Mea, Lou>, (ear, mean, loudness), read),
        call_ensures(FeelPulse::<E>::energy_mean::<Mea>, (ear, mean), energy),
        call_ensures(FeelPulse::<E>::loudness_db::<Mea, Lou>, (ear, mean, loudness), db),
        call_ensures(FeelPulse::<E>::n_readings, (ear,), n),
        call_ensures(FeelPulse::<E>::felt, (ear,), felt),
        call_ensures(FeelPulse::<E>::tempo_frames, (ear,), tempo),
        call_ensures(FeelPulse::<E>::direction, (ear,), direction),
        call_ensures(FeelPulse::<E>::rate, (ear,), rate),
        forall|a: E, k: usize, r: E| #[trigger] call_ensures(*mean, (a, k), r) ==> r == averaged(a, k),
        forall|a: E, r: E| #[trigger] call_ensures(*loudness, (a,), r) ==> r == loud(a),
    ensures
        read.energy == energy,
        read.loudness_db == db,
        db == loud(energy),
        read.n_readings == n,
        read.felt == felt,
        read.tempo_frames == tempo,
        read.direction == direction,
        read.rate == rate,
        n == 0 ==> energy == ear@.rest,
        n > 0 ==> energy == averaged(ear@.energy_sum, n),
{
}

/// A reading of the dials is heard as the energy that `tilt` makes of it, and an ear that is made
/// from one has heard that and nothing else.
pub proof fn law_dials_are_heard_as_an_energy<
    E: Copy,
    Til: Fn(E, E) -> E,
    Fin: Fn(E) -> bool,
    Add: Fn(E, E) -> E,
    Sub: Fn(E, E) -> E,
    Sec: Fn(E, E, E) -> E,
    Mea: Fn(E, usize) -> E,
    Out: Fn(E, E) -> bool,
    Smo: Fn(E, u64) -> E,
    Gau: Fn(E, E) -> Gauge,
>(
    ear: &mut FeelPulse<E>,
    readings: DialsReadings<E>,
    tilt: Til,
    tilted: spec_fn(E, E) -> E,
    ops: &EarArithmetic<Fin, Add, Sub, Sec, Mea, Out, Smo, Gau>,
    heard: Heard<E>,
    noise_floor: E,
    rest: E,
    seeded: FeelPulse<E>,
)
    requires
        call_ensures(
            FeelPulse::<E>::push_dials::<Til, Fin, Add, Sub, Sec, Mea, Out, Smo, Gau>,
            (ear, readings, tilt, ops),
            heard,
        ),
        call_ensures(
            FeelPulse::<E>::from_dials::<Til, Fin, Add, Sub, Sec, Mea, Out, Smo, Gau>,
            (readings, noise_floor, rest, tilt, ops),
            seeded,
        ),
        forall|a: E, b: E, r: E| #[trigger] call_ensures(tilt, (a, b), r) ==> r == tilted(a, b),
        forall|a: E, r: bool| #[trigger] call_ensures(ops.is_finite, (a,), r) ==> r,
        pulse_valid(old(ear)@),
    ensures
        heard.frame == tilted(readings.volume, readings.mood),
        final(ear)@.history.last() == tilted(readings.volume, readings.mood),
        seeded@.history == seq![tilted(readings.volume, readings.mood)],
        seeded@.noise_floor == noise_floor,
        seeded@.rest == rest,
        seeded@.direction == rest,
        seeded@.rate == rest,
{
    let relation = ear_relation(*ops);
    law_frame_is_judged(old(ear)@, relation, heard);
    let p = fresh(noise_floor, rest, DEFAULT_HISTORY as int);
    let h = choose|h: Heard<E>|
        #[trigger] hears(p, relation, h) && call_ensures(
            tilt,
            (readings.volume, readings.mood),
            h.frame,
        ) && seeded@ == after(p, h);
    assert(hears(p, relation, h));
    law_fresh_ear_reads_silence(noise_floor, rest, DEFAULT_HISTORY as int);
    law_frame_is_judged(p, relation, h);
    law_hearing_keeps_the_settings(p, h);
    assert(seeded@.history =~= seq![tilted(readings.volume, readings.mood)]);
}

} // verus!
