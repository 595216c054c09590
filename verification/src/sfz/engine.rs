//! Regions: their parameters, their reaction to control events, and the
//! engine that plays a set of them.

use vstd::prelude::*;
use crate::decimal::{hundredth_of, Decimal};
use crate::engine::{event_named, event_of, is_draw, random_draw, Event};
use crate::envelopes::{ADSREnvelope, Generator};
use crate::sample::{
    after_all_notes_off, after_blocks, after_note_off, all_notes_off_releases, blocks_fit,
    release_runs_out, total_frames, Sample, SampleState, Strike, Voice,
};
use crate::sfz::parser::{failure_text, ParserError};
use crate::text::{nat_text, push_nat, push_str};
use crate::errors::{range_check, range_checked, FlippedRangeError, OutOfRangeError, RangeError};

verus! {

/// The whole number `v` as a decimal.
pub open spec fn whole(v: int) -> Decimal {
    Decimal { billionths: (v * 1_000_000_000) as i64 }
}

/// The out-of-range error for the integer `v` of `key` within `lo ..= hi`.
pub open spec fn int_out_of_range(key: &'static str, lo: int, hi: int, v: int) -> RangeError {
    RangeError::OutOfRange(OutOfRangeError { key, hi: whole(hi), lo: whole(lo), actual: whole(v) })
}

/// The flipped-range error for the integer bound `wrong` of `key` that lies
/// beyond the opposite bound `other`.
pub open spec fn int_flipped_range(key: &'static str, wrong: int, other: int) -> RangeError {
    RangeError::FlippedRange(FlippedRangeError { key, wrong: whole(wrong), other: whole(other) })
}

fn out_of_range_int(key: &'static str, lo: i32, hi: i32, v: i64) -> (e: RangeError)
    requires
        -0x1_0000_0000 <= v <= 0x1_0000_0000,
    ensures
        e == int_out_of_range(key, lo as int, hi as int, v as int),
{
    RangeError::out_of_range(
        key,
        Decimal::from_int(lo as i64),
        Decimal::from_int(hi as i64),
        Decimal::from_int(v),
    )
}

fn flipped_range_int(key: &'static str, wrong: i32, other: i32) -> (e: RangeError)
    ensures
        e == int_flipped_range(key, wrong as int, other as int),
{
    RangeError::flipped_range(key, Decimal::from_int(wrong as i64), Decimal::from_int(other as i64))
}

/// An inclusive interval of velocities.
#[derive(Clone, Copy, Debug, PartialEq, Eq, Structural)]
pub struct VelRange {
    pub lo: u8,
    pub hi: u8,
}

impl VelRange {
    /// The bounds are velocities, the lower no higher than the upper.
    pub open spec fn wf(self) -> bool {
        self.lo <= self.hi <= 127
    }

    /// `vel` lies within the interval.
    pub open spec fn covers(self, vel: u8) -> bool {
        self.lo <= vel <= self.hi
    }

    /// The outcome of setting the upper bound to `v`: rejected where `v` is
    /// no velocity or lies below the lower bound.
    pub open spec fn with_hi(self, v: int) -> Result<VelRange, RangeError> {
        if v < 0 || v > 127 {
            Err(int_out_of_range("hivel", 0, 127, v))
        } else if v < self.lo {
            Err(int_flipped_range("hivel", v, self.lo as int))
        } else {
            Ok(VelRange { hi: v as u8, ..self })
        }
    }

    /// The outcome of setting the lower bound to `v`: rejected where `v` is
    /// no velocity or lies above the upper bound.
    pub open spec fn with_lo(self, v: int) -> Result<VelRange, RangeError> {
        if v < 0 || v > 127 {
            Err(int_out_of_range("lovel", 0, 127, v))
        } else if v > self.hi {
            Err(int_flipped_range("lovel", v, self.hi as int))
        } else {
            Ok(VelRange { lo: v as u8, ..self })
        }
    }

    /// Sets the upper bound.
    pub fn set_hi(&mut self, v: i32) -> (r: Result<(), RangeError>)
        ensures
            match old(self).with_hi(v as int) {
                Ok(n) => r == Ok::<(), RangeError>(()) && *final(self) == n,
                Err(e) => r == Err::<(), RangeError>(e) && *final(self) == *old(self),
            },
            old(self).wf() ==> final(self).wf(),
    {
        if v < 0 || v > 127 {
            return Err(out_of_range_int("hivel", 0, 127, v as i64));
        }
        if v < self.lo as i32 {
            return Err(flipped_range_int("hivel", v, self.lo as i32));
        }
        self.hi = v as u8;
        Ok(())
    }

    /// Sets the lower bound.
    pub fn set_lo(&mut self, v: i32) -> (r: Result<(), RangeError>)
        ensures
            match old(self).with_lo(v as int) {
                Ok(n) => r == Ok::<(), RangeError>(()) && *final(self) == n,
                Err(e) => r == Err::<(), RangeError>(e) && *final(self) == *old(self),
            },
            old(self).wf() ==> final(self).wf(),
    {
        if v < 0 || v > 127 {
            return Err(out_of_range_int("lovel", 0, 127, v as i64));
        }
        if v > self.hi as i32 {
            return Err(flipped_range_int("lovel", v, self.hi as i32));
        }
        self.lo = v as u8;
        Ok(())
    }

    /// Whether the range covers the value.
    pub fn covering(&self, vel: u8) -> (r: bool)
        ensures
            r == self.covers(vel),
    {
        vel >= self.lo && vel <= self.hi
    }
}

impl Default for VelRange {
    /// Every velocity.
    fn default() -> (r: Self)
        ensures
            r == (VelRange { lo: 0, hi: 127 }),
    {
        VelRange { hi: 127, lo: 0 }
    }
}

/// An inclusive interval of notes.  A bound that is `None` disables the
/// range: it covers no note.
#[derive(Clone, Copy, Debug, PartialEq, Eq, Structural)]
pub struct NoteRange {
    pub lo: Option<u8>,
    pub hi: Option<u8>,
}

impl NoteRange {
    /// The bounds that are set are notes, the lower no higher than the upper.
    pub open spec fn wf(self) -> bool {
        &&& self.lo is Some ==> self.lo->0 <= 127
        &&& self.hi is Some ==> self.hi->0 <= 127
        &&& self.lo is Some && self.hi is Some ==> self.lo->0 <= self.hi->0
    }

    /// `note` lies within the interval, and the interval is not disabled.
    pub open spec fn covers(self, note: u8) -> bool {
        self.lo is Some && self.hi is Some && self.lo->0 <= note <= self.hi->0
    }

    /// The outcome of setting the upper bound to `v`, where `-1` removes
    /// the bound: rejected where `v` is neither `-1` nor a note, or lies
    /// below the lower bound.
    pub open spec fn with_hi(self, v: int) -> Result<NoteRange, RangeError> {
        if v == -1 {
            Ok(NoteRange { hi: None, ..self })
        } else if v < 0 || v > 127 {
            Err(int_out_of_range("hikey", -1, 127, v))
        } else if self.lo is Some && v < self.lo->0 {
            Err(int_flipped_range("hikey", v, self.lo->0 as int))
        } else {
            Ok(NoteRange { hi: Some(v as u8), ..self })
        }
    }

    /// The outcome of setting the lower bound to `v`, where `-1` removes
    /// the bound: rejected where `v` is neither `-1` nor a note, or lies
    /// above the upper bound.
    pub open spec fn with_lo(self, v: int) -> Result<NoteRange, RangeError> {
        if v == -1 {
            Ok(NoteRange { lo: None, ..self })
        } else if v < 0 || v > 127 {
            Err(int_out_of_range("lokey", -1, 127, v))
        } else if self.hi is Some && v > self.hi->0 {
            Err(int_flipped_range("lokey", v, self.hi->0 as int))
        } else {
            Ok(NoteRange { lo: Some(v as u8), ..self })
        }
    }

    /// Sets the upper bound.
    pub fn set_hi(&mut self, v: i32) -> (r: Result<(), RangeError>)
        ensures
            match old(self).with_hi(v as int) {
                Ok(n) => r == Ok::<(), RangeError>(()) && *final(self) == n,
                Err(e) => r == Err::<(), RangeError>(e) && *final(self) == *old(self),
            },
            old(self).wf() ==> final(self).wf(),
    {
        if v == -1 {
            self.hi = None;
            return Ok(());
        }
        if v < 0 || v > 127 {
            return Err(out_of_range_int("hikey", -1, 127, v as i64));
        }
        match self.lo {
            Some(lo) if v < lo as i32 => {
                return Err(flipped_range_int("hikey", v, lo as i32));
            },
            _ => {},
        }
        self.hi = Some(v as u8);
        Ok(())
    }

    /// Sets the lower bound.
    pub fn set_lo(&mut self, v: i32) -> (r: Result<(), RangeError>)
        ensures
            match old(self).with_lo(v as int) {
                Ok(n) => r == Ok::<(), RangeError>(()) && *final(self) == n,
                Err(e) => r == Err::<(), RangeError>(e) && *final(self) == *old(self),
            },
            old(self).wf() ==> final(self).wf(),
    {
        if v == -1 {
            self.lo = None;
            return Ok(());
        }
        if v < 0 || v > 127 {
            return Err(out_of_range_int("lokey", -1, 127, v as i64));
        }
        match self.hi {
            Some(hi) if v > hi as i32 => {
                return Err(flipped_range_int("lokey", v, hi as i32));
            },
            _ => {},
        }
        self.lo = Some(v as u8);
        Ok(())
    }

    /// Whether the range covers the value.
    pub fn covering(&self, note: u8) -> (r: bool)
        ensures
            r == self.covers(note),
    {
        match (self.lo, self.hi) {
            (Some(lo), Some(hi)) => note >= lo && note <= hi,
            _ => false,
        }
    }
}

impl Default for NoteRange {
    /// Every note.
    fn default() -> (r: Self)
        ensures
            r == (NoteRange { lo: Some(0u8), hi: Some(127u8) }),
    {
        NoteRange { hi: Some(127), lo: Some(0) }
    }
}

/// One, in billionths.
pub const ONE: i64 = 1_000_000_000;

/// A half-open interval of random draws within 0 ..= 1.  Where both bounds
/// are equal the interval places no condition on the draw.
#[derive(Clone, Copy, Debug, PartialEq, Eq, Structural)]
pub struct RandomRange {
    pub hi: Decimal,
    pub lo: Decimal,
}

impl RandomRange {
    /// Both bounds lie within 0 ..= 1.
    pub open spec fn wf(self) -> bool {
        &&& 0 <= self.lo.billionths <= 1_000_000_000
        &&& 0 <= self.hi.billionths <= 1_000_000_000
    }

    /// The draw passes: the bounds are equal, or `lo <= draw < hi`.
    pub open spec fn covers(self, draw: Decimal) -> bool {
        self.hi == self.lo || (self.lo.billionths <= draw.billionths < self.hi.billionths)
    }

    /// The outcome of setting the upper bound to `v`: rejected where `v`
    /// lies outside 0 ..= 1, or below a lower bound that has been set.
    pub open spec fn with_hi(self, v: Decimal) -> Result<RandomRange, RangeError> {
        if v.billionths < 0 || v.billionths > 1_000_000_000 {
            Err(RangeError::OutOfRange(OutOfRangeError { key: "hirand", hi: whole(1), lo: whole(0), actual: v }))
        } else if v.billionths < self.lo.billionths && self.lo.billionths > 0 {
            Err(RangeError::FlippedRange(FlippedRangeError { key: "hirand", wrong: v, other: self.lo }))
        } else {
            Ok(RandomRange { hi: v, ..self })
        }
    }

    /// The outcome of setting the lower bound to `v`: rejected where `v`
    /// lies outside 0 ..= 1, or above an upper bound that has been set.
    pub open spec fn with_lo(self, v: Decimal) -> Result<RandomRange, RangeError> {
        if v.billionths < 0 || v.billionths > 1_000_000_000 {
            Err(RangeError::OutOfRange(OutOfRangeError { key: "lorand", hi: whole(1), lo: whole(0), actual: v }))
        } else if v.billionths > self.hi.billionths && self.hi.billionths > 0 {
            Err(RangeError::FlippedRange(FlippedRangeError { key: "lorand", wrong: v, other: self.hi }))
        } else {
            Ok(RandomRange { lo: v, ..self })
        }
    }

    /// Sets the upper bound.
    pub fn set_hi(&mut self, v: Decimal) -> (r: Result<(), RangeError>)
        ensures
            match old(self).with_hi(v) {
                Ok(n) => r == Ok::<(), RangeError>(()) && *final(self) == n,
                Err(e) => r == Err::<(), RangeError>(e) && *final(self) == *old(self),
            },
            old(self).wf() ==> final(self).wf(),
    {
        if v.billionths < 0 || v.billionths > ONE {
            return Err(RangeError::out_of_range("hirand", Decimal::from_int(0), Decimal::from_int(1), v));
        }
        if v.billionths < self.lo.billionths && self.lo.billionths > 0 {
            return Err(RangeError::flipped_range("hirand", v, self.lo));
        }
        self.hi = v;
        Ok(())
    }

    /// Sets the lower bound.
    pub fn set_lo(&mut self, v: Decimal) -> (r: Result<(), RangeError>)
        ensures
            match old(self).with_lo(v) {
                Ok(n) => r == Ok::<(), RangeError>(()) && *final(self) == n,
                Err(e) => r == Err::<(), RangeError>(e) && *final(self) == *old(self),
            },
            old(self).wf() ==> final(self).wf(),
    {
        if v.billionths < 0 || v.billionths > ONE {
            return Err(RangeError::out_of_range("lorand", Decimal::from_int(0), Decimal::from_int(1), v));
        }
        if v.billionths > self.hi.billionths && self.hi.billionths > 0 {
            return Err(RangeError::flipped_range("lorand", v, self.hi));
        }
        self.lo = v;
        Ok(())
    }

    /// Whether the range covers the value.
    pub fn covering(&self, draw: Decimal) -> (r: bool)
        ensures
            r == self.covers(draw),
    {
        self.hi.billionths == self.lo.billionths || (draw.billionths >= self.lo.billionths
            && draw.billionths < self.hi.billionths)
    }
}

impl Default for RandomRange {
    /// No condition on the draw.
    fn default() -> (r: Self)
        ensures
            r == (RandomRange { hi: Decimal { billionths: 0 }, lo: Decimal { billionths: 0 } }),
    {
        RandomRange { hi: Decimal::new(0), lo: Decimal::new(0) }
    }
}

/// An inclusive interval of controller values.  A bound that is `None`
/// disables the range: it covers no value.
#[derive(Clone, Copy, Debug, PartialEq, Eq, Structural)]
pub struct ControlValRange {
    pub hi: Option<u8>,
    pub lo: Option<u8>,
}

impl ControlValRange {
    /// The bounds that are set are controller values, the lower no higher
    /// than the upper.
    pub open spec fn wf(self) -> bool {
        &&& self.lo is Some ==> self.lo->0 <= 127
        &&& self.hi is Some ==> self.hi->0 <= 127
        &&& self.lo is Some && self.hi is Some ==> self.lo->0 <= self.hi->0
    }

    /// `value` lies within the interval, and the interval is not disabled.
    pub open spec fn covers(self, value: u8) -> bool {
        self.lo is Some && self.hi is Some && self.lo->0 <= value <= self.hi->0
    }

    /// The outcome of setting the upper bound to `v`, where `-1` removes
    /// the bound.
    pub open spec fn with_hi(self, v: int) -> Result<ControlValRange, RangeError> {
        if v == -1 {
            Ok(ControlValRange { hi: None, ..self })
        } else if v < 0 || v > 127 {
            Err(int_out_of_range("on_hiccXX", -1, 127, v))
        } else if self.lo is Some && v < self.lo->0 {
            Err(int_flipped_range("on_hiccXX", v, self.lo->0 as int))
        } else {
            Ok(ControlValRange { hi: Some(v as u8), ..self })
        }
    }

    /// The outcome of setting the lower bound to `v`, where `-1` removes
    /// the bound.
    pub open spec fn with_lo(self, v: int) -> Result<ControlValRange, RangeError> {
        if v == -1 {
            Ok(ControlValRange { lo: None, ..self })
        } else if v < 0 || v > 127 {
            Err(int_out_of_range("on_loccXX", -1, 127, v))
        } else if self.hi is Some && v > self.hi->0 {
            Err(int_flipped_range("on_loccXX", v, self.hi->0 as int))
        } else {
            Ok(ControlValRange { lo: Some(v as u8), ..self })
        }
    }

    /// Sets the upper bound.
    pub fn set_hi(&mut self, v: i32) -> (r: Result<(), RangeError>)
        ensures
            match old(self).with_hi(v as int) {
                Ok(n) => r == Ok::<(), RangeError>(()) && *final(self) == n,
                Err(e) => r == Err::<(), RangeError>(e) && *final(self) == *old(self),
            },
            old(self).wf() ==> final(self).wf(),
    {
        if v == -1 {
            self.hi = None;
            return Ok(());
        }
        if v < 0 || v > 127 {
            return Err(out_of_range_int("on_hiccXX", -1, 127, v as i64));
        }
        match self.lo {
            Some(lo) if v < lo as i32 => {
                return Err(flipped_range_int("on_hiccXX", v, lo as i32));
            },
            _ => {},
        }
        self.hi = Some(v as u8);
        Ok(())
    }

    /// Sets the lower bound.
    pub fn set_lo(&mut self, v: i32) -> (r: Result<(), RangeError>)
        ensures
            match old(self).with_lo(v as int) {
                Ok(n) => r == Ok::<(), RangeError>(()) && *final(self) == n,
                Err(e) => r == Err::<(), RangeError>(e) && *final(self) == *old(self),
            },
            old(self).wf() ==> final(self).wf(),
    {
        if v == -1 {
            self.lo = None;
            return Ok(());
        }
        if v < 0 || v > 127 {
            return Err(out_of_range_int("on_loccXX", -1, 127, v as i64));
        }
        match self.hi {
            Some(hi) if v > hi as i32 => {
                return Err(flipped_range_int("on_loccXX", v, hi as i32));
            },
            _ => {},
        }
        self.lo = Some(v as u8);
        Ok(())
    }

    /// Whether the range covers the value.
    pub fn covering(&self, value: u8) -> (r: bool)
        ensures
            r == self.covers(value),
    {
        match (self.lo, self.hi) {
            (Some(lo), Some(hi)) => value >= lo && value <= hi,
            _ => false,
        }
    }
}

impl Default for ControlValRange {
    /// Disabled.
    fn default() -> (r: Self)
        ensures
            r == (ControlValRange { hi: None, lo: None }),
    {
        ControlValRange { hi: None, lo: None }
    }
}

/// Which event makes a region sound.
#[derive(Clone, Copy, Debug, PartialEq, Eq, Structural)]
pub enum Trigger {
    /// A note-on.
    Attack,
    /// A note-off, or the release of the sustain pedal.
    Release,
    /// A note-on while no other note is held.
    First,
    /// A note-on while another note is held.
    Legato,
    /// A note-off, whatever the sustain pedal does.
    ReleaseKey,
}

impl Default for Trigger {
    fn default() -> (r: Self)
        ensures
            r == Trigger::Attack,
    {
        Trigger::Attack
    }
}

/// The velocity from which the gain of a note is derived: the velocity of
/// the note, or where the gain tracks the velocity the other way round, its
/// mirror image within 0 ..= 127.
pub open spec fn velocity_for_gain(amp_veltrack: Decimal, velocity: u8) -> u8 {
    if amp_veltrack.billionths >= 0 {
        velocity
    } else if velocity > 127 {
        0
    } else {
        (127 - velocity) as u8
    }
}

/// The velocity from which the gain of a note is derived.
pub fn gain_velocity(amp_veltrack: Decimal, velocity: u8) -> (v: u8)
    ensures
        v == velocity_for_gain(amp_veltrack, velocity),
{
    if amp_veltrack.billionths >= 0 {
        velocity
    } else if velocity > 127 {
        0
    } else {
        127 - velocity
    }
}

/// The parameters of one region, as the instrument description gives them.
#[derive(Debug)]
pub struct RegionData {
    /// The notes that trigger the region.
    pub key_range: NoteRange,
    /// The velocities that trigger the region.
    pub vel_range: VelRange,
    /// The amplitude envelope.
    pub ampeg: Generator,
    /// The note at which the sample plays at its recorded pitch.
    pub pitch_keycenter: u8,
    /// How far the pitch follows the key, in semitones per key, within
    /// -12 ..= 12: 1 follows the keys, 0 keeps one pitch, below 0 the
    /// pitch falls as the keys rise.
    pub pitch_keytrack: Decimal,
    /// How far the gain follows the velocity, as a fraction within
    /// -1 ..= 1.
    pub amp_veltrack: Decimal,
    /// The gain in decibel, within -144.6 ..= 6.
    pub volume: Decimal,
    /// The path of the sample file.
    pub sample: String,
    /// The loss of gain of a release-triggered voice, in decibel per second
    /// since the note was struck, within 0 ..= 200.
    pub rt_decay: Decimal,
    /// The detuning in semitones, within -1 ..= 1.
    pub tune: Decimal,
    /// Which event makes the region sound.
    pub trigger: Trigger,
    /// The group to which the region belongs; 0 for none.
    pub group: u32,
    /// The group that silences the region; 0 for none.
    pub off_by: u32,
    /// For each controller, the values that trigger the region.
    pub on_ccs: [ControlValRange; 128],
    /// The random draws that trigger the region.
    pub random_range: RandomRange,
}

/// The mathematical content of a [`RegionData`].
pub struct RegionParams {
    pub key_range: NoteRange,
    pub vel_range: VelRange,
    pub ampeg: Generator,
    pub pitch_keycenter: u8,
    pub pitch_keytrack: Decimal,
    pub amp_veltrack: Decimal,
    pub volume: Decimal,
    pub sample: Seq<char>,
    pub rt_decay: Decimal,
    pub tune: Decimal,
    pub trigger: Trigger,
    pub group: u32,
    pub off_by: u32,
    /// One range for each of the 128 controllers.
    pub on_ccs: Seq<ControlValRange>,
    pub random_range: RandomRange,
}

/// The lowest gain, -144.6 dB, in billionths.
pub const VOLUME_MIN: i64 = -144_600_000_000;

/// The highest gain, 6 dB, in billionths.
pub const VOLUME_MAX: i64 = 6_000_000_000;

/// 100, in billionths.
pub const PERCENT_MAX: i64 = 100_000_000_000;

/// -100, in billionths.
pub const PERCENT_MIN: i64 = -100_000_000_000;

/// 1200, in billionths.
pub const KEYTRACK_MAX: i64 = 1_200_000_000_000;

/// -1200, in billionths.
pub const KEYTRACK_MIN: i64 = -1_200_000_000_000;

/// A hundredth of a whole number, in billionths.
pub const CENT: i64 = 10_000_000;

/// 200, in billionths.
pub const RT_DECAY_MAX: i64 = 200_000_000_000;

/// The integer `v` where it lies within `lo ..= hi`, else the out-of-range
/// error for `key`.
pub open spec fn int_range_checked(v: int, lo: int, hi: int, key: &'static str) -> Result<
    int,
    RangeError,
> {
    if lo <= v <= hi {
        Ok(v)
    } else {
        Err(int_out_of_range(key, lo, hi, v))
    }
}

impl RegionParams {
    /// Every parameter lies within its range.
    pub open spec fn wf(self) -> bool {
        &&& self.key_range.wf()
        &&& self.vel_range.wf()
        &&& self.ampeg.wf()
        &&& self.pitch_keycenter <= 127
        &&& -12_000_000_000 <= self.pitch_keytrack.billionths <= 12_000_000_000
        &&& -1_000_000_000 <= self.amp_veltrack.billionths <= 1_000_000_000
        &&& -144_600_000_000 <= self.volume.billionths <= 6_000_000_000
        &&& 0 <= self.rt_decay.billionths <= 200_000_000_000
        &&& -1_000_000_000 <= self.tune.billionths <= 1_000_000_000
        &&& self.random_range.wf()
        &&& self.on_ccs.len() == 128
        &&& forall|c: int| 0 <= c < 128 ==> (#[trigger] self.on_ccs[c]).wf()
    }

    /// The region of an empty description: every key and velocity, full
    /// key and velocity tracking, no gain, centred on note 60, triggered by
    /// attack, by no controller, in no group.
    pub open spec fn initial() -> RegionParams {
        RegionParams {
            key_range: NoteRange { lo: Some(0u8), hi: Some(127u8) },
            vel_range: VelRange { lo: 0, hi: 127 },
            ampeg: Generator {
                attack: Decimal { billionths: 0 },
                hold: Decimal { billionths: 0 },
                decay: Decimal { billionths: 0 },
                sustain: Decimal { billionths: 1_000_000_000 },
                release: Decimal { billionths: 0 },
            },
            pitch_keycenter: 60,
            pitch_keytrack: Decimal { billionths: 1_000_000_000 },
            amp_veltrack: Decimal { billionths: 1_000_000_000 },
            volume: Decimal { billionths: 0 },
            sample: Seq::empty(),
            rt_decay: Decimal { billionths: 0 },
            tune: Decimal { billionths: 0 },
            trigger: Trigger::Attack,
            group: 0,
            off_by: 0,
            on_ccs: Seq::new(128, |c: int| ControlValRange { hi: None, lo: None }),
            random_range: RandomRange { hi: Decimal { billionths: 0 }, lo: Decimal { billionths: 0 } },
        }
    }

    /// The outcome of setting the lower bound of the trigger range of
    /// controller `channel` to `v`.
    pub open spec fn with_on_lo_cc(self, channel: int, v: int) -> Result<RegionParams, RangeError> {
        if channel < 0 || channel > 127 {
            Err(int_out_of_range("cc number", 0, 127, channel))
        } else {
            match self.on_ccs[channel].with_lo(v) {
                Ok(range) => Ok(RegionParams { on_ccs: self.on_ccs.update(channel, range), ..self }),
                Err(e) => Err(e),
            }
        }
    }

    /// The outcome of setting the upper bound of the trigger range of
    /// controller `channel` to `v`.
    pub open spec fn with_on_hi_cc(self, channel: int, v: int) -> Result<RegionParams, RangeError> {
        if channel < 0 || channel > 127 {
            Err(int_out_of_range("cc number", 0, 127, channel))
        } else {
            match self.on_ccs[channel].with_hi(v) {
                Ok(range) => Ok(RegionParams { on_ccs: self.on_ccs.update(channel, range), ..self }),
                Err(e) => Err(e),
            }
        }
    }

    /// The outcome of setting the gain tracking to `v` percent: the
    /// percentage is kept as a fraction.
    pub open spec fn with_amp_veltrack(self, v: Decimal) -> Result<RegionParams, RangeError> {
        match range_checked(v, Decimal { billionths: PERCENT_MIN }, Decimal { billionths: PERCENT_MAX }, "amp_veltrack") {
            Ok(a) => Ok(
                RegionParams {
                    amp_veltrack: Decimal { billionths: hundredth_of(a.billionths as int) as i64 },
                    ..self
                },
            ),
            Err(e) => Err(e),
        }
    }

    /// The outcome of setting the pitch tracking to `v` cents per key:
    /// the cents are kept as semitones.
    pub open spec fn with_pitch_keytrack(self, v: Decimal) -> Result<RegionParams, RangeError> {
        match range_checked(v, Decimal { billionths: KEYTRACK_MIN }, Decimal { billionths: KEYTRACK_MAX }, "pitch_keytrack") {
            Ok(a) => Ok(
                RegionParams {
                    pitch_keytrack: Decimal { billionths: hundredth_of(a.billionths as int) as i64 },
                    ..self
                },
            ),
            Err(e) => Err(e),
        }
    }

    /// The outcome of setting the release-trigger decay to `v` dB/s.
    pub open spec fn with_rt_decay(self, v: Decimal) -> Result<RegionParams, RangeError> {
        match range_checked(v, Decimal { billionths: 0 }, Decimal { billionths: RT_DECAY_MAX }, "rt_decay") {
            Ok(a) => Ok(RegionParams { rt_decay: a, ..self }),
            Err(e) => Err(e),
        }
    }

    /// The outcome of setting the gain to `v` dB.
    pub open spec fn with_volume(self, v: Decimal) -> Result<RegionParams, RangeError> {
        match range_checked(v, Decimal { billionths: VOLUME_MIN }, Decimal { billionths: VOLUME_MAX }, "volume") {
            Ok(a) => Ok(RegionParams { volume: a, ..self }),
            Err(e) => Err(e),
        }
    }

    /// The outcome of setting the key centre to `v`.
    pub open spec fn with_pitch_keycenter(self, v: int) -> Result<RegionParams, RangeError> {
        match int_range_checked(v, 0, 127, "pitch_keycenter") {
            Ok(a) => Ok(RegionParams { pitch_keycenter: a as u8, ..self }),
            Err(e) => Err(e),
        }
    }

    /// The outcome of setting the detuning to `v` cents: the cents are
    /// kept as semitones.
    pub open spec fn with_tune(self, v: int) -> Result<RegionParams, RangeError> {
        match int_range_checked(v, -100, 100, "tune") {
            Ok(a) => Ok(RegionParams { tune: Decimal { billionths: (a * 10_000_000) as i64 }, ..self }),
            Err(e) => Err(e),
        }
    }
}

impl View for RegionData {
    type V = RegionParams;

    open spec fn view(&self) -> RegionParams {
        RegionParams {
            key_range: self.key_range,
            vel_range: self.vel_range,
            ampeg: self.ampeg,
            pitch_keycenter: self.pitch_keycenter,
            pitch_keytrack: self.pitch_keytrack,
            amp_veltrack: self.amp_veltrack,
            volume: self.volume,
            sample: self.sample@,
            rt_decay: self.rt_decay,
            tune: self.tune,
            trigger: self.trigger,
            group: self.group,
            off_by: self.off_by,
            on_ccs: self.on_ccs@,
            random_range: self.random_range,
        }
    }
}

/// What a setter leaves behind: the new parameters and no error, or the
/// error and the parameters as they were.
pub open spec fn applied(
    outcome: Result<RegionParams, RangeError>,
    before: RegionParams,
    after: RegionParams,
    r: Result<(), RangeError>,
) -> bool {
    match outcome {
        Ok(n) => r == Ok::<(), RangeError>(()) && after == n,
        Err(e) => r == Err::<(), RangeError>(e) && after == before,
    }
}

impl RegionData {
    /// Sets how far the gain follows the velocity.  It is given in
    /// percent, within -100 ..= 100, and kept as a fraction.
    pub fn set_amp_veltrack(&mut self, v: Decimal) -> (r: Result<(), RangeError>)
        ensures
            applied(old(self)@.with_amp_veltrack(v), old(self)@, final(self)@, r),
            old(self)@.wf() ==> final(self)@.wf(),
    {
        match range_check(v, Decimal::new(PERCENT_MIN), Decimal::new(PERCENT_MAX), "amp_veltrack") {
            Ok(a) => {
                self.amp_veltrack = a.hundredth();
                Ok(())
            },
            Err(e) => Err(e),
        }
    }

    /// Sets the note at which the sample plays at its recorded pitch.
    pub fn set_pitch_keycenter(&mut self, v: u32) -> (r: Result<(), RangeError>)
        ensures
            applied(old(self)@.with_pitch_keycenter(v as int), old(self)@, final(self)@, r),
            old(self)@.wf() ==> final(self)@.wf(),
    {
        if v > 127 {
            return Err(out_of_range_int("pitch_keycenter", 0, 127, v as i64));
        }
        self.pitch_keycenter = v as u8;
        Ok(())
    }

    /// Sets how far the pitch follows the key.  It is given in cents per
    /// key, within -1200 ..= 1200, and kept in semitones per key.
    pub fn set_pitch_keytrack(&mut self, v: Decimal) -> (r: Result<(), RangeError>)
        ensures
            applied(old(self)@.with_pitch_keytrack(v), old(self)@, final(self)@, r),
            old(self)@.wf() ==> final(self)@.wf(),
    {
        match range_check(v, Decimal::new(KEYTRACK_MIN), Decimal::new(KEYTRACK_MAX), "pitch_keytrack") {
            Ok(a) => {
                self.pitch_keytrack = a.hundredth();
                Ok(())
            },
            Err(e) => Err(e),
        }
    }

    /// Sets the path of the sample file.
    pub fn set_sample(&mut self, v: &str)
        ensures
            final(self)@ == (RegionParams { sample: v@, ..old(self)@ }),
    {
        self.sample = v.to_owned();
    }

    /// Sets the loss of gain of a release-triggered voice, in decibel per
    /// second.
    pub fn set_rt_decay(&mut self, v: Decimal) -> (r: Result<(), RangeError>)
        ensures
            applied(old(self)@.with_rt_decay(v), old(self)@, final(self)@, r),
            old(self)@.wf() ==> final(self)@.wf(),
    {
        match range_check(v, Decimal::new(0), Decimal::new(RT_DECAY_MAX), "rt_decay") {
            Ok(a) => {
                self.rt_decay = a;
                Ok(())
            },
            Err(e) => Err(e),
        }
    }

    /// Sets the detuning.  It is given in cents, within -100 ..= 100, and
    /// kept in semitones.
    pub fn set_tune(&mut self, v: i32) -> (r: Result<(), RangeError>)
        ensures
            applied(old(self)@.with_tune(v as int), old(self)@, final(self)@, r),
            old(self)@.wf() ==> final(self)@.wf(),
    {
        if v < -100 || v > 100 {
            return Err(out_of_range_int("tune", -100, 100, v as i64));
        }
        self.tune = Decimal::new(v as i64 * CENT);
        Ok(())
    }

    /// Sets the gain, in decibel.
    pub fn set_volume(&mut self, v: Decimal) -> (r: Result<(), RangeError>)
        ensures
            applied(old(self)@.with_volume(v), old(self)@, final(self)@, r),
            old(self)@.wf() ==> final(self)@.wf(),
    {
        match range_check(v, Decimal::new(VOLUME_MIN), Decimal::new(VOLUME_MAX), "volume") {
            Ok(a) => {
                self.volume = a;
                Ok(())
            },
            Err(e) => Err(e),
        }
    }

    /// Sets the event that makes the region sound.
    pub fn set_trigger(&mut self, t: Trigger)
        ensures
            final(self)@ == (RegionParams { trigger: t, ..old(self)@ }),
    {
        self.trigger = t;
    }

    /// Sets the group to which the region belongs.
    pub fn set_group(&mut self, v: u32)
        ensures
            final(self)@ == (RegionParams { group: v, ..old(self)@ }),
    {
        self.group = v;
    }

    /// Sets the group that silences the region.
    pub fn set_off_by(&mut self, v: u32)
        ensures
            final(self)@ == (RegionParams { off_by: v, ..old(self)@ }),
    {
        self.off_by = v;
    }

    /// Sets the lower bound of the values of controller `channel` that
    /// trigger the region.
    pub fn push_on_lo_cc(&mut self, channel: u32, v: i32) -> (r: Result<(), RangeError>)
        ensures
            applied(old(self)@.with_on_lo_cc(channel as int, v as int), old(self)@, final(self)@, r),
            old(self)@.wf() ==> final(self)@.wf(),
    {
        if channel > 127 {
            return Err(out_of_range_int("cc number", 0, 127, channel as i64));
        }
        let mut range = self.on_ccs[channel as usize];
        match range.set_lo(v) {
            Ok(()) => {
                self.on_ccs[channel as usize] = range;
                assert(self.on_ccs@ =~= old(self).on_ccs@.update(channel as int, range));
                Ok(())
            },
            Err(e) => Err(e),
        }
    }

    /// Sets the upper bound of the values of controller `channel` that
    /// trigger the region.
    pub fn push_on_hi_cc(&mut self, channel: u32, v: i32) -> (r: Result<(), RangeError>)
        ensures
            applied(old(self)@.with_on_hi_cc(channel as int, v as int), old(self)@, final(self)@, r),
            old(self)@.wf() ==> final(self)@.wf(),
    {
        if channel > 127 {
            return Err(out_of_range_int("cc number", 0, 127, channel as i64));
        }
        let mut range = self.on_ccs[channel as usize];
        match range.set_hi(v) {
            Ok(()) => {
                self.on_ccs[channel as usize] = range;
                assert(self.on_ccs@ =~= old(self).on_ccs@.update(channel as int, range));
                Ok(())
            },
            Err(e) => Err(e),
        }
    }

    /// Whether every parameter lies within its range.
    pub fn is_wf(&self) -> (r: bool)
        ensures
            r == self@.wf(),
    {
        let mut c: usize = 0;
        while c < 128
            invariant
                c <= 128,
                forall|k: int| 0 <= k < c ==> (#[trigger] self.on_ccs@[k]).wf(),
            decreases 128 - c,
        {
            let range = self.on_ccs[c];
            let fine = match (range.lo, range.hi) {
                (Some(lo), Some(hi)) => lo <= hi && hi <= 127,
                (Some(lo), None) => lo <= 127,
                (None, Some(hi)) => hi <= 127,
                (None, None) => true,
            };
            if !fine {
                return false;
            }
            c += 1;
        }
        let keys = match (self.key_range.lo, self.key_range.hi) {
            (Some(lo), Some(hi)) => lo <= hi && hi <= 127,
            (Some(lo), None) => lo <= 127,
            (None, Some(hi)) => hi <= 127,
            (None, None) => true,
        };
        let g = &self.ampeg;
        keys && self.vel_range.lo <= self.vel_range.hi && self.vel_range.hi <= 127
            && 0 <= g.attack.billionths && g.attack.billionths <= PERCENT_MAX
            && 0 <= g.hold.billionths && g.hold.billionths <= PERCENT_MAX
            && 0 <= g.decay.billionths && g.decay.billionths <= PERCENT_MAX
            && 0 <= g.sustain.billionths && g.sustain.billionths <= ONE
            && 0 <= g.release.billionths && g.release.billionths <= PERCENT_MAX
            && self.pitch_keycenter <= 127
            && -12 * ONE <= self.pitch_keytrack.billionths && self.pitch_keytrack.billionths <= 12 * ONE
            && -ONE <= self.amp_veltrack.billionths && self.amp_veltrack.billionths <= ONE
            && VOLUME_MIN <= self.volume.billionths && self.volume.billionths <= VOLUME_MAX
            && 0 <= self.rt_decay.billionths && self.rt_decay.billionths <= RT_DECAY_MAX
            && -ONE <= self.tune.billionths && self.tune.billionths <= ONE
            && 0 <= self.random_range.lo.billionths && self.random_range.lo.billionths <= ONE
            && 0 <= self.random_range.hi.billionths && self.random_range.hi.billionths <= ONE
    }
}

impl Default for RegionData {
    fn default() -> (r: Self)
        ensures
            r@ == RegionParams::initial(),
            r@.wf(),
    {
        let r = RegionData {
            key_range: NoteRange::default(),
            vel_range: VelRange::default(),
            ampeg: Generator::default(),
            pitch_keycenter: 60,
            pitch_keytrack: Decimal::new(ONE),
            amp_veltrack: Decimal::new(ONE),
            volume: Decimal::new(0),
            sample: String::new(),
            rt_decay: Decimal::new(0),
            tune: Decimal::new(0),
            trigger: Trigger::default(),
            group: 0,
            off_by: 0,
            on_ccs: [ControlValRange { hi: None, lo: None }; 128],
            random_range: RandomRange::default(),
        };
        assert(r.on_ccs@ =~= RegionParams::initial().on_ccs);
        r
    }
}

impl Clone for RegionData {
    fn clone(&self) -> (r: Self)
        ensures
            r@ == self@,
    {
        RegionData {
            key_range: self.key_range,
            vel_range: self.vel_range,
            ampeg: self.ampeg,
            pitch_keycenter: self.pitch_keycenter,
            pitch_keytrack: self.pitch_keytrack,
            amp_veltrack: self.amp_veltrack,
            volume: self.volume,
            sample: self.sample.clone(),
            rt_decay: self.rt_decay,
            tune: self.tune,
            trigger: self.trigger,
            group: self.group,
            off_by: self.off_by,
            on_ccs: self.on_ccs,
            random_range: self.random_range,
        }
    }
}

/// What the renderer has measured of a region and its sample.
#[derive(Debug)]
pub struct Measures {
    /// The length of the sample in frames.
    pub frames: usize,
    /// For each of the 128 notes, the advance of the read head with each
    /// output frame, in units of position.
    pub pitch_steps: Vec<u64>,
    /// How many leading entries of the release table lie above the
    /// audibility floor.
    pub audible_release_frames: usize,
}

/// A region at work: its parameters, its player, and what it remembers of
/// the events that it has seen.
#[derive(Debug)]
pub struct Region {
    pub params: RegionData,
    pub sample: Sample,
    /// For each note, the advance of the read head with each output frame.
    pub pitch_steps: Vec<u64>,
    /// The note and velocity that a release will sound.
    pub last_note_on: Option<(u8, u8)>,
    /// The notes that have ended while the sustain pedal was down.
    pub notes_for_release_trigger: [bool; 128],
    /// The notes outside the key range that are held.
    pub other_notes_on: [bool; 128],
    /// The frames processed since the region last sounded a note.
    pub time_since_note_on: u64,
    pub sustain_pedal_pushed: bool,
    /// Set for the region that has just fired, so that the group that it
    /// activates does not silence it.
    pub once_immune_against_group_events: bool,
}

/// The mathematical content of a [`Region`].
pub struct RegionState {
    pub params: RegionParams,
    pub sample: SampleState,
    pub pitch_steps: Seq<u64>,
    pub last_note_on: Option<(u8, u8)>,
    /// For each of the 128 notes, whether it waits for the sustain pedal.
    pub pending_release: Seq<bool>,
    /// For each of the 128 notes, whether it is held outside the key range.
    pub other_notes_on: Seq<bool>,
    pub time_since_note_on: u64,
    pub sustain_pedal_pushed: bool,
    pub immune: bool,
}

impl View for Region {
    type V = RegionState;

    open spec fn view(&self) -> RegionState {
        RegionState {
            params: self.params@,
            sample: self.sample@,
            pitch_steps: self.pitch_steps@,
            last_note_on: self.last_note_on,
            pending_release: self.notes_for_release_trigger@,
            other_notes_on: self.other_notes_on@,
            time_since_note_on: self.time_since_note_on,
            sustain_pedal_pushed: self.sustain_pedal_pushed,
            immune: self.once_immune_against_group_events,
        }
    }
}

/// The controller number of the sustain pedal.
pub const SUSTAIN_PEDAL: u8 = 64;

/// No note is marked.
pub open spec fn no_notes() -> Seq<bool> {
    Seq::new(128, |n: int| false)
}

/// A note is marked.
pub open spec fn any_note(notes: Seq<bool>) -> bool {
    exists|n: int| 0 <= n < notes.len() && #[trigger] notes[n]
}

/// The voices of `voices` after the notes marked in `pending` below `upto`
/// have ended.
pub open spec fn after_notes_off(voices: Seq<Voice>, pending: Seq<bool>, upto: int) -> Seq<Voice> {
    Seq::new(
        voices.len(),
        |i: int|
            if voices[i].note < upto && voices[i].note < pending.len() && pending[voices[i].note as int] {
                voices[i].released()
            } else {
                voices[i]
            },
    )
}

impl RegionState {
    /// The parameters lie within their ranges, the player is well-formed,
    /// there is a pitch step and a mark for each of the 128 notes, and the
    /// note that is stored for a release is a note.
    pub open spec fn wf(self) -> bool {
        &&& self.params.wf()
        &&& self.sample.wf()
        &&& self.pitch_steps.len() == 128
        &&& self.pending_release.len() == 128
        &&& self.other_notes_on.len() == 128
        &&& self.last_note_on is Some ==> (self.last_note_on->0).0 <= 127
    }

    /// The region after it has sounded `note` at `velocity`: the player
    /// strikes the note at the pitch step of the note, and the time since
    /// the last sounding note starts anew.  A region triggered by release
    /// hands the time that has passed to the voice.
    pub open spec fn sound(self, note: u8, velocity: u8) -> RegionState {
        let elapsed = if self.params.trigger is Release || self.params.trigger is ReleaseKey {
            self.time_since_note_on
        } else {
            0
        };
        RegionState {
            sample: self.sample.note_on(note, self.pitch_steps[note as int], Strike { velocity, elapsed }),
            time_since_note_on: 0,
            ..self
        }
    }

    /// The region after a note-on, and whether it has sounded.
    ///
    /// Nothing happens where a voice already holds the note.  A note
    /// outside the key range is recorded as held.  A note inside it must
    /// pass the velocity range and the random range; then an attack
    /// region sounds, a release region stores the note for later, a first
    /// region sounds where no other note is held, and a legato region
    /// where one is.
    pub open spec fn on_note_on(self, note: u8, velocity: u8, draw: Decimal) -> (RegionState, bool) {
        if self.sample.playing_note(note) {
            (self, false)
        } else if !self.params.key_range.covers(note) {
            (RegionState { other_notes_on: self.other_notes_on.update(note as int, true), ..self }, false)
        } else if !self.params.vel_range.covers(velocity) {
            (self, false)
        } else if !self.params.random_range.covers(draw) {
            (self, false)
        } else {
            match self.params.trigger {
                Trigger::Release | Trigger::ReleaseKey => (
                    RegionState { last_note_on: Some((note, velocity)), ..self },
                    false,
                ),
                Trigger::First => if any_note(self.other_notes_on) {
                    (self, false)
                } else {
                    (self.sound(note, velocity), true)
                },
                Trigger::Legato => if any_note(self.other_notes_on) {
                    (self.sound(note, velocity), true)
                } else {
                    (self, false)
                },
                Trigger::Attack => (self.sound(note, velocity), true),
            }
        }
    }

    /// The region after a note-off, and whether it has sounded.
    ///
    /// A note outside the key range is no longer held.  A release region
    /// sounds the note that it has stored.  Any other region ends the
    /// note, or where the sustain pedal is down, marks it to end when the
    /// pedal comes up.
    pub open spec fn on_note_off(self, note: u8) -> (RegionState, bool) {
        if !self.params.key_range.covers(note) {
            (RegionState { other_notes_on: self.other_notes_on.update(note as int, false), ..self }, false)
        } else if self.params.trigger is Release || self.params.trigger is ReleaseKey {
            match self.last_note_on {
                Some((stored, velocity)) => (self.sound(stored, velocity), true),
                None => (self, false),
            }
        } else if !self.sustain_pedal_pushed {
            (RegionState { sample: self.sample.note_off(note), ..self }, false)
        } else {
            (RegionState { pending_release: self.pending_release.update(note as int, true), ..self }, false)
        }
    }

    /// The region after the sustain pedal has moved, and whether it has
    /// sounded.
    ///
    /// When the pedal comes up, a region triggered by release sounds the
    /// note that it has stored; any other region ends the notes that were
    /// marked while the pedal was down.
    pub open spec fn on_sustain_pedal(self, pushed: bool) -> (RegionState, bool) {
        let latched = RegionState { sustain_pedal_pushed: pushed, ..self };
        if pushed {
            (latched, false)
        } else if self.params.trigger is Release && self.last_note_on is Some {
            (latched.sound((self.last_note_on->0).0, (self.last_note_on->0).1), true)
        } else {
            (
                RegionState {
                    sample: SampleState {
                        voices: after_notes_off(self.sample.voices, self.pending_release, 128),
                        ..self.sample
                    },
                    pending_release: no_notes(),
                    ..latched
                },
                false,
            )
        }
    }

    /// The region after a controller has changed, and whether it has
    /// sounded.
    ///
    /// Controller 64 is the sustain pedal, down from 64 on.  Apart from
    /// that, a value within the region's range for the controller sounds
    /// the key centre at full velocity.
    pub open spec fn on_control(self, controller: u8, value: u8) -> (RegionState, bool) {
        let (moved, sounded) = if controller == 64 {
            self.on_sustain_pedal(value >= 64)
        } else {
            (self, false)
        };
        if self.params.on_ccs[controller as int].covers(value) {
            (moved.sound(self.params.pitch_keycenter, 127), true)
        } else {
            (moved, sounded)
        }
    }

    /// The region after `event`, and whether the event has made it sound a
    /// note.  A note-on at velocity 0 is a note-off.  An event that is not
    /// well-formed does nothing.  Whatever the event, the immunity against
    /// group events ends.
    pub open spec fn pass_event(self, event: Event, draw: Decimal) -> (RegionState, bool) {
        let fresh = RegionState { immune: false, ..self };
        if !event.wf() {
            (fresh, false)
        } else {
            match event {
                Event::NoteOn(note, velocity) => if velocity == 0 {
                    fresh.on_note_off(note)
                } else {
                    fresh.on_note_on(note, velocity, draw)
                },
                Event::NoteOff(note, _) => fresh.on_note_off(note),
                Event::ControlChange(controller, value) => fresh.on_control(controller, value),
                Event::Other => (fresh, false),
            }
        }
    }

    /// The region after `group` has been activated: every note ends,
    /// where the region belongs to the group or is silenced by it, unless
    /// the region is immune.  Group 0 is no group.
    pub open spec fn group_activated(self, group: u32) -> RegionState {
        if !self.immune && group > 0 && (group == self.params.group || group == self.params.off_by) {
            RegionState { sample: self.sample.all_notes_off(), ..self }
        } else {
            self
        }
    }

    /// The region after a block of `frames` output frames.
    pub open spec fn process(self, frames: usize) -> RegionState {
        RegionState {
            sample: self.sample.process(frames),
            time_since_note_on: if self.time_since_note_on + frames > u64::MAX {
                u64::MAX
            } else {
                (self.time_since_note_on + frames) as u64
            },
            ..self
        }
    }

    /// A region that has seen no event, or `None` where a parameter lies
    /// outside its range, where there is not a pitch step for each of the
    /// 128 notes, where the block length is zero, or where the sample or
    /// a table of the envelope is longer than the machine can address.
    pub open spec fn built(
        params: RegionParams,
        frames: int,
        pitch_steps: Seq<u64>,
        audible_release_frames: usize,
        sample_rate: u32,
        max_block_length: usize,
    ) -> Option<RegionState> {
        if !params.wf() || pitch_steps.len() != 128 {
            None
        } else {
            match ADSREnvelope::laid_out(params.ampeg, sample_rate, max_block_length, audible_release_frames) {
                None => None,
                Some(envelope) => match SampleState::fresh(frames, max_block_length, envelope) {
                    None => None,
                    Some(sample) => Some(
                        RegionState {
                            params,
                            sample,
                            pitch_steps,
                            last_note_on: None,
                            pending_release: no_notes(),
                            other_notes_on: no_notes(),
                            time_since_note_on: 0,
                            sustain_pedal_pushed: false,
                            immune: false,
                        },
                    ),
                },
            }
        }
    }
}

/// A note-on that would make a region sound with some draw makes it sound
/// exactly with the draws inside its random range, where the range has a
/// lower bound below its upper bound.
pub proof fn note_on_sounds_within_random_range(
    region: RegionState,
    note: u8,
    velocity: u8,
    draw: Decimal,
    other: Decimal,
)
    requires
        Event::NoteOn(note, velocity).wf(),
        velocity > 0,
        region.params.random_range.lo.billionths < region.params.random_range.hi.billionths,
        region.pass_event(Event::NoteOn(note, velocity), other).1,
    ensures
        region.pass_event(Event::NoteOn(note, velocity), draw).1 <==> region.params.random_range.lo.billionths
            <= draw.billionths < region.params.random_range.hi.billionths,
{
}

/// A note-on at velocity 0 does what a note-off does, whatever the draw
/// and the velocity of the note-off.
pub proof fn velocity_zero_is_note_off(
    region: RegionState,
    note: u8,
    velocity: u8,
    draw: Decimal,
    other: Decimal,
)
    requires
        note <= 127,
        velocity <= 127,
    ensures
        region.pass_event(Event::NoteOn(note, 0), draw) == region.pass_event(
            Event::NoteOff(note, velocity),
            other,
        ),
{
}

/// A region whose key range is disabled sounds on changes of controllers
/// only, and events of notes leave its player as it is.
pub proof fn disabled_key_range_never_sounds(region: RegionState, event: Event, draw: Decimal)
    requires
        region.params.key_range.lo is None || region.params.key_range.hi is None,
    ensures
        region.pass_event(event, draw).1 ==> event is ControlChange,
        event is NoteOn || event is NoteOff ==> region.pass_event(event, draw).0.sample == region.sample,
{
}

/// Each step of a region keeps it well-formed.
pub proof fn pass_event_wf(region: RegionState, event: Event, draw: Decimal)
    requires
        region.wf(),
    ensures
        region.pass_event(event, draw).0.wf(),
{
    let fresh = RegionState { immune: false, ..region };
    assert(fresh.wf());
    if event.wf() {
        match event {
            Event::NoteOn(note, velocity) => {
                if velocity == 0 {
                    note_off_wf(fresh, note);
                } else {
                    sound_wf(fresh, note, velocity);
                }
            },
            Event::NoteOff(note, _) => {
                note_off_wf(fresh, note);
            },
            Event::ControlChange(controller, value) => {
                let (moved, sounded) = if controller == 64 {
                    fresh.on_sustain_pedal(value >= 64)
                } else {
                    (fresh, false)
                };
                if controller == 64 {
                    sustain_pedal_wf(fresh, value >= 64);
                }
                sound_wf(moved, fresh.params.pitch_keycenter, 127);
            },
            Event::Other => {},
        }
    }
}

proof fn released_keeps_table(voices: Seq<Voice>, envelope: ADSREnvelope, i: int)
    requires
        envelope.wf(),
        0 <= i < voices.len(),
        voices[i].envelope_state.active(),
        envelope.in_table(voices[i].envelope_state),
    ensures
        voices[i].released().envelope_state.active(),
        envelope.in_table(voices[i].released().envelope_state),
{
}

proof fn sound_wf(region: RegionState, note: u8, velocity: u8)
    requires
        region.wf(),
    ensures
        region.sound(note, velocity).wf(),
{
    let after = region.sound(note, velocity);
    let before = region.sample.voices;
    assert forall|i: int| 0 <= i < after.sample.voices.len() implies {
        &&& (#[trigger] after.sample.voices[i]).envelope_state.active()
        &&& after.sample.envelope.in_table(after.sample.voices[i].envelope_state)
    } by {
        if i < before.len() {
            released_keeps_table(before, region.sample.envelope, i);
        }
    }
}

proof fn note_off_wf(region: RegionState, note: u8)
    requires
        region.wf(),
        note <= 127,
    ensures
        region.on_note_off(note).0.wf(),
{
    let after = region.on_note_off(note).0;
    if region.params.key_range.covers(note) {
        if region.params.trigger is Release || region.params.trigger is ReleaseKey {
            if let Some((stored, velocity)) = region.last_note_on {
                sound_wf(region, stored, velocity);
            }
        } else if !region.sustain_pedal_pushed {
            let before = region.sample.voices;
            assert forall|i: int| 0 <= i < after.sample.voices.len() implies {
                &&& (#[trigger] after.sample.voices[i]).envelope_state.active()
                &&& after.sample.envelope.in_table(after.sample.voices[i].envelope_state)
            } by {
                released_keeps_table(before, region.sample.envelope, i);
            }
        }
    }
}

proof fn sustain_pedal_wf(region: RegionState, pushed: bool)
    requires
        region.wf(),
    ensures
        region.on_sustain_pedal(pushed).0.wf(),
{
    let after = region.on_sustain_pedal(pushed).0;
    let latched = RegionState { sustain_pedal_pushed: pushed, ..region };
    if !pushed {
        if region.params.trigger is Release && region.last_note_on is Some {
            sound_wf(latched, (region.last_note_on->0).0, (region.last_note_on->0).1);
        } else {
            let before = region.sample.voices;
            assert forall|i: int| 0 <= i < after.sample.voices.len() implies {
                &&& (#[trigger] after.sample.voices[i]).envelope_state.active()
                &&& after.sample.envelope.in_table(after.sample.voices[i].envelope_state)
            } by {
                released_keeps_table(before, region.sample.envelope, i);
            }
        }
    }
}

impl Region {
    /// A region that has seen no event.
    pub fn new(params: RegionData, measures: Measures, sample_rate: u32, max_block_length: usize) -> (r:
        Option<Region>)
        ensures
            match RegionState::built(
                params@,
                measures.frames as int,
                measures.pitch_steps@,
                measures.audible_release_frames,
                sample_rate,
                max_block_length,
            ) {
                Some(s) => r is Some && r->0@ == s && s.wf(),
                None => r is None,
            },
    {
        if !params.is_wf() || measures.pitch_steps.len() != 128 {
            return None;
        }
        let envelope = match ADSREnvelope::new(
            &params.ampeg,
            sample_rate,
            max_block_length,
            measures.audible_release_frames,
        ) {
            Some(e) => e,
            None => {
                return None;
            },
        };
        let sample = match Sample::new(measures.frames, max_block_length, envelope) {
            Some(s) => s,
            None => {
                return None;
            },
        };
        let region = Region {
            params,
            sample,
            pitch_steps: measures.pitch_steps,
            last_note_on: None,
            notes_for_release_trigger: [false;128],
            other_notes_on: [false;128],
            time_since_note_on: 0,
            sustain_pedal_pushed: false,
            once_immune_against_group_events: false,
        };
        assert(region@.pending_release =~= no_notes());
        assert(region@.other_notes_on =~= no_notes());
        Some(region)
    }

    /// Whether the region is well-formed.
    pub fn is_wf(&self) -> (r: bool)
        ensures
            r == self@.wf(),
    {
        let stored = match self.last_note_on {
            Some((note, _)) => note <= 127,
            None => true,
        };
        stored && self.pitch_steps.len() == 128 && self.params.is_wf() && self.sample.is_wf()
    }

    /// Plays a block of `frames` output frames: the time since the last
    /// note goes on, and the player plays the block.  The voices to render
    /// are those that the player keeps as rendered.
    pub fn process(&mut self, frames: usize)
        requires
            old(self)@.wf(),
            frames <= old(self).sample.max_block_length,
        ensures
            final(self)@ == old(self)@.process(frames),
            final(self)@.wf(),
            forall|i: int|
                0 <= i < final(self).sample.voices.len() ==> (
                #[trigger] final(self).sample.voices@[i]).survives(final(self).sample.frames as int),
    {
        self.time_since_note_on = if frames as u64 > u64::MAX - self.time_since_note_on {
            u64::MAX
        } else {
            self.time_since_note_on + frames as u64
        };
        self.sample.process(frames);
    }

    /// Whether a voice plays `note`, in its release or not.
    pub fn is_playing_note(&self, note: u8) -> (r: bool)
        ensures
            r == self@.sample.sounding_note(note),
    {
        self.sample.is_sounding_note(note)
    }

    /// Whether a voice sounds.
    pub fn is_playing(&self) -> (r: bool)
        ensures
            r == self@.sample.playing(),
    {
        self.sample.is_playing()
    }

    /// Sounds `note` at `velocity`.
    pub fn note_on(&mut self, note: u8, velocity: u8)
        requires
            old(self)@.wf(),
            note <= 127,
        ensures
            final(self)@ == old(self)@.sound(note, velocity),
            final(self)@.wf(),
    {
        let elapsed = match self.params.trigger {
            Trigger::Release | Trigger::ReleaseKey => self.time_since_note_on,
            _ => 0,
        };
        proof {
            sound_wf(self@, note, velocity);
        }
        self.time_since_note_on = 0;
        let step = self.pitch_steps[note as usize];
        self.sample.note_on(note, step, Strike { velocity, elapsed });
    }

    /// Ends `note`.
    pub fn note_off(&mut self, note: u8)
        requires
            old(self)@.wf(),
        ensures
            final(self)@ == (RegionState { sample: old(self)@.sample.note_off(note), ..old(self)@ }),
            final(self)@.wf(),
    {
        self.sample.note_off(note);
    }

    fn any_other_note(&self) -> (r: bool)
        ensures
            r == any_note(self@.other_notes_on),
    {
        let mut n: usize = 0;
        while n < 128
            invariant
                n <= 128,
                forall|k: int| 0 <= k < n ==> !#[trigger] self.other_notes_on@[k],
            decreases 128 - n,
        {
            if self.other_notes_on[n] {
                return true;
            }
            n += 1;
        }
        false
    }

    fn release_pending(&mut self)
        requires
            old(self)@.wf(),
        ensures
            final(self)@ == (RegionState {
                sample: SampleState {
                    voices: after_notes_off(old(self)@.sample.voices, old(self)@.pending_release, 128),
                    ..old(self)@.sample
                },
                pending_release: no_notes(),
                ..old(self)@
            }),
            final(self)@.wf(),
    {
        let mut n: usize = 0;
        assert(self.sample@.voices =~= after_notes_off(old(self)@.sample.voices, old(self)@.pending_release, 0));
        while n < 128
            invariant
                n <= 128,
                self@.wf(),
                self@ == (RegionState {
                    sample: SampleState {
                        voices: after_notes_off(
                            old(self)@.sample.voices,
                            old(self)@.pending_release,
                            n as int,
                        ),
                        ..old(self)@.sample
                    },
                    ..old(self)@
                }),
            decreases 128 - n,
        {
            let ghost before = self.sample@.voices;
            if self.notes_for_release_trigger[n] {
                self.sample.note_off(n as u8);
                assert(self.sample@.voices =~= after_notes_off(
                    old(self)@.sample.voices,
                    old(self)@.pending_release,
                    n + 1,
                ));
            } else {
                assert(before =~= after_notes_off(
                    old(self)@.sample.voices,
                    old(self)@.pending_release,
                    n + 1,
                ));
            }
            n += 1;
        }
        self.notes_for_release_trigger = [false;128];
        assert(self@.pending_release =~= no_notes());
    }

    /// Moves the sustain pedal.  Returns whether the region has sounded a
    /// note.
    pub fn sustain_pedal(&mut self, pushed: bool) -> (r: bool)
        requires
            old(self)@.wf(),
        ensures
            (final(self)@, r) == old(self)@.on_sustain_pedal(pushed),
            final(self)@.wf(),
    {
        proof {
            sustain_pedal_wf(self@, pushed);
        }
        self.sustain_pedal_pushed = pushed;
        if pushed {
            return false;
        }
        match (self.params.trigger, self.last_note_on) {
            (Trigger::Release, Some((note, velocity))) => {
                self.note_on(note, velocity);
                true
            },
            _ => {
                self.release_pending();
                false
            },
        }
    }

    /// Takes a note-on.  Returns whether the region has sounded the note.
    pub fn handle_note_on(&mut self, note: u8, velocity: u8, draw: Decimal) -> (r: bool)
        requires
            old(self)@.wf(),
            note <= 127,
        ensures
            (final(self)@, r) == old(self)@.on_note_on(note, velocity, draw),
            final(self)@.wf(),
    {
        if self.sample.is_playing_note(note) {
            return false;
        }
        if !self.params.key_range.covering(note) {
            self.other_notes_on[note as usize] = true;
            assert(self@.other_notes_on =~= old(self)@.other_notes_on.update(note as int, true));
            return false;
        }
        if !self.params.vel_range.covering(velocity) {
            return false;
        }
        if !self.params.random_range.covering(draw) {
            return false;
        }
        match self.params.trigger {
            Trigger::Release | Trigger::ReleaseKey => {
                self.last_note_on = Some((note, velocity));
                return false;
            },
            Trigger::First => {
                if self.any_other_note() {
                    return false;
                }
            },
            Trigger::Legato => {
                if !self.any_other_note() {
                    return false;
                }
            },
            Trigger::Attack => {},
        }
        self.note_on(note, velocity);
        true
    }

    /// Takes a note-off.  Returns whether the region has sounded a note.
    pub fn handle_note_off(&mut self, note: u8) -> (r: bool)
        requires
            old(self)@.wf(),
            note <= 127,
        ensures
            (final(self)@, r) == old(self)@.on_note_off(note),
            final(self)@.wf(),
    {
        if !self.params.key_range.covering(note) {
            self.other_notes_on[note as usize] = false;
            assert(self@.other_notes_on =~= old(self)@.other_notes_on.update(note as int, false));
            return false;
        }
        match self.params.trigger {
            Trigger::Release | Trigger::ReleaseKey => {
                match self.last_note_on {
                    Some((stored, velocity)) => {
                        self.note_on(stored, velocity);
                        true
                    },
                    None => false,
                }
            },
            _ => {
                if !self.sustain_pedal_pushed {
                    self.note_off(note);
                } else {
                    self.notes_for_release_trigger[note as usize] = true;
                    assert(self@.pending_release =~= old(self)@.pending_release.update(note as int, true));
                }
                false
            },
        }
    }

    /// Takes a change of a controller.  Returns whether the region has
    /// sounded a note.
    pub fn handle_control_event(&mut self, control_number: u8, control_value: u8) -> (r: bool)
        requires
            old(self)@.wf(),
            control_number <= 127,
        ensures
            (final(self)@, r) == old(self)@.on_control(control_number, control_value),
            final(self)@.wf(),
    {
        let sounded = if control_number == SUSTAIN_PEDAL {
            self.sustain_pedal(control_value >= 64)
        } else {
            false
        };
        if self.params.on_ccs[control_number as usize].covering(control_value) {
            let center = self.params.pitch_keycenter;
            self.note_on(center, 127);
            true
        } else {
            sounded
        }
    }

    /// Takes an event, with the random draw that goes with it.  Returns
    /// whether the event has made the region sound a note.
    pub fn pass_event(&mut self, event: Event, random_value: Decimal) -> (r: bool)
        requires
            old(self)@.wf(),
        ensures
            (final(self)@, r) == old(self)@.pass_event(event, random_value),
            final(self)@.wf(),
    {
        self.once_immune_against_group_events = false;
        if !event.is_wf() {
            return false;
        }
        match event {
            Event::NoteOn(note, velocity) => {
                if velocity == 0 {
                    self.handle_note_off(note)
                } else {
                    self.handle_note_on(note, velocity, random_value)
                }
            },
            Event::NoteOff(note, _) => self.handle_note_off(note),
            Event::ControlChange(controller, value) => self.handle_control_event(controller, value),
            Event::Other => false,
        }
    }

    /// Takes a MIDI message, with the random draw that goes with it.
    /// Returns whether the message has made the region sound a note.  The
    /// message is taken as the event that it names.
    pub fn pass_midi_msg(&mut self, midi_msg: &wmidi::MidiMessage, random_value: Decimal) -> (r: bool)
        requires
            old(self)@.wf(),
        ensures
            (final(self)@, r) == old(self)@.pass_event(event_named(*midi_msg), random_value),
            final(self)@.wf(),
    {
        let event = event_of(midi_msg);
        self.pass_event(event, random_value)
    }

    /// The group of the region.  The region that is asked for its group
    /// has just fired: it becomes immune against the group events of this
    /// event.
    pub fn group(&mut self) -> (g: u32)
        ensures
            g == old(self)@.params.group,
            final(self)@ == (RegionState { immune: true, ..old(self)@ }),
    {
        self.once_immune_against_group_events = true;
        self.params.group
    }

    /// The group that silences the region.
    pub fn off_by(&self) -> (g: u32)
        ensures
            g == self@.params.off_by,
    {
        self.params.off_by
    }

    /// Takes the activation of `group`.
    pub fn group_activated(&mut self, group: u32)
        requires
            old(self)@.wf(),
        ensures
            final(self)@ == old(self)@.group_activated(group),
            final(self)@.wf(),
    {
        if self.once_immune_against_group_events {
            return ;
        }
        if group > 0 && (group == self.params.group || group == self.params.off_by) {
            self.sample.all_notes_off();
        }
    }
}

/// Why an engine could not be made.
#[derive(Debug)]
pub enum EngineError {
    /// The instrument description could not be read.
    ParserError(ParserError),
    /// A sample file could not be opened; what the decoder said.
    SndFileError(String),
    /// The instrument description could not be loaded.
    IOError(std::io::Error),
    /// A sample file could not be decoded; the path of the file.
    UnspecifiedSndFileError(String),
    /// A region could not be built from its parameters and sample; the
    /// index of the region.
    RegionError(usize),
}

/// std's `io::Error`.  Trusted: the verifier knows the type by name only,
/// and sees nothing inside an error.
#[verifier::external_type_specification]
#[verifier::external_body]
pub struct ExIoError(std::io::Error);

/// The text of an error of input or output.
///
/// Formats std's `io::Error` with its `Display` impl.  Trusted; nothing
/// is claimed of the text.
#[verifier::external_body]
fn io_error_text(e: &std::io::Error) -> (s: String) {
    format!("{}", e)
}

/// The text that introduces the path of a sample that could not be decoded.
pub open spec fn unspecified_prefix() -> Seq<char> {
    "Unspecified error from sndfile while reading "@
}

/// The text that introduces the index of a region that could not be built.
pub open spec fn region_prefix() -> Seq<char> {
    "Parameters or sample out of bounds in region "@
}

impl EngineError {
    /// The text shown to the user.  For an error that comes from outside
    /// the library, the text is what the outside gives.
    pub fn message(&self) -> (s: String)
        ensures
            match self {
                EngineError::ParserError(e) => s@ == failure_text(e@),
                EngineError::SndFileError(said) => s@ == said@,
                EngineError::UnspecifiedSndFileError(path) => s@ == unspecified_prefix() + path@,
                EngineError::RegionError(index) => s@ == region_prefix() + nat_text(*index as nat),
                _ => true,
            },
    {
        match self {
            EngineError::ParserError(e) => e.message(),
            EngineError::SndFileError(said) => said.clone(),
            EngineError::IOError(e) => io_error_text(e),
            EngineError::UnspecifiedSndFileError(path) => {
                let mut s = String::new();
                push_str(&mut s, "Unspecified error from sndfile while reading ");
                push_str(&mut s, path.as_str());
                s
            },
            EngineError::RegionError(index) => {
                let mut s = String::new();
                push_str(&mut s, "Parameters or sample out of bounds in region ");
                push_nat(&mut s, *index as u64);
                s
            },
        }
    }
}

/// A set of regions that are played together.
#[derive(Debug)]
pub struct Engine {
    pub regions: Vec<Region>,
    /// The largest block that will ever be processed.
    pub max_block_length: usize,
    /// The groups that the last event has activated.
    pub activated_groups: Vec<u32>,
}

/// The mathematical content of an [`Engine`].
pub struct EngineState {
    pub regions: Seq<RegionState>,
    pub max_block_length: usize,
    pub activated_groups: Seq<u32>,
}

impl View for Engine {
    type V = EngineState;

    open spec fn view(&self) -> EngineState {
        EngineState {
            regions: Seq::new(self.regions@.len(), |i: int| self.regions@[i]@),
            max_block_length: self.max_block_length,
            activated_groups: self.activated_groups@,
        }
    }
}

/// The region that is built from a pair of parameters and measures.
pub open spec fn built_from(pair: (RegionData, Measures), sample_rate: u32, max_block_length: usize) -> Option<
    RegionState,
> {
    RegionState::built(
        pair.0@,
        pair.1.frames as int,
        pair.1.pitch_steps@,
        pair.1.audible_release_frames,
        sample_rate,
        max_block_length,
    )
}

/// The regions after each has taken `event` with the draw `draw`, in
/// order, and the groups that this has activated: the group of each region
/// that has sounded a note and belongs to a group, in the order of the
/// regions.  A region that has sounded is immune against the groups.
pub open spec fn fan_out(regions: Seq<RegionState>, event: Event, draw: Decimal) -> (
    Seq<RegionState>,
    Seq<u32>,
)
    decreases regions.len(),
{
    if regions.len() == 0 {
        (Seq::empty(), Seq::empty())
    } else {
        let (rest, groups) = fan_out(regions.drop_last(), event, draw);
        let (region, fired) = regions.last().pass_event(event, draw);
        if fired {
            (
                rest.push(RegionState { immune: true, ..region }),
                if region.params.group > 0 {
                    groups.push(region.params.group)
                } else {
                    groups
                },
            )
        } else {
            (rest.push(region), groups)
        }
    }
}

/// The regions after each has taken the activation of `group`.
pub open spec fn activated(regions: Seq<RegionState>, group: u32) -> Seq<RegionState> {
    Seq::new(regions.len(), |i: int| regions[i].group_activated(group))
}

/// The regions after each has taken the activation of every group of
/// `groups`, one group after the other.
pub open spec fn activated_all(regions: Seq<RegionState>, groups: Seq<u32>) -> Seq<RegionState>
    decreases groups.len(),
{
    if groups.len() == 0 {
        regions
    } else {
        activated(activated_all(regions, groups.drop_last()), groups.last())
    }
}

/// To activate a group twice is to activate it once, and two groups may be
/// activated in either order: the list of the groups of an event may hold
/// a group more than once, and in any order.
pub proof fn group_activation_is_idempotent_and_commutes(regions: Seq<RegionState>, a: u32, b: u32)
    ensures
        activated(activated(regions, a), a) == activated(regions, a),
        activated(activated(regions, a), b) == activated(activated(regions, b), a),
{
    assert forall|i: int| 0 <= i < regions.len() implies regions[i].group_activated(a).group_activated(a)
        == regions[i].group_activated(a) && regions[i].group_activated(a).group_activated(b)
        == regions[i].group_activated(b).group_activated(a) by {
        let voices = regions[i].sample.voices;
        assert(after_all_notes_off(after_all_notes_off(voices)) =~= after_all_notes_off(voices));
    }
    assert(activated(activated(regions, a), a) =~= activated(regions, a));
    assert(activated(activated(regions, a), b) =~= activated(activated(regions, b), a));
}

/// How many regions sound a note on `event` and belong to a group.
pub open spec fn fired_in_groups(regions: Seq<RegionState>, event: Event, draw: Decimal) -> nat
    decreases regions.len(),
{
    if regions.len() == 0 {
        0
    } else {
        let (region, fired) = regions.last().pass_event(event, draw);
        fired_in_groups(regions.drop_last(), event, draw) + if fired && region.params.group > 0 {
            1nat
        } else {
            0nat
        }
    }
}

impl EngineState {
    /// Every region is well-formed and laid out for the engine's block
    /// length.
    pub open spec fn wf(self) -> bool {
        forall|i: int|
            0 <= i < self.regions.len() ==> (#[trigger] self.regions[i]).wf()
                && self.regions[i].sample.max_block_length == self.max_block_length
    }

    /// The engine after `event`.  First every region takes the event; then
    /// every region takes the activation of each group that the event has
    /// activated.
    pub open spec fn event(self, event: Event, draw: Decimal) -> EngineState {
        let (regions, groups) = fan_out(self.regions, event, draw);
        EngineState { regions: activated_all(regions, groups), activated_groups: groups, ..self }
    }

    /// The engine after a block of `frames` output frames.
    pub open spec fn process(self, frames: usize) -> EngineState {
        EngineState {
            regions: Seq::new(self.regions.len(), |i: int| self.regions[i].process(frames)),
            ..self
        }
    }

    /// The engine after every note of every region has ended.
    pub open spec fn fade_out(self) -> EngineState {
        EngineState {
            regions: Seq::new(
                self.regions.len(),
                |i: int| RegionState { sample: self.regions[i].sample.all_notes_off(), ..self.regions[i] },
            ),
            ..self
        }
    }

    /// No voice sounds.
    pub open spec fn silent(self) -> bool {
        forall|i: int| 0 <= i < self.regions.len() ==> !(#[trigger] self.regions[i]).sample.playing()
    }
}

/// The fan-out keeps the number of regions and their well-formedness, and
/// leaves the block lengths as they are.
pub proof fn fan_out_wf(regions: Seq<RegionState>, event: Event, draw: Decimal)
    requires
        forall|i: int| 0 <= i < regions.len() ==> (#[trigger] regions[i]).wf(),
    ensures
        fan_out(regions, event, draw).0.len() == regions.len(),
        forall|i: int|
            0 <= i < regions.len() ==> (#[trigger] fan_out(regions, event, draw).0[i]).wf() && fan_out(
                regions,
                event,
                draw,
            ).0[i].sample.max_block_length == regions[i].sample.max_block_length,
    decreases regions.len(),
{
    if regions.len() > 0 {
        fan_out_wf(regions.drop_last(), event, draw);
        pass_event_wf(regions.last(), event, draw);
        pass_event_block(regions.last(), event, draw);
        assert forall|i: int| 0 <= i < regions.len() implies (#[trigger] fan_out(regions, event, draw).0[i]).wf()
            && fan_out(regions, event, draw).0[i].sample.max_block_length
            == regions[i].sample.max_block_length by {
            if i < regions.len() - 1 {
                assert(regions.drop_last()[i] == regions[i]);
            }
        }
    }
}

/// An event leaves the layout of a region's player as it is.
pub proof fn pass_event_block(region: RegionState, event: Event, draw: Decimal)
    ensures
        region.pass_event(event, draw).0.sample.max_block_length == region.sample.max_block_length,
        region.pass_event(event, draw).0.sample.envelope == region.sample.envelope,
        region.pass_event(event, draw).0.sample.frames == region.sample.frames,
        region.pass_event(event, draw).0.params == region.params,
{
}

/// The engine after blocks of the lengths `sizes`, one after the other.
pub open spec fn processed(engine: EngineState, sizes: Seq<usize>) -> EngineState
    decreases sizes.len(),
{
    if sizes.len() == 0 {
        engine
    } else {
        processed(engine, sizes.drop_last()).process(sizes.last())
    }
}

/// Blocks leave the layout of every region as it is, and move its voices
/// block by block.
pub proof fn processed_regions(engine: EngineState, sizes: Seq<usize>)
    ensures
        processed(engine, sizes).max_block_length == engine.max_block_length,
        processed(engine, sizes).regions.len() == engine.regions.len(),
        forall|i: int|
            0 <= i < engine.regions.len() ==> {
                let before = (#[trigger] engine.regions[i]).sample;
                let after = processed(engine, sizes).regions[i].sample;
                &&& after.envelope == before.envelope
                &&& after.frames == before.frames
                &&& after.max_block_length == before.max_block_length
                &&& after.voices == after_blocks(before.voices, before.envelope, before.frames, sizes)
            },
    decreases sizes.len(),
{
    if sizes.len() > 0 {
        processed_regions(engine, sizes.drop_last());
    }
}

/// Every voice of the engine is in its release.
pub open spec fn all_released(engine: EngineState) -> bool {
    forall|i: int, k: int|
        0 <= i < engine.regions.len() && 0 <= k < engine.regions[i].sample.voices.len() ==> (
        #[trigger] engine.regions[i].sample.voices[k]).envelope_state.releasing()
}

/// The joint length of the blocks is that of the release table of every
/// region, and no block is longer than the largest block.
pub open spec fn blocks_cover_release(engine: EngineState, sizes: Seq<usize>) -> bool {
    &&& blocks_fit(sizes, engine.max_block_length)
    &&& forall|i: int|
        0 <= i < engine.regions.len() ==> total_frames(sizes) >= (
        #[trigger] engine.regions[i]).sample.envelope.release_frames
}

/// An engine whose voices are all in their release is silent after blocks
/// of any lengths whose joint length is that of the longest release table.
pub proof fn released_engine_ends(engine: EngineState, sizes: Seq<usize>)
    requires
        engine.wf(),
        all_released(engine),
        blocks_cover_release(engine, sizes),
    ensures
        processed(engine, sizes).silent(),
{
    processed_regions(engine, sizes);
    assert forall|i: int| 0 <= i < engine.regions.len() implies !(#[trigger] processed(
        engine,
        sizes,
    ).regions[i]).sample.playing() by {
        let sample = engine.regions[i].sample;
        assert(engine.regions[i].wf());
        assert forall|k: int| 0 <= k < sample.voices.len() implies (
        #[trigger] sample.voices[k]).envelope_state.releasing() && sample.envelope.in_table(
            sample.voices[k].envelope_state,
        ) by {
            assert(engine.regions[i].sample.voices[k].envelope_state.releasing());
        }
        release_runs_out(sample.voices, sample.envelope, sample.frames, sizes);
    }
}

/// Once every note has ended, the engine is silent after blocks of any
/// lengths whose joint length is that of the longest release table.
pub proof fn fade_out_ends(engine: EngineState, sizes: Seq<usize>)
    requires
        engine.wf(),
        blocks_cover_release(engine, sizes),
    ensures
        processed(engine.fade_out(), sizes).silent(),
{
    let faded = engine.fade_out();
    assert forall|i: int| 0 <= i < faded.regions.len() implies (#[trigger] faded.regions[i]).wf()
        && faded.regions[i].sample.max_block_length == faded.max_block_length && total_frames(sizes)
        >= faded.regions[i].sample.envelope.release_frames by {
        let region = engine.regions[i];
        assert(region.wf());
        all_notes_off_releases(region.sample.voices, region.sample.envelope);
    }
    assert forall|i: int, k: int|
        0 <= i < faded.regions.len() && 0 <= k < faded.regions[i].sample.voices.len() implies (
    #[trigger] faded.regions[i].sample.voices[k]).envelope_state.releasing() by {
        let region = engine.regions[i];
        assert(region.wf());
        all_notes_off_releases(region.sample.voices, region.sample.envelope);
    }
    released_engine_ends(faded, sizes);
}

/// What the fan-out of an event makes of one region: the region after the
/// event, immune against the groups where it has sounded.
pub open spec fn stepped(region: RegionState, event: Event, draw: Decimal) -> RegionState {
    let (after, fired) = region.pass_event(event, draw);
    if fired {
        RegionState { immune: true, ..after }
    } else {
        after
    }
}

/// The fan-out steps every region on its own.
pub proof fn fan_out_each(regions: Seq<RegionState>, event: Event, draw: Decimal)
    ensures
        fan_out(regions, event, draw).0.len() == regions.len(),
        forall|i: int|
            0 <= i < regions.len() ==> fan_out(regions, event, draw).0[i] == stepped(
                #[trigger] regions[i],
                event,
                draw,
            ),
    decreases regions.len(),
{
    if regions.len() > 0 {
        fan_out_each(regions.drop_last(), event, draw);
        assert forall|i: int| 0 <= i < regions.len() implies fan_out(regions, event, draw).0[i] == stepped(
            #[trigger] regions[i],
            event,
            draw,
        ) by {
            if i < regions.len() - 1 {
                assert(regions.drop_last()[i] == regions[i]);
            }
        }
    }
}

/// The activation of groups leaves a region as it is or ends its notes.
pub proof fn activated_all_each(regions: Seq<RegionState>, groups: Seq<u32>)
    ensures
        activated_all(regions, groups).len() == regions.len(),
        forall|i: int|
            0 <= i < regions.len() ==> {
                let after = activated_all(regions, groups)[i];
                let before = #[trigger] regions[i];
                after == before || after == (RegionState { sample: before.sample.all_notes_off(), ..before })
            },
    decreases groups.len(),
{
    if groups.len() > 0 {
        activated_all_each(regions, groups.drop_last());
        let earlier = activated_all(regions, groups.drop_last());
        assert forall|i: int| 0 <= i < regions.len() implies {
            let after = activated_all(regions, groups)[i];
            let before = #[trigger] regions[i];
            after == before || after == (RegionState { sample: before.sample.all_notes_off(), ..before })
        } by {
            let voices = regions[i].sample.voices;
            assert(after_all_notes_off(after_all_notes_off(voices)) =~= after_all_notes_off(voices));
            assert(activated_all(regions, groups)[i] == earlier[i].group_activated(groups.last()));
        }
    }
}

/// The region sounds on a note-on and ends the note on its note-off: its
/// trigger is attack, first or legato, and the sustain pedal is up.
pub open spec fn plays_while_held(region: RegionState) -> bool {
    !(region.params.trigger is Release) && !(region.params.trigger is ReleaseKey)
        && !region.sustain_pedal_pushed
}

/// The region holds no voice but of `note`, and none at all where its key
/// range does not cover the note.
pub open spec fn holds_only(region: RegionState, note: u8) -> bool {
    &&& region.wf()
    &&& plays_while_held(region)
    &&& forall|k: int| 0 <= k < region.sample.voices.len() ==> (#[trigger] region.sample.voices[k]).note == note
    &&& region.params.key_range.covers(note) || region.sample.voices.len() == 0
}

/// Two regions are laid out alike.
pub open spec fn same_layout(a: RegionState, b: RegionState) -> bool {
    &&& a.sample.envelope == b.sample.envelope
    &&& a.sample.frames == b.sample.frames
    &&& a.sample.max_block_length == b.sample.max_block_length
}

proof fn note_on_step(region: RegionState, note: u8, velocity: u8, draw: Decimal)
    requires
        region.wf(),
        plays_while_held(region),
        region.sample.voices.len() == 0,
        note <= 127,
        velocity <= 127,
    ensures
        holds_only(stepped(region, Event::NoteOn(note, velocity), draw), note),
        same_layout(stepped(region, Event::NoteOn(note, velocity), draw), region),
{
    let event = Event::NoteOn(note, velocity);
    pass_event_wf(region, event, draw);
    pass_event_block(region, event, draw);
    let fresh = RegionState { immune: false, ..region };
    assert(!fresh.sample.playing_note(note));
    assert(after_note_off(fresh.sample.voices, note) =~= Seq::<Voice>::empty());
}

proof fn note_off_step(region: RegionState, note: u8, velocity: u8, draw: Decimal)
    requires
        holds_only(region, note),
        note <= 127,
        velocity <= 127,
    ensures
        stepped(region, Event::NoteOff(note, velocity), draw).wf(),
        same_layout(stepped(region, Event::NoteOff(note, velocity), draw), region),
        forall|k: int|
            0 <= k < stepped(region, Event::NoteOff(note, velocity), draw).sample.voices.len() ==> (
            #[trigger] stepped(
                region,
                Event::NoteOff(note, velocity),
                draw,
            ).sample.voices[k]).envelope_state.releasing(),
{
    let event = Event::NoteOff(note, velocity);
    pass_event_wf(region, event, draw);
    pass_event_block(region, event, draw);
    let after = stepped(region, event, draw);
    assert forall|k: int| 0 <= k < after.sample.voices.len() implies (
    #[trigger] after.sample.voices[k]).envelope_state.releasing() by {
        assert(region.sample.voices[k].note == note);
    }
}

proof fn ended_notes_keep(region: RegionState, note: u8)
    requires
        region.wf(),
    ensures
        (RegionState { sample: region.sample.all_notes_off(), ..region }).wf(),
        holds_only(region, note) ==> holds_only(
            RegionState { sample: region.sample.all_notes_off(), ..region },
            note,
        ),
        (forall|k: int|
            0 <= k < region.sample.voices.len() ==> (
            #[trigger] region.sample.voices[k]).envelope_state.releasing()) ==> region.sample.all_notes_off()
            == region.sample,
{
    let ended = RegionState { sample: region.sample.all_notes_off(), ..region };
    all_notes_off_releases(region.sample.voices, region.sample.envelope);
    if holds_only(region, note) {
        assert forall|k: int| 0 <= k < ended.sample.voices.len() implies (#[trigger] ended.sample.voices[k]).note
            == note by {
            assert(region.sample.voices[k].note == note);
        }
    }
    if forall|k: int|
        0 <= k < region.sample.voices.len() ==> (#[trigger] region.sample.voices[k]).envelope_state.releasing() {
        assert(after_all_notes_off(region.sample.voices) =~= region.sample.voices);
    }
}

/// A note that is struck and ended, with no block and no other event in
/// between, leaves the engine silent after blocks of any lengths whose
/// joint length is that of the longest release table.  This holds of an
/// engine that is silent before, whose regions sound on a note-on and whose
/// sustain pedal is up.
pub proof fn note_on_then_note_off_ends(
    engine: EngineState,
    note: u8,
    velocity: u8,
    off_velocity: u8,
    draw: Decimal,
    other: Decimal,
    sizes: Seq<usize>,
)
    requires
        engine.wf(),
        engine.silent(),
        forall|i: int| 0 <= i < engine.regions.len() ==> plays_while_held(#[trigger] engine.regions[i]),
        note <= 127,
        velocity <= 127,
        off_velocity <= 127,
        blocks_cover_release(engine, sizes),
    ensures
        processed(
            engine.event(Event::NoteOn(note, velocity), draw).event(Event::NoteOff(note, off_velocity), other),
            sizes,
        ).silent(),
{
    let on = Event::NoteOn(note, velocity);
    let off = Event::NoteOff(note, off_velocity);
    let count = engine.regions.len();

    let struck = fan_out(engine.regions, on, draw);
    let one = engine.event(on, draw);
    fan_out_each(engine.regions, on, draw);
    activated_all_each(struck.0, struck.1);
    assert forall|i: int| 0 <= i < count implies holds_only(#[trigger] one.regions[i], note) && same_layout(
        one.regions[i],
        engine.regions[i],
    ) by {
        let before = engine.regions[i];
        assert(before.wf());
        assert(!before.sample.playing());
        note_on_step(before, note, velocity, draw);
        assert(struck.0[i] == stepped(before, on, draw));
        ended_notes_keep(struck.0[i], note);
    }

    let ended = fan_out(one.regions, off, other);
    let two = one.event(off, other);
    fan_out_each(one.regions, off, other);
    activated_all_each(ended.0, ended.1);
    assert forall|i: int| 0 <= i < count implies (#[trigger] two.regions[i]).wf() && same_layout(
        two.regions[i],
        engine.regions[i],
    ) && (forall|k: int|
        0 <= k < two.regions[i].sample.voices.len() ==> (
        #[trigger] two.regions[i].sample.voices[k]).envelope_state.releasing()) by {
        let before = one.regions[i];
        assert(holds_only(before, note));
        note_off_step(before, note, off_velocity, other);
        assert(ended.0[i] == stepped(before, off, other));
        ended_notes_keep(ended.0[i], note);
    }
    assert(two.max_block_length == engine.max_block_length);
    assert forall|i: int| 0 <= i < two.regions.len() implies (#[trigger] two.regions[i]).wf()
        && two.regions[i].sample.max_block_length == two.max_block_length by {
        assert(engine.regions[i].wf());
    }
    assert forall|i: int|
        0 <= i < two.regions.len() implies total_frames(sizes) >= (
    #[trigger] two.regions[i]).sample.envelope.release_frames by {
        assert(total_frames(sizes) >= engine.regions[i].sample.envelope.release_frames);
    }
    released_engine_ends(two, sizes);
}

impl Engine {
    /// An engine of one region for each entry of `reg_data_sample`.
    ///
    /// Fails at the first entry from which no region can be built, and
    /// says which it is.
    pub fn from_region_array(
        reg_data_sample: Vec<(RegionData, Measures)>,
        sample_rate: u32,
        max_block_length: usize,
    ) -> (r: Result<Engine, EngineError>)
        ensures
            match r {
                Ok(engine) => {
                    &&& engine@.wf()
                    &&& engine@.max_block_length == max_block_length
                    &&& engine@.activated_groups.len() == 0
                    &&& engine@.regions.len() == reg_data_sample.len()
                    &&& forall|i: int|
                        0 <= i < reg_data_sample.len() ==> Some(#[trigger] engine@.regions[i]) == built_from(
                            reg_data_sample[i],
                            sample_rate,
                            max_block_length,
                        )
                },
                Err(EngineError::RegionError(index)) => {
                    &&& index < reg_data_sample.len()
                    &&& built_from(reg_data_sample[index as int], sample_rate, max_block_length) is None
                    &&& forall|i: int|
                        0 <= i < index ==> (#[trigger] built_from(
                            reg_data_sample[i],
                            sample_rate,
                            max_block_length,
                        )) is Some
                },
                Err(_) => false,
            },
    {
        let mut regions: Vec<Region> = Vec::new();
        let ghost input = reg_data_sample@;
        for pair in it: reg_data_sample
            invariant
                it.seq() == input,
                regions.len() == it.index(),
                forall|i: int|
                    0 <= i < regions.len() ==> {
                        &&& (#[trigger] regions@[i])@.wf()
                        &&& regions@[i]@.sample.max_block_length == max_block_length
                        &&& Some(regions@[i]@) == built_from(input[i], sample_rate, max_block_length)
                    },
        {
            let index = regions.len();
            let (params, measures) = pair;
            match Region::new(params, measures, sample_rate, max_block_length) {
                Some(region) => {
                    regions.push(region);
                },
                None => {
                    proof {
                        assert forall|i: int| 0 <= i < index implies (#[trigger] built_from(
                            input[i],
                            sample_rate,
                            max_block_length,
                        )) is Some by {
                            assert(regions@[i]@.wf());
                        }
                    }
                    return Err(EngineError::RegionError(index));
                },
            }
        }
        let engine = Engine { regions, max_block_length, activated_groups: Vec::new() };
        Ok(engine)
    }

    /// Whether the engine is well-formed.
    pub fn is_wf(&self) -> (r: bool)
        ensures
            r == self@.wf(),
    {
        let mut i: usize = 0;
        while i < self.regions.len()
            invariant
                i <= self.regions.len(),
                forall|k: int|
                    0 <= k < i ==> (#[trigger] self@.regions[k]).wf() && self@.regions[k].sample.max_block_length
                        == self.max_block_length,
            decreases self.regions.len() - i,
        {
            if !self.regions[i].is_wf() || self.regions[i].sample.max_block_length != self.max_block_length {
                assert(!(self@.regions[i as int].wf() && self@.regions[i as int].sample.max_block_length
                    == self.max_block_length));
                return false;
            }
            assert(self@.regions[i as int].wf());
            i += 1;
        }
        true
    }

    /// Takes an event, with the random draw that goes with it: every
    /// region takes the event, then every region takes the activation of
    /// the groups of the regions that have sounded.  Those groups are kept
    /// as the activated groups: one for each region that has sounded and
    /// belongs to a group.
    pub fn event_with_random(&mut self, event: Event, draw: Decimal)
        requires
            old(self)@.wf(),
        ensures
            final(self)@ == old(self)@.event(event, draw),
            final(self)@.wf(),
            final(self)@.activated_groups.len() == fired_in_groups(old(self)@.regions, event, draw),
    {
        self.activated_groups.clear();
        let count = self.regions.len();
        let mut i: usize = 0;
        assert(self@.regions.take(0) =~= Seq::<RegionState>::empty());
        while i < count
            invariant
                i <= count,
                count == self.regions.len(),
                count == old(self).regions.len(),
                self.max_block_length == old(self).max_block_length,
                old(self)@.wf(),
                fan_out(old(self)@.regions.take(i as int), event, draw) == (
                    self@.regions.take(i as int),
                    self.activated_groups@,
                ),
                self.activated_groups@.len() == fired_in_groups(old(self)@.regions.take(i as int), event, draw),
                forall|k: int| i <= k < count ==> self@.regions[k] == old(self)@.regions[k],
                forall|k: int|
                    0 <= k < i ==> (#[trigger] self@.regions[k]).wf()
                        && self@.regions[k].sample.max_block_length == self.max_block_length,
            decreases count - i,
        {
            let ghost before = self@.regions;
            assert(self@.regions[i as int] == old(self)@.regions[i as int]);
            assert(old(self)@.regions[i as int].wf());
            proof {
                pass_event_block(old(self)@.regions[i as int], event, draw);
            }
            let fired = self.regions[i].pass_event(event, draw);
            if fired {
                let group = self.regions[i].group();
                if group > 0 {
                    self.activated_groups.push(group);
                }
            }
            proof {
                let taken = old(self)@.regions.take(i + 1);
                assert(taken.drop_last() == old(self)@.regions.take(i as int));
                assert(taken.last() == old(self)@.regions[i as int]);
                assert(self@.regions.take(i + 1) =~= before.take(i as int).push(self@.regions[i as int]));
                assert forall|k: int| i < k < count implies self@.regions[k] == old(self)@.regions[k] by {
                    assert(before[k] == old(self)@.regions[k]);
                }
                assert forall|k: int| 0 <= k <= i implies (#[trigger] self@.regions[k]).wf()
                    && self@.regions[k].sample.max_block_length == self.max_block_length by {
                    if k < i {
                        assert(self@.regions[k] == before[k]);
                    }
                }
            }
            i += 1;
        }
        proof {
            assert(old(self)@.regions.take(count as int) == old(self)@.regions);
            assert(self@.regions.take(count as int) == self@.regions);
        }
        let ghost fanned = self@.regions;
        let ghost groups = self.activated_groups@;
        let mut g: usize = 0;
        assert(groups.take(0) =~= Seq::<u32>::empty());
        while g < self.activated_groups.len()
            invariant
                g <= self.activated_groups.len(),
                self.activated_groups@ == groups,
                count == self.regions.len(),
                fanned.len() == count,
                self.max_block_length == old(self).max_block_length,
                self@.regions == activated_all(fanned, groups.take(g as int)),
                forall|k: int|
                    0 <= k < count ==> (#[trigger] self@.regions[k]).wf()
                        && self@.regions[k].sample.max_block_length == self.max_block_length,
            decreases self.activated_groups.len() - g,
        {
            let group = self.activated_groups[g];
            let ghost start = self@.regions;
            let mut j: usize = 0;
            while j < count
                invariant
                    j <= count,
                    count == self.regions.len(),
                    start.len() == count,
                    self.activated_groups@ == groups,
                    self.max_block_length == old(self).max_block_length,
                    forall|k: int| 0 <= k < j ==> self@.regions[k] == (#[trigger] start[k]).group_activated(group),
                    forall|k: int| j <= k < count ==> self@.regions[k] == start[k],
                    forall|k: int|
                        0 <= k < count ==> (#[trigger] start[k]).wf() && start[k].sample.max_block_length
                            == self.max_block_length,
                    forall|k: int|
                        0 <= k < count ==> (#[trigger] self@.regions[k]).wf()
                            && self@.regions[k].sample.max_block_length == self.max_block_length,
                decreases count - j,
            {
                let ghost before = self@.regions;
                assert(before[j as int] == start[j as int]);
                assert(start[j as int].wf());
                self.regions[j].group_activated(group);
                proof {
                    assert forall|k: int| 0 <= k < j implies self@.regions[k] == (#[trigger] start[k]).group_activated(
                        group,
                    ) by {
                        assert(self@.regions[k] == before[k]);
                    }
                    assert forall|k: int| j < k < count implies self@.regions[k] == start[k] by {
                        assert(self@.regions[k] == before[k]);
                    }
                    assert forall|k: int| 0 <= k < count implies (#[trigger] self@.regions[k]).wf()
                        && self@.regions[k].sample.max_block_length == self.max_block_length by {
                        if k != j {
                            assert(self@.regions[k] == before[k]);
                        }
                    }
                }
                j += 1;
            }
            proof {
                assert(self@.regions =~= activated(start, group));
                assert(groups.take(g + 1).drop_last() == groups.take(g as int));
                assert(groups.take(g + 1).last() == group);
            }
            g += 1;
        }
        proof {
            assert(groups.take(groups.len() as int) == groups);
        }
    }

    /// Takes an event, with a random draw of its own.
    pub fn event(&mut self, event: Event)
        requires
            old(self)@.wf(),
        ensures
            exists|draw: Decimal| is_draw(draw) && final(self)@ == #[trigger] old(self)@.event(event, draw),
            final(self)@.wf(),
    {
        let draw = random_draw();
        self.event_with_random(event, draw);
    }

    /// Takes a MIDI message, with a random draw of its own.  The message
    /// is taken as the event that it stands for.
    pub fn midi_event(&mut self, midi_msg: &wmidi::MidiMessage)
        requires
            old(self)@.wf(),
        ensures
            exists|draw: Decimal|
                is_draw(draw) && final(self)@ == #[trigger] old(self)@.event(event_named(*midi_msg), draw),
            final(self)@.wf(),
    {
        let event = event_of(midi_msg);
        let draw = random_draw();
        self.event_with_random(event, draw);
    }

    /// Takes a MIDI message, with the random draw that goes with it.
    pub fn midi_event_with_random(&mut self, midi_msg: &wmidi::MidiMessage, draw: Decimal)
        requires
            old(self)@.wf(),
        ensures
            final(self)@ == old(self)@.event(event_named(*midi_msg), draw),
            final(self)@.wf(),
    {
        let event = event_of(midi_msg);
        self.event_with_random(event, draw);
    }

    /// Plays a block of `frames` output frames: every region plays the
    /// block.  The voices to render are those that the players keep as
    /// rendered.  Afterwards every voice that is left has sample and
    /// envelope left.
    pub fn process(&mut self, frames: usize)
        requires
            old(self)@.wf(),
            frames <= old(self).max_block_length,
        ensures
            final(self)@ == old(self)@.process(frames),
            final(self)@.wf(),
            forall|i: int, k: int|
                0 <= i < final(self)@.regions.len() && 0 <= k < final(self)@.regions[i].sample.voices.len()
                    ==> (#[trigger] final(self)@.regions[i].sample.voices[k]).survives(
                    final(self)@.regions[i].sample.frames,
                ),
    {
        let count = self.regions.len();
        let mut i: usize = 0;
        while i < count
            invariant
                i <= count,
                count == self.regions.len(),
                count == old(self).regions.len(),
                self.max_block_length == old(self).max_block_length,
                self.activated_groups == old(self).activated_groups,
                frames <= self.max_block_length,
                old(self)@.wf(),
                forall|k: int| 0 <= k < i ==> self@.regions[k] == (#[trigger] old(self)@.regions[k]).process(frames),
                forall|k: int| i <= k < count ==> self@.regions[k] == old(self)@.regions[k],
                forall|k: int|
                    0 <= k < i ==> (#[trigger] self@.regions[k]).wf()
                        && self@.regions[k].sample.max_block_length == self.max_block_length,
                forall|k: int, v: int|
                    0 <= k < i && 0 <= v < self@.regions[k].sample.voices.len() ==> (
                    #[trigger] self@.regions[k].sample.voices[v]).survives(self@.regions[k].sample.frames),
            decreases count - i,
        {
            let ghost before = self@.regions;
            assert(before[i as int] == old(self)@.regions[i as int]);
            assert(old(self)@.regions[i as int].wf());
            self.regions[i].process(frames);
            proof {
                assert forall|k: int| 0 <= k < i implies self@.regions[k] == (#[trigger] old(self)@.regions[k]).process(
                    frames,
                ) by {
                    assert(self@.regions[k] == before[k]);
                }
                assert forall|k: int| i < k < count implies self@.regions[k] == old(self)@.regions[k] by {
                    assert(self@.regions[k] == before[k]);
                }
                assert forall|k: int| 0 <= k <= i implies (#[trigger] self@.regions[k]).wf()
                    && self@.regions[k].sample.max_block_length == self.max_block_length by {
                    if k < i {
                        assert(self@.regions[k] == before[k]);
                    }
                }
                assert forall|k: int, v: int|
                    0 <= k <= i && 0 <= v < self@.regions[k].sample.voices.len() implies (
                #[trigger] self@.regions[k].sample.voices[v]).survives(self@.regions[k].sample.frames) by {
                    if k < i {
                        assert(self@.regions[k] == before[k]);
                    } else {
                        assert(self.regions@[i as int].sample.voices@[v].survives(
                            self.regions@[i as int].sample.frames as int,
                        ));
                    }
                }
            }
            i += 1;
        }
        assert(self@.regions =~= old(self)@.process(frames).regions);
    }

    /// Ends every note of every region.
    pub fn fade_out(&mut self)
        requires
            old(self)@.wf(),
        ensures
            final(self)@ == old(self)@.fade_out(),
            final(self)@.wf(),
    {
        let count = self.regions.len();
        let mut i: usize = 0;
        while i < count
            invariant
                i <= count,
                count == self.regions.len(),
                count == old(self).regions.len(),
                self.max_block_length == old(self).max_block_length,
                self.activated_groups == old(self).activated_groups,
                old(self)@.wf(),
                forall|k: int|
                    0 <= k < i ==> self@.regions[k] == (RegionState {
                        sample: (#[trigger] old(self)@.regions[k]).sample.all_notes_off(),
                        ..old(self)@.regions[k]
                    }),
                forall|k: int| i <= k < count ==> self@.regions[k] == old(self)@.regions[k],
                forall|k: int|
                    0 <= k < i ==> (#[trigger] self@.regions[k]).wf()
                        && self@.regions[k].sample.max_block_length == self.max_block_length,
            decreases count - i,
        {
            let ghost before = self@.regions;
            assert(before[i as int] == old(self)@.regions[i as int]);
            assert(old(self)@.regions[i as int].wf());
            self.regions[i].sample.all_notes_off();
            proof {
                assert forall|k: int| 0 <= k < i implies self@.regions[k] == (RegionState {
                    sample: (#[trigger] old(self)@.regions[k]).sample.all_notes_off(),
                    ..old(self)@.regions[k]
                }) by {
                    assert(self@.regions[k] == before[k]);
                }
                assert forall|k: int| i < k < count implies self@.regions[k] == old(self)@.regions[k] by {
                    assert(self@.regions[k] == before[k]);
                }
                assert forall|k: int| 0 <= k <= i implies (#[trigger] self@.regions[k]).wf()
                    && self@.regions[k].sample.max_block_length == self.max_block_length by {
                    if k < i {
                        assert(self@.regions[k] == before[k]);
                    }
                }
            }
            i += 1;
        }
        assert(self@.regions =~= old(self)@.fade_out().regions);
    }

    /// Whether every voice has gone.
    pub fn fade_out_finished(&self) -> (r: bool)
        ensures
            r == self@.silent(),
    {
        let mut i: usize = 0;
        while i < self.regions.len()
            invariant
                i <= self.regions.len(),
                forall|k: int| 0 <= k < i ==> !(#[trigger] self@.regions[k]).sample.playing(),
            decreases self.regions.len() - i,
        {
            if self.regions[i].is_playing() {
                assert(self@.regions[i as int].sample.playing());
                return false;
            }
            i += 1;
        }
        true
    }
}

} // verus!
