//! The amplitude envelope: its parameters, the lengths of its three
//! segments, and the state that each voice steps through.
//!
//! The envelope is laid out as three tables.  The attack/hold/decay table and
//! the release table each end in one block of padding, so that a block that
//! starts inside the table never reads past it.  This module knows the
//! lengths of the tables and where a voice stands in them; the levels stored
//! in the tables are the renderer's business.

use vstd::prelude::*;
use vstd::arithmetic::div_mod::{lemma_div_denominator, lemma_hoist_over_denominator};
use crate::decimal::{hundredth_of, Decimal};
use crate::errors::{range_check, range_checked, RangeError};

verus! {

/// The five parameters of an ADSR envelope.
#[derive(Clone, Copy, Debug)]
pub struct Generator {
    /// Attack time in seconds, within 0 ..= 100.
    pub attack: Decimal,
    /// Hold time in seconds, within 0 ..= 100.
    pub hold: Decimal,
    /// Decay time in seconds, within 0 ..= 100.
    pub decay: Decimal,
    /// Sustain level as a fraction, within 0 ..= 1.
    pub sustain: Decimal,
    /// Release time in seconds, within 0 ..= 100.
    pub release: Decimal,
}

/// One hundred, in billionths.
pub const HUNDRED: i64 = 100_000_000_000;

/// `0 <= d <= 100`.
pub open spec fn within_hundred(d: Decimal) -> bool {
    0 <= d.billionths <= 100_000_000_000
}

/// `a / b` rounded up, for `a >= 0` and `b > 0`.
pub open spec fn ceil_div(a: int, b: int) -> int {
    (a + b - 1) / b
}

/// The length in frames of an envelope table that covers `billionths`
/// billionths of a second at `rate` frames per second, in blocks of `block`
/// frames: the duration in frames rounded up to whole blocks, and one more
/// block of padding.
pub open spec fn table_frames(billionths: int, rate: int, block: int) -> int {
    ceil_div(ceil_div(billionths * rate, 1_000_000_000), block) * block + block
}

/// To round up to whole frames first and to whole blocks then is to round
/// up to whole blocks at once: the length of a table is the duration in
/// blocks, rounded up, and one block more.
pub proof fn table_frames_in_one_step(billionths: int, rate: int, block: int)
    requires
        0 <= billionths,
        0 <= rate,
        0 < block,
    ensures
        table_frames(billionths, rate, block) == ceil_div(billionths * rate, 1_000_000_000 * block) * block
            + block,
{
    let a = billionths * rate;
    let c = 1_000_000_000int;
    assert(0 <= a) by (nonlinear_arith)
        requires
            a == billionths * rate,
            0 <= billionths,
            0 <= rate,
    ;
    lemma_hoist_over_denominator(a + c - 1, block - 1, c as nat);
    assert((block - 1) * c == c * block - c) by (nonlinear_arith);
    lemma_div_denominator(a + c * block - 1, c, block);
}

impl Generator {
    /// Every parameter lies within its range.
    pub open spec fn wf(self) -> bool {
        &&& within_hundred(self.attack)
        &&& within_hundred(self.hold)
        &&& within_hundred(self.decay)
        &&& 0 <= self.sustain.billionths <= 1_000_000_000
        &&& within_hundred(self.release)
    }

    /// The time covered by the attack/hold/decay table, in billionths of a
    /// second: attack, hold, and twice the decay.
    pub open spec fn attack_decay_time(self) -> int {
        self.attack.billionths + self.hold.billionths + 2 * self.decay.billionths
    }

    /// The time covered by the release table, in billionths of a second:
    /// twice the release.
    pub open spec fn release_time(self) -> int {
        2 * self.release.billionths
    }

    /// Sets the attack time, in seconds.
    pub fn set_attack(&mut self, v: Decimal) -> (r: Result<(), RangeError>)
        ensures
            match range_checked(v, Decimal { billionths: 0 }, Decimal { billionths: HUNDRED }, "ampeg_attack") {
                Ok(a) => r == Ok::<(), RangeError>(()) && *final(self) == (Generator { attack: a, ..*old(self) }),
                Err(e) => r == Err::<(), RangeError>(e) && *final(self) == *old(self),
            },
    {
        match range_check(v, Decimal::new(0), Decimal::new(HUNDRED), "ampeg_attack") {
            Ok(a) => {
                self.attack = a;
                Ok(())
            },
            Err(e) => Err(e),
        }
    }

    /// Sets the hold time, in seconds.
    pub fn set_hold(&mut self, v: Decimal) -> (r: Result<(), RangeError>)
        ensures
            match range_checked(v, Decimal { billionths: 0 }, Decimal { billionths: HUNDRED }, "ampeg_hold") {
                Ok(a) => r == Ok::<(), RangeError>(()) && *final(self) == (Generator { hold: a, ..*old(self) }),
                Err(e) => r == Err::<(), RangeError>(e) && *final(self) == *old(self),
            },
    {
        match range_check(v, Decimal::new(0), Decimal::new(HUNDRED), "ampeg_hold") {
            Ok(a) => {
                self.hold = a;
                Ok(())
            },
            Err(e) => Err(e),
        }
    }

    /// Sets the decay time, in seconds.
    pub fn set_decay(&mut self, v: Decimal) -> (r: Result<(), RangeError>)
        ensures
            match range_checked(v, Decimal { billionths: 0 }, Decimal { billionths: HUNDRED }, "ampeg_decay") {
                Ok(a) => r == Ok::<(), RangeError>(()) && *final(self) == (Generator { decay: a, ..*old(self) }),
                Err(e) => r == Err::<(), RangeError>(e) && *final(self) == *old(self),
            },
    {
        match range_check(v, Decimal::new(0), Decimal::new(HUNDRED), "ampeg_decay") {
            Ok(a) => {
                self.decay = a;
                Ok(())
            },
            Err(e) => Err(e),
        }
    }

    /// Sets the sustain level.  It is given in percent, within 0 ..= 100,
    /// and kept as a fraction.
    pub fn set_sustain(&mut self, v: Decimal) -> (r: Result<(), RangeError>)
        ensures
            match range_checked(v, Decimal { billionths: 0 }, Decimal { billionths: HUNDRED }, "ampeg_sustain") {
                Ok(a) => r == Ok::<(), RangeError>(()) && *final(self) == (Generator {
                    sustain: Decimal { billionths: hundredth_of(a.billionths as int) as i64 },
                    ..*old(self)
                }),
                Err(e) => r == Err::<(), RangeError>(e) && *final(self) == *old(self),
            },
    {
        match range_check(v, Decimal::new(0), Decimal::new(HUNDRED), "ampeg_sustain") {
            Ok(a) => {
                self.sustain = a.hundredth();
                Ok(())
            },
            Err(e) => Err(e),
        }
    }

    /// Sets the release time, in seconds.
    pub fn set_release(&mut self, v: Decimal) -> (r: Result<(), RangeError>)
        ensures
            match range_checked(v, Decimal { billionths: 0 }, Decimal { billionths: HUNDRED }, "ampeg_release") {
                Ok(a) => r == Ok::<(), RangeError>(()) && *final(self) == (Generator { release: a, ..*old(self) }),
                Err(e) => r == Err::<(), RangeError>(e) && *final(self) == *old(self),
            },
    {
        match range_check(v, Decimal::new(0), Decimal::new(HUNDRED), "ampeg_release") {
            Ok(a) => {
                self.release = a;
                Ok(())
            },
            Err(e) => Err(e),
        }
    }
}

impl Default for Generator {
    /// No attack, hold, decay or release; full sustain.
    fn default() -> (g: Self)
        ensures
            g == (Generator {
                attack: Decimal { billionths: 0 },
                hold: Decimal { billionths: 0 },
                decay: Decimal { billionths: 0 },
                sustain: Decimal { billionths: 1_000_000_000 },
                release: Decimal { billionths: 0 },
            }),
            g.wf(),
    {
        Generator {
            attack: Decimal::new(0),
            hold: Decimal::new(0),
            decay: Decimal::new(0),
            sustain: Decimal::new(1_000_000_000),
            release: Decimal::new(0),
        }
    }
}

/// The length of an envelope table, where it fits the machine word.
fn calc_needed_samples(billionths: i64, rate: u32, block: usize) -> (r: Option<usize>)
    requires
        0 <= billionths <= 400_000_000_000,
        block > 0,
    ensures
        r == if table_frames(billionths as int, rate as int, block as int) <= usize::MAX {
            Some(table_frames(billionths as int, rate as int, block as int) as usize)
        } else {
            None::<usize>
        },
        table_frames(billionths as int, rate as int, block as int) >= block,
{
    assert(0 <= billionths * rate <= 400_000_000_000 * 0x1_0000_0000) by (nonlinear_arith)
        requires
            0 <= billionths <= 400_000_000_000,
            0 <= rate < 0x1_0000_0000,
    ;
    let frames: u128 = (billionths as u128 * rate as u128 + 999_999_999) / 1_000_000_000;
    let b: u128 = block as u128;
    let blocks: u128 = (frames + b - 1) / b;
    assert(0 <= blocks <= frames) by (nonlinear_arith)
        requires
            blocks == (frames + b - 1) / (b as int),
            b >= 1,
            frames >= 0,
    ;
    assert(0 <= blocks * b <= frames * b) by (nonlinear_arith)
        requires
            0 <= blocks <= frames,
            b >= 1,
    ;
    assert(frames * b <= 0x1_0000_0000_0000 * 0x1_0000_0000_0000_0000) by (nonlinear_arith)
        requires
            0 <= frames <= 0x1_0000_0000_0000,
            0 <= b <= 0x1_0000_0000_0000_0000,
    ;
    let total: u128 = blocks * b + b;
    if total <= usize::MAX as u128 {
        Some(total as usize)
    } else {
        None
    }
}

/// Which of the three envelope tables a voice reads.
#[derive(Clone, Copy, Debug, PartialEq, Eq, Structural)]
pub enum Segment {
    AttackDecay,
    Sustain,
    Release,
}

/// Where a voice stands in its envelope.  The number is the index into the
/// segment's table at which the next block starts.
#[derive(Clone, Copy, Debug, PartialEq, Eq, Structural)]
pub enum State {
    AttackDecay(usize),
    Sustain,
    Release(usize),
    Inactive,
}

/// An envelope level, named by the place where the renderer finds it.
#[derive(Clone, Copy, Debug, PartialEq, Eq, Structural)]
pub enum Level {
    /// Full level, 1.0.
    Unity,
    /// The entry `index` of the table of `segment`.
    At(Segment, usize),
}

impl State {
    /// Every state but `Inactive` is active.
    pub open spec fn active(self) -> bool {
        !(self is Inactive)
    }

    /// The release segment.
    pub open spec fn releasing(self) -> bool {
        self is Release
    }

    /// Whether the voice still sounds.
    pub fn is_active(&self) -> (r: bool)
        ensures
            r == self.active(),
    {
        match *self {
            State::Inactive => false,
            _ => true,
        }
    }

    /// Whether the voice is in its release.
    pub fn is_releasing(&self) -> (r: bool)
        ensures
            r == self.releasing(),
    {
        match *self {
            State::Release(_) => true,
            _ => false,
        }
    }
}

/// The lengths of the three envelope tables of one region.
#[derive(Clone, Copy, Debug)]
pub struct ADSREnvelope {
    /// Length of the attack/hold/decay table, padding included.
    pub attack_decay_frames: usize,
    /// Length of the release table, padding included.
    pub release_frames: usize,
    /// How many leading entries of the release table lie above the
    /// audibility floor of -160 dB.  The table falls monotonically, so an
    /// entry is audible exactly when its index is below this number.
    pub audible_release_frames: usize,
    /// The largest block that will ever be processed; also the length of
    /// the sustain table.
    pub max_block_length: usize,
}

impl ADSREnvelope {
    /// Each table holds at least one block, and the audible part of the
    /// release lies within its table.
    pub open spec fn wf(self) -> bool {
        &&& self.max_block_length > 0
        &&& self.attack_decay_frames >= self.max_block_length
        &&& self.release_frames >= self.max_block_length
        &&& self.audible_release_frames <= self.release_frames
    }

    /// The length of the table of `segment`.
    pub open spec fn segment_frames(self, segment: Segment) -> int {
        match segment {
            Segment::AttackDecay => self.attack_decay_frames as int,
            Segment::Sustain => self.max_block_length as int,
            Segment::Release => self.release_frames as int,
        }
    }

    /// The table and index at which a voice in `state` reads its next
    /// block.  An inactive voice has no envelope; it is given the sustain
    /// table.
    pub open spec fn envelope_of(state: State) -> (Segment, usize) {
        match state {
            State::AttackDecay(pos) => (Segment::AttackDecay, pos),
            State::Release(pos) => (Segment::Release, pos),
            State::Sustain => (Segment::Sustain, 0),
            State::Inactive => (Segment::Sustain, 0),
        }
    }

    /// A block of at most `max_block_length` frames that starts in `state`
    /// stays within the table.
    pub open spec fn in_table(self, state: State) -> bool {
        ADSREnvelope::envelope_of(state).1 + self.max_block_length <= self.segment_frames(
            ADSREnvelope::envelope_of(state).0,
        )
    }

    /// The state that follows `state` when the block just played ended at
    /// index `new_pos` of its table.
    ///
    /// Attack/decay goes on until the index enters the padding block, then
    /// becomes sustain.  Release goes on until the index enters the padding
    /// block or the level at the index is no longer audible, then becomes
    /// inactive.  Sustain and inactive stay as they are.
    pub open spec fn next_state(self, state: State, new_pos: usize) -> State {
        match state {
            State::AttackDecay(_) => if new_pos < self.attack_decay_frames - self.max_block_length {
                State::AttackDecay(new_pos)
            } else {
                State::Sustain
            },
            State::Release(_) => if new_pos < self.release_frames - self.max_block_length && new_pos
                < self.audible_release_frames {
                State::Release(new_pos)
            } else {
                State::Inactive
            },
            s => s,
        }
    }

    /// The level that a voice has reached after a block of `frames` frames
    /// that started in `state`: the entry that the next frame would read,
    /// or the last entry of the table where there is no such entry.
    pub open spec fn level_after(self, state: State, frames: usize) -> Level {
        let (segment, start) = ADSREnvelope::envelope_of(state);
        if start + frames < self.segment_frames(segment) {
            Level::At(segment, (start + frames) as usize)
        } else {
            Level::At(segment, (self.segment_frames(segment) - 1) as usize)
        }
    }

    /// The layout of the envelope tables for `generator` at `sample_rate`
    /// frames per second, or `None` where the block length is zero or a
    /// table would be longer than the machine can address.
    /// `audible_release_frames` is the number of leading entries of the
    /// release table above the audibility floor; a number beyond the
    /// table's length is cut down to it.
    pub open spec fn laid_out(
        generator: Generator,
        sample_rate: u32,
        max_block_length: usize,
        audible_release_frames: usize,
    ) -> Option<ADSREnvelope> {
        let attack_decay = table_frames(
            generator.attack_decay_time(),
            sample_rate as int,
            max_block_length as int,
        );
        let release = table_frames(generator.release_time(), sample_rate as int, max_block_length as int);
        if max_block_length == 0 || attack_decay > usize::MAX || release > usize::MAX {
            None
        } else {
            Some(
                ADSREnvelope {
                    attack_decay_frames: attack_decay as usize,
                    release_frames: release as usize,
                    audible_release_frames: if audible_release_frames <= release {
                        audible_release_frames
                    } else {
                        release as usize
                    },
                    max_block_length,
                },
            )
        }
    }

    /// Lays out the envelope tables for `generator`.
    pub fn new(
        generator: &Generator,
        sample_rate: u32,
        max_block_length: usize,
        audible_release_frames: usize,
    ) -> (r: Option<Self>)
        requires
            generator.wf(),
        ensures
            r == ADSREnvelope::laid_out(*generator, sample_rate, max_block_length, audible_release_frames),
            r is Some ==> r->0.wf(),
    {
        if max_block_length == 0 {
            return None;
        }
        let attack_decay_time = generator.attack.billionths + generator.hold.billionths + 2
            * generator.decay.billionths;
        let release_time = 2 * generator.release.billionths;
        let attack_decay_frames = match calc_needed_samples(attack_decay_time, sample_rate, max_block_length) {
            Some(n) => n,
            None => {
                return None;
            },
        };
        let release_frames = match calc_needed_samples(release_time, sample_rate, max_block_length) {
            Some(n) => n,
            None => {
                return None;
            },
        };
        let audible = if audible_release_frames <= release_frames {
            audible_release_frames
        } else {
            release_frames
        };
        Some(
            ADSREnvelope {
                attack_decay_frames,
                release_frames,
                audible_release_frames: audible,
                max_block_length,
            },
        )
    }

    /// The table and index at which a voice in `state` reads its next block.
    pub fn active_envelope(&self, state: State) -> (r: (Segment, usize))
        ensures
            r == ADSREnvelope::envelope_of(state),
    {
        match state {
            State::AttackDecay(pos) => (Segment::AttackDecay, pos),
            State::Release(pos) => (Segment::Release, pos),
            State::Sustain => (Segment::Sustain, 0),
            State::Inactive => (Segment::Sustain, 0),
        }
    }

    /// Moves `state` on after a block that ended at index `new_pos`.
    pub fn update_state(&self, state: &mut State, new_pos: usize)
        requires
            self.wf(),
        ensures
            *final(state) == self.next_state(*old(state), new_pos),
    {
        let next = match *state {
            State::AttackDecay(_) => {
                if new_pos < self.attack_decay_frames - self.max_block_length {
                    State::AttackDecay(new_pos)
                } else {
                    State::Sustain
                }
            },
            State::Release(_) => {
                if new_pos < self.release_frames - self.max_block_length && new_pos
                    < self.audible_release_frames {
                    State::Release(new_pos)
                } else {
                    State::Inactive
                }
            },
            s => s,
        };
        *state = next;
    }

    /// The level reached after a block of `frames` frames from `state`.
    pub fn level_reached(&self, state: State, frames: usize) -> (r: Level)
        requires
            self.wf(),
            frames <= self.max_block_length,
            self.in_table(state),
        ensures
            r == self.level_after(state, frames),
    {
        let (segment, start) = self.active_envelope(state);
        let length = match segment {
            Segment::AttackDecay => self.attack_decay_frames,
            Segment::Sustain => self.max_block_length,
            Segment::Release => self.release_frames,
        };
        if start + frames < length {
            Level::At(segment, start + frames)
        } else {
            Level::At(segment, length - 1)
        }
    }

    /// The state that `next_state` yields is again within its table.
    pub proof fn next_state_in_table(self, state: State, new_pos: usize)
        requires
            self.wf(),
        ensures
            self.next_state(state, new_pos).active() ==> (self.in_table(state) ==> self.in_table(
                self.next_state(state, new_pos),
            )),
    {
    }
}

} // verus!
