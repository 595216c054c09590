//! The polyphonic player of one sample.
//!
//! The player owns the voices that currently sound from one sample.  For
//! each block it says which voices are to be rendered and from where, moves
//! every voice's read head and envelope on by the block, and retires the
//! voices that have run out of sample or envelope.  A block allocates no
//! memory as long as the player has held as many voices before.
//!
//! Positions in the sample are fixed-point numbers: one frame is
//! [`FRAME`] units, so that a read head advances by the same exact amount
//! with every output frame, whatever the pitch.

use vstd::prelude::*;
use crate::envelopes::{ceil_div, ADSREnvelope, Level, State};

verus! {

/// One frame of the sample, in units of position.
pub const FRAME: u64 = 0x1_0000_0000;

/// How a note was struck.  The renderer derives the gain of the voice from
/// it.
#[derive(Clone, Copy, Debug, PartialEq, Eq, Structural)]
pub struct Strike {
    /// The velocity of the note.
    pub velocity: u8,
    /// For a voice that answers a release: the number of frames processed
    /// between the region's last sounding note and this one.  Else 0.
    pub elapsed: u64,
}

/// One sounding occurrence of the sample.
#[derive(Clone, Copy, Debug, PartialEq, Eq, Structural)]
pub struct Voice {
    /// The note that started the voice and that stops it.
    pub note: u8,
    /// The advance of the read head with each output frame, in units of
    /// position: the ratio of the voice's frequency to that of the sample.
    pub step: u64,
    /// How the note was struck.
    pub strike: Strike,
    /// The read head, in units of position.
    pub position: u64,
    /// Where the voice stands in its envelope.
    pub envelope_state: State,
    /// The envelope level that the voice reached with the last block.
    pub last_envelope_level: Level,
    /// The envelope level at which the voice was released.  The release
    /// segment is scaled by it.
    pub release_start_level: Level,
}

/// The read head after `frames` output frames.  It stops at the largest
/// position, which lies beyond the end of every sample.
pub open spec fn position_after(position: u64, step: u64, frames: int) -> u64 {
    if position + frames * step > u64::MAX {
        u64::MAX
    } else {
        (position + frames * step) as u64
    }
}

/// The number of frames of sample data that must be at hand before a block
/// of `block` output frames is rendered from `position`: the frames up to
/// the end of the block, rounded up, and five more for the interpolation.
pub open spec fn needed_frames(position: u64, step: u64, block: int) -> int {
    ceil_div(position + block * step, 0x1_0000_0000) + 5
}

impl Voice {
    /// A voice at the start of the sample and of its envelope.
    pub open spec fn struck(note: u8, step: u64, strike: Strike) -> Voice {
        Voice {
            note,
            step,
            strike,
            position: 0,
            envelope_state: State::AttackDecay(0),
            last_envelope_level: Level::Unity,
            release_start_level: Level::Unity,
        }
    }

    /// The voice after its note has ended: at the start of the release,
    /// scaled by the level that it had reached.  A voice that is already
    /// in its release goes on as it is.
    pub open spec fn released(self) -> Voice {
        if self.envelope_state.releasing() {
            self
        } else {
            Voice {
                envelope_state: State::Release(0),
                release_start_level: self.last_envelope_level,
                ..self
            }
        }
    }

    /// The voice after a block of `frames` output frames.
    pub open spec fn advanced(self, envelope: ADSREnvelope, frames: usize) -> Voice {
        Voice {
            position: position_after(self.position, self.step, frames as int),
            envelope_state: envelope.next_state(
                self.envelope_state,
                (ADSREnvelope::envelope_of(self.envelope_state).1 + frames) as usize,
            ),
            last_envelope_level: envelope.level_after(self.envelope_state, frames),
            ..self
        }
    }

    /// The voice still has sample and envelope left.
    pub open spec fn survives(self, frames: int) -> bool {
        self.position < frames * 0x1_0000_0000 && self.envelope_state.active()
    }

    /// The voice plays `note` and is not in its release.
    pub open spec fn holds(self, note: u8) -> bool {
        self.note == note && !self.envelope_state.releasing()
    }

    /// A voice at the start of the sample and of its envelope.
    pub fn new(note: u8, step: u64, strike: Strike) -> (v: Voice)
        ensures
            v == Voice::struck(note, step, strike),
    {
        Voice {
            note,
            step,
            strike,
            position: 0,
            envelope_state: State::AttackDecay(0),
            last_envelope_level: Level::Unity,
            release_start_level: Level::Unity,
        }
    }

    /// Ends the note of the voice.
    pub fn release(&mut self)
        ensures
            *final(self) == old(self).released(),
    {
        if !self.envelope_state.is_releasing() {
            self.envelope_state = State::Release(0);
            self.release_start_level = self.last_envelope_level;
        }
    }
}

/// The voices of `voices` after the note `note` has ended.
pub open spec fn after_note_off(voices: Seq<Voice>, note: u8) -> Seq<Voice> {
    Seq::new(
        voices.len(),
        |i: int| if voices[i].note == note { voices[i].released() } else { voices[i] },
    )
}

/// The voices of `voices` after every note has ended.
pub open spec fn after_all_notes_off(voices: Seq<Voice>) -> Seq<Voice> {
    Seq::new(voices.len(), |i: int| voices[i].released())
}

/// The voices of `voices` that are left after a block of `frames` output
/// frames, each moved on by the block, in their old order.
pub open spec fn after_block(
    voices: Seq<Voice>,
    envelope: ADSREnvelope,
    sample_frames: int,
    frames: usize,
) -> Seq<Voice>
    decreases voices.len(),
{
    if voices.len() == 0 {
        Seq::empty()
    } else {
        let rest = after_block(voices.drop_last(), envelope, sample_frames, frames);
        let last = voices.last().advanced(envelope, frames);
        if last.survives(sample_frames) {
            rest.push(last)
        } else {
            rest
        }
    }
}

/// The length of the sample buffer after it has been made long enough for
/// every voice of `voices` to render a block of `block` frames.  The buffer
/// never shrinks, and its length stops at the largest number.
pub open spec fn grown(buffer: u64, voices: Seq<Voice>, block: int) -> u64
    decreases voices.len(),
{
    if voices.len() == 0 {
        buffer
    } else {
        let before = grown(buffer, voices.drop_last(), block);
        let needed = needed_frames(voices.last().position, voices.last().step, block);
        if needed <= before {
            before
        } else if needed > u64::MAX {
            u64::MAX
        } else {
            needed as u64
        }
    }
}

/// The length in frames of the buffer that holds a sample of `frames`
/// frames: the frames rounded down to whole blocks, and two blocks more.
pub open spec fn padded_frames(frames: int, block: int) -> int {
    (frames / block + 2) * block
}

/// The player of one sample.
#[derive(Debug)]
pub struct Sample {
    /// The sounding voices, oldest first.
    pub voices: Vec<Voice>,
    /// The voices of the last block, as they stood at its start: what the
    /// renderer is to play of that block.
    pub rendered: Vec<Voice>,
    /// The length of the sample in frames.
    pub frames: usize,
    /// The length in frames that the renderer's buffer must have, padding
    /// included.
    pub buffer_frames: u64,
    /// The largest block that will ever be processed.
    pub max_block_length: usize,
    /// The layout of the envelope tables.
    pub envelope: ADSREnvelope,
}

/// The mathematical content of a [`Sample`].
pub struct SampleState {
    pub voices: Seq<Voice>,
    pub rendered: Seq<Voice>,
    pub frames: int,
    pub buffer_frames: u64,
    pub max_block_length: usize,
    pub envelope: ADSREnvelope,
}

impl View for Sample {
    type V = SampleState;

    open spec fn view(&self) -> SampleState {
        SampleState {
            voices: self.voices@,
            rendered: self.rendered@,
            frames: self.frames as int,
            buffer_frames: self.buffer_frames,
            max_block_length: self.max_block_length,
            envelope: self.envelope,
        }
    }
}

impl SampleState {
    /// The envelope is laid out for the player's block length, the sample
    /// is short enough for a position to reach its end, and every voice is
    /// active and stands where a block fits into its envelope table.
    pub open spec fn wf(self) -> bool {
        &&& self.envelope.wf()
        &&& self.envelope.max_block_length == self.max_block_length
        &&& 0 <= self.frames < 0x1_0000_0000
        &&& forall|i: int|
            0 <= i < self.voices.len() ==> {
                &&& (#[trigger] self.voices[i]).envelope_state.active()
                &&& self.envelope.in_table(self.voices[i].envelope_state)
            }
    }

    /// A player without voices for a sample of `frames` frames, or `None`
    /// where the envelope is not laid out for `max_block_length`, or where
    /// the sample or its padded buffer is longer than a position or a
    /// length can say.
    pub open spec fn fresh(frames: int, max_block_length: usize, envelope: ADSREnvelope) -> Option<
        SampleState,
    > {
        if envelope.wf() && envelope.max_block_length == max_block_length && 0 <= frames < 0x1_0000_0000
            && padded_frames(frames, max_block_length as int) <= u64::MAX {
            Some(
                SampleState {
                    voices: Seq::empty(),
                    rendered: Seq::empty(),
                    frames,
                    buffer_frames: padded_frames(frames, max_block_length as int) as u64,
                    max_block_length,
                    envelope,
                },
            )
        } else {
            None
        }
    }

    /// A voice sounds.
    pub open spec fn playing(self) -> bool {
        self.voices.len() > 0
    }

    /// A voice plays `note` and is not in its release.
    pub open spec fn playing_note(self, note: u8) -> bool {
        exists|i: int| 0 <= i < self.voices.len() && (#[trigger] self.voices[i]).holds(note)
    }

    /// A voice plays `note` and is in its release.
    pub open spec fn releasing_note(self, note: u8) -> bool {
        exists|i: int|
            0 <= i < self.voices.len() && (#[trigger] self.voices[i]).note == note
                && self.voices[i].envelope_state.releasing()
    }

    /// A voice plays `note`, in its release or not.
    pub open spec fn sounding_note(self, note: u8) -> bool {
        exists|i: int| 0 <= i < self.voices.len() && (#[trigger] self.voices[i]).note == note
    }

    /// The player after `note` has been struck: the voices that held the
    /// note are released, and a new voice is added behind them.
    pub open spec fn note_on(self, note: u8, step: u64, strike: Strike) -> SampleState {
        SampleState {
            voices: after_note_off(self.voices, note).push(Voice::struck(note, step, strike)),
            ..self
        }
    }

    /// The player after `note` has ended.
    pub open spec fn note_off(self, note: u8) -> SampleState {
        SampleState { voices: after_note_off(self.voices, note), ..self }
    }

    /// The player after every note has ended.
    pub open spec fn all_notes_off(self) -> SampleState {
        SampleState { voices: after_all_notes_off(self.voices), ..self }
    }

    /// The player after a block of `frames` output frames: the voices as
    /// they stood are to be rendered, the buffer is as long as they need,
    /// and the voices that are left have moved on.
    pub open spec fn process(self, frames: usize) -> SampleState {
        SampleState {
            voices: after_block(self.voices, self.envelope, self.frames, frames),
            rendered: self.voices,
            buffer_frames: grown(self.buffer_frames, self.voices, self.max_block_length as int),
            ..self
        }
    }
}

/// Every voice that is left after a block has sample and envelope left,
/// and stands where a block fits into its envelope table.
pub proof fn after_block_survivors(
    voices: Seq<Voice>,
    envelope: ADSREnvelope,
    sample_frames: int,
    frames: usize,
)
    requires
        envelope.wf(),
        forall|i: int| 0 <= i < voices.len() ==> envelope.in_table((#[trigger] voices[i]).envelope_state),
    ensures
        after_block(voices, envelope, sample_frames, frames).len() <= voices.len(),
        forall|i: int|
            0 <= i < after_block(voices, envelope, sample_frames, frames).len() ==> {
                let v = #[trigger] after_block(voices, envelope, sample_frames, frames)[i];
                &&& v.survives(sample_frames)
                &&& envelope.in_table(v.envelope_state)
            },
    decreases voices.len(),
{
    if voices.len() > 0 {
        after_block_survivors(voices.drop_last(), envelope, sample_frames, frames);
        let v = voices.last();
        assert(envelope.in_table(v.envelope_state));
        envelope.next_state_in_table(
            v.envelope_state,
            (ADSREnvelope::envelope_of(v.envelope_state).1 + frames) as usize,
        );
    }
}

/// The buffer never shrinks, and holds what each voice needs unless that
/// is more than the largest number.
pub proof fn grown_covers(buffer: u64, voices: Seq<Voice>, block: int)
    ensures
        grown(buffer, voices, block) >= buffer,
        forall|i: int|
            0 <= i < voices.len() ==> {
                let needed = needed_frames((#[trigger] voices[i]).position, voices[i].step, block);
                grown(buffer, voices, block) >= needed || grown(buffer, voices, block) == u64::MAX
            },
    decreases voices.len(),
{
    if voices.len() > 0 {
        grown_covers(buffer, voices.drop_last(), block);
        assert forall|i: int| 0 <= i < voices.len() implies {
            let needed = needed_frames((#[trigger] voices[i]).position, voices[i].step, block);
            grown(buffer, voices, block) >= needed || grown(buffer, voices, block) == u64::MAX
        } by {
            if i < voices.len() - 1 {
                assert(voices.drop_last()[i] == voices[i]);
            }
        }
    }
}

/// What a voice is apart from the name of the level that it has reached:
/// its note, step, strike, read head, envelope state and release level.
pub open spec fn motion(v: Voice) -> Voice {
    Voice { last_envelope_level: Level::Unity, ..v }
}

/// The motion of each voice of `voices`.
pub open spec fn motions(voices: Seq<Voice>) -> Seq<Voice> {
    Seq::new(voices.len(), |i: int| motion(voices[i]))
}

/// The voices of `voices` after blocks of the lengths `sizes`, one after
/// the other.
pub open spec fn after_blocks(
    voices: Seq<Voice>,
    envelope: ADSREnvelope,
    sample_frames: int,
    sizes: Seq<usize>,
) -> Seq<Voice>
    decreases sizes.len(),
{
    if sizes.len() == 0 {
        voices
    } else {
        after_block(
            after_blocks(voices, envelope, sample_frames, sizes.drop_last()),
            envelope,
            sample_frames,
            sizes.last(),
        )
    }
}

/// The joint length of blocks of the lengths `sizes`.
pub open spec fn total_frames(sizes: Seq<usize>) -> int
    decreases sizes.len(),
{
    if sizes.len() == 0 {
        0
    } else {
        total_frames(sizes.drop_last()) + sizes.last()
    }
}

/// No block of `sizes` is longer than `max_block_length`.
pub open spec fn blocks_fit(sizes: Seq<usize>, max_block_length: usize) -> bool {
    forall|i: int| 0 <= i < sizes.len() ==> #[trigger] sizes[i] <= max_block_length
}

/// Two blocks in a row move a voice as one block of their joint length
/// does, and a voice that does not survive the first block does not
/// survive the joint block.
pub proof fn voice_blocks_compose(
    v: Voice,
    envelope: ADSREnvelope,
    sample_frames: int,
    first: usize,
    second: usize,
)
    requires
        envelope.wf(),
        envelope.in_table(v.envelope_state),
        first + second <= envelope.max_block_length,
    ensures
        motion(v.advanced(envelope, first).advanced(envelope, second)) == motion(
            v.advanced(envelope, (first + second) as usize),
        ),
        !v.advanced(envelope, first).survives(sample_frames) ==> !v.advanced(
            envelope,
            (first + second) as usize,
        ).survives(sample_frames),
{
    let joint = (first + second) as usize;
    assert(joint * v.step == first * v.step + second * v.step) by (nonlinear_arith)
        requires
            joint == first + second,
    ;
    assert(0 <= first * v.step && 0 <= second * v.step) by (nonlinear_arith)
        requires
            0 <= first,
            0 <= second,
            0 <= v.step,
    ;
}

/// Processing two blocks in a row leaves the same voices, each with the
/// same motion, as processing one block of their joint length.
pub proof fn blocks_compose(
    voices: Seq<Voice>,
    envelope: ADSREnvelope,
    sample_frames: int,
    first: usize,
    second: usize,
)
    requires
        envelope.wf(),
        forall|i: int| 0 <= i < voices.len() ==> envelope.in_table((#[trigger] voices[i]).envelope_state),
        first + second <= envelope.max_block_length,
    ensures
        motions(
            after_block(
                after_block(voices, envelope, sample_frames, first),
                envelope,
                sample_frames,
                second,
            ),
        ) == motions(after_block(voices, envelope, sample_frames, (first + second) as usize)),
    decreases voices.len(),
{
    let joint = (first + second) as usize;
    let one = after_block(voices, envelope, sample_frames, first);
    let two = after_block(one, envelope, sample_frames, second);
    let both = after_block(voices, envelope, sample_frames, joint);
    if voices.len() == 0 {
        assert(motions(two) =~= motions(both));
    } else {
        let rest = voices.drop_last();
        let v = voices.last();
        blocks_compose(rest, envelope, sample_frames, first, second);
        voice_blocks_compose(v, envelope, sample_frames, first, second);
        let rest_one = after_block(rest, envelope, sample_frames, first);
        let rest_two = after_block(rest_one, envelope, sample_frames, second);
        let rest_both = after_block(rest, envelope, sample_frames, joint);
        let moved = v.advanced(envelope, first);
        if moved.survives(sample_frames) {
            assert(one == rest_one.push(moved));
            assert(one.drop_last() == rest_one);
            assert(one.last() == moved);
            let twice = moved.advanced(envelope, second);
            if twice.survives(sample_frames) {
                assert(two == rest_two.push(twice));
                assert(both == rest_both.push(v.advanced(envelope, joint)));
                assert(motions(two) =~= motions(rest_two).push(motion(twice)));
                assert(motions(both) =~= motions(rest_both).push(motion(v.advanced(envelope, joint))));
            } else {
                assert(two == rest_two);
                assert(both == rest_both);
            }
        } else {
            assert(one == rest_one);
        }
    }
}

/// Every read of a block lies within the buffer that the block needs: the
/// frame under the read head of each of the `block` output frames, and
/// the four frames behind it.
pub proof fn reads_within_needed_frames(position: u64, step: u64, block: int, frame: int)
    requires
        0 <= frame < block,
    ensures
        (position + frame * step) / 0x1_0000_0000 + 4 < needed_frames(position, step, block),
{
    assert(frame * step <= block * step) by (nonlinear_arith)
        requires
            0 <= frame < block,
            0 <= step,
    ;
}

/// Releasing voices that stand at or behind `floor` in the release table
/// stand at or behind `floor + frames` after a block, where they are left.
proof fn release_moves_on(
    voices: Seq<Voice>,
    envelope: ADSREnvelope,
    sample_frames: int,
    frames: usize,
    floor: int,
)
    requires
        envelope.wf(),
        frames <= envelope.max_block_length,
        forall|i: int|
            0 <= i < voices.len() ==> (#[trigger] voices[i]).envelope_state is Release
                && voices[i].envelope_state->Release_0 >= floor && envelope.in_table(
                voices[i].envelope_state,
            ),
    ensures
        forall|i: int|
            0 <= i < after_block(voices, envelope, sample_frames, frames).len() ==> {
                let v = #[trigger] after_block(voices, envelope, sample_frames, frames)[i];
                &&& v.envelope_state is Release
                &&& v.envelope_state->Release_0 >= floor + frames
                &&& envelope.in_table(v.envelope_state)
            },
    decreases voices.len(),
{
    if voices.len() > 0 {
        release_moves_on(voices.drop_last(), envelope, sample_frames, frames, floor);
        assert(voices.last().envelope_state is Release);
    }
}

/// Voices that are all in their release are gone after blocks of any
/// lengths whose joint length is that of the release table.
pub proof fn release_runs_out(
    voices: Seq<Voice>,
    envelope: ADSREnvelope,
    sample_frames: int,
    sizes: Seq<usize>,
)
    requires
        envelope.wf(),
        blocks_fit(sizes, envelope.max_block_length),
        forall|i: int|
            0 <= i < voices.len() ==> (#[trigger] voices[i]).envelope_state.releasing()
                && envelope.in_table(voices[i].envelope_state),
        total_frames(sizes) >= envelope.release_frames,
    ensures
        after_blocks(voices, envelope, sample_frames, sizes).len() == 0,
{
    release_after_blocks(voices, envelope, sample_frames, sizes);
    let left = after_blocks(voices, envelope, sample_frames, sizes);
    if left.len() > 0 {
        assert(envelope.in_table(left[0].envelope_state));
    }
}

proof fn release_after_blocks(
    voices: Seq<Voice>,
    envelope: ADSREnvelope,
    sample_frames: int,
    sizes: Seq<usize>,
)
    requires
        envelope.wf(),
        blocks_fit(sizes, envelope.max_block_length),
        forall|i: int|
            0 <= i < voices.len() ==> (#[trigger] voices[i]).envelope_state.releasing()
                && envelope.in_table(voices[i].envelope_state),
    ensures
        forall|i: int|
            0 <= i < after_blocks(voices, envelope, sample_frames, sizes).len() ==> {
                let v = #[trigger] after_blocks(voices, envelope, sample_frames, sizes)[i];
                &&& v.envelope_state is Release
                &&& v.envelope_state->Release_0 >= total_frames(sizes)
                &&& envelope.in_table(v.envelope_state)
            },
    decreases sizes.len(),
{
    if sizes.len() > 0 {
        let earlier = sizes.drop_last();
        assert forall|i: int| 0 <= i < earlier.len() implies #[trigger] earlier[i] <= envelope.max_block_length by {
            assert(earlier[i] == sizes[i]);
        }
        release_after_blocks(voices, envelope, sample_frames, earlier);
        let before = after_blocks(voices, envelope, sample_frames, earlier);
        assert(sizes.last() == sizes[sizes.len() - 1]);
        release_moves_on(before, envelope, sample_frames, sizes.last(), total_frames(earlier));
    }
}

/// A voice that has entered its release never leaves it but to become
/// inactive, and keeps the level at which it was released.
pub proof fn release_is_final(v: Voice, envelope: ADSREnvelope, frames: usize)
    requires
        v.envelope_state.releasing(),
    ensures
        v.released() == v,
        v.advanced(envelope, frames).envelope_state.releasing() || v.advanced(
            envelope,
            frames,
        ).envelope_state is Inactive,
        v.advanced(envelope, frames).release_start_level == v.release_start_level,
{
}

/// After every note has ended, every voice is in its release.
pub proof fn all_notes_off_releases(voices: Seq<Voice>, envelope: ADSREnvelope)
    requires
        envelope.wf(),
        forall|i: int|
            0 <= i < voices.len() ==> (#[trigger] voices[i]).envelope_state.active() && envelope.in_table(
                voices[i].envelope_state,
            ),
    ensures
        after_all_notes_off(voices).len() == voices.len(),
        forall|i: int|
            0 <= i < voices.len() ==> (#[trigger] after_all_notes_off(voices)[i]).envelope_state.releasing()
                && envelope.in_table(after_all_notes_off(voices)[i].envelope_state),
{
}

impl Sample {
    /// A player without voices for a sample of `frames` frames.
    ///
    /// Returns `None` where the envelope is not laid out for
    /// `max_block_length`, or where the sample or its padded buffer is
    /// longer than a position or a length can say.
    pub fn new(frames: usize, max_block_length: usize, envelope: ADSREnvelope) -> (r: Option<Self>)
        ensures
            match SampleState::fresh(frames as int, max_block_length, envelope) {
                Some(s) => r is Some && r->0@ == s && s.wf(),
                None => r is None,
            },
    {
        if max_block_length == 0 || envelope.max_block_length != max_block_length
            || envelope.attack_decay_frames < max_block_length || envelope.release_frames
            < max_block_length || envelope.audible_release_frames > envelope.release_frames {
            return None;
        }
        if frames as u64 >= FRAME {
            return None;
        }
        let blocks: u128 = (frames / max_block_length) as u128 + 2;
        assert(blocks * max_block_length <= 0x1_0000_0002 * 0x1_0000_0000_0000_0000)
            by (nonlinear_arith)
            requires
                0 <= blocks <= 0x1_0000_0002,
                0 <= max_block_length <= 0x1_0000_0000_0000_0000,
        ;
        let padded: u128 = blocks * (max_block_length as u128);
        if padded > u64::MAX as u128 {
            return None;
        }
        Some(
            Sample {
                voices: Vec::new(),
                rendered: Vec::new(),
                frames,
                buffer_frames: padded as u64,
                max_block_length,
                envelope,
            },
        )
    }

    /// Whether the player is well-formed.
    pub fn is_wf(&self) -> (r: bool)
        ensures
            r == self@.wf(),
    {
        let e = &self.envelope;
        if e.max_block_length == 0 || e.attack_decay_frames < e.max_block_length || e.release_frames
            < e.max_block_length || e.audible_release_frames > e.release_frames || e.max_block_length
            != self.max_block_length || self.frames as u64 >= FRAME {
            return false;
        }
        let mut i: usize = 0;
        while i < self.voices.len()
            invariant
                i <= self.voices.len(),
                self.envelope.wf(),
                *e == self.envelope,
                forall|k: int|
                    0 <= k < i ==> (#[trigger] self.voices@[k]).envelope_state.active()
                        && self.envelope.in_table(self.voices@[k].envelope_state),
            decreases self.voices.len() - i,
        {
            let fits = match self.voices[i].envelope_state {
                State::AttackDecay(pos) => pos <= e.attack_decay_frames - e.max_block_length,
                State::Release(pos) => pos <= e.release_frames - e.max_block_length,
                State::Sustain => true,
                State::Inactive => false,
            };
            if !fits {
                assert(!(self@.voices[i as int].envelope_state.active() && self.envelope.in_table(
                    self@.voices[i as int].envelope_state,
                )));
                return false;
            }
            i += 1;
        }
        true
    }

    /// Whether a voice sounds.
    pub fn is_playing(&self) -> (r: bool)
        ensures
            r == self@.playing(),
    {
        self.voices.len() > 0
    }

    /// Whether a voice plays `note` and is not in its release.
    pub fn is_playing_note(&self, note: u8) -> (r: bool)
        ensures
            r == self@.playing_note(note),
    {
        let mut i: usize = 0;
        while i < self.voices.len()
            invariant
                i <= self.voices.len(),
                forall|k: int| 0 <= k < i ==> !(#[trigger] self.voices@[k]).holds(note),
            decreases self.voices.len() - i,
        {
            let v = self.voices[i];
            if v.note == note && !v.envelope_state.is_releasing() {
                assert(self@.voices[i as int].holds(note));
                return true;
            }
            i += 1;
        }
        false
    }

    /// Whether a voice plays `note` and is in its release.
    pub fn is_releasing_note(&self, note: u8) -> (r: bool)
        ensures
            r == self@.releasing_note(note),
    {
        let mut i: usize = 0;
        while i < self.voices.len()
            invariant
                i <= self.voices.len(),
                forall|k: int|
                    0 <= k < i ==> !((#[trigger] self.voices@[k]).note == note
                        && self.voices@[k].envelope_state.releasing()),
            decreases self.voices.len() - i,
        {
            let v = self.voices[i];
            if v.note == note && v.envelope_state.is_releasing() {
                return true;
            }
            i += 1;
        }
        false
    }

    /// Whether a voice plays `note`, in its release or not.
    pub fn is_sounding_note(&self, note: u8) -> (r: bool)
        ensures
            r == self@.sounding_note(note),
    {
        let mut i: usize = 0;
        while i < self.voices.len()
            invariant
                i <= self.voices.len(),
                forall|k: int| 0 <= k < i ==> (#[trigger] self.voices@[k]).note != note,
            decreases self.voices.len() - i,
        {
            if self.voices[i].note == note {
                return true;
            }
            i += 1;
        }
        false
    }

    /// Strikes `note`: ends the voices that hold it, and starts a new voice
    /// that reads the sample in steps of `step`.
    pub fn note_on(&mut self, note: u8, step: u64, strike: Strike)
        requires
            old(self)@.wf(),
        ensures
            final(self)@ == old(self)@.note_on(note, step, strike),
            final(self)@.wf(),
    {
        self.note_off(note);
        self.voices.push(Voice::new(note, step, strike));
    }

    /// Ends `note`: every voice that holds it enters its release.
    pub fn note_off(&mut self, note: u8)
        requires
            old(self)@.wf(),
        ensures
            final(self)@ == old(self)@.note_off(note),
            final(self)@.wf(),
    {
        let mut i: usize = 0;
        while i < self.voices.len()
            invariant
                i <= self.voices.len(),
                self.voices.len() == old(self).voices.len(),
                self.rendered == old(self).rendered,
                self.frames == old(self).frames,
                self.buffer_frames == old(self).buffer_frames,
                self.max_block_length == old(self).max_block_length,
                self.envelope == old(self).envelope,
                old(self)@.wf(),
                forall|k: int|
                    0 <= k < i ==> self.voices@[k] == #[trigger] after_note_off(
                        old(self).voices@,
                        note,
                    )[k],
                forall|k: int| i <= k < self.voices.len() ==> self.voices@[k] == old(self).voices@[k],
            decreases self.voices.len() - i,
        {
            let mut v = self.voices[i];
            if v.note == note {
                v.release();
                self.voices[i] = v;
            }
            i += 1;
        }
        assert(self.voices@ =~= after_note_off(old(self).voices@, note));
    }

    /// Ends every note: every voice enters its release.
    pub fn all_notes_off(&mut self)
        requires
            old(self)@.wf(),
        ensures
            final(self)@ == old(self)@.all_notes_off(),
            final(self)@.wf(),
    {
        let mut i: usize = 0;
        while i < self.voices.len()
            invariant
                i <= self.voices.len(),
                self.voices.len() == old(self).voices.len(),
                self.rendered == old(self).rendered,
                self.frames == old(self).frames,
                self.buffer_frames == old(self).buffer_frames,
                self.max_block_length == old(self).max_block_length,
                self.envelope == old(self).envelope,
                old(self)@.wf(),
                forall|k: int|
                    0 <= k < i ==> self.voices@[k] == #[trigger] after_all_notes_off(
                        old(self).voices@,
                    )[k],
                forall|k: int| i <= k < self.voices.len() ==> self.voices@[k] == old(self).voices@[k],
            decreases self.voices.len() - i,
        {
            let mut v = self.voices[i];
            v.release();
            self.voices[i] = v;
            i += 1;
        }
        assert(self.voices@ =~= after_all_notes_off(old(self).voices@));
    }

    /// Plays a block of `frames` output frames.
    ///
    /// The voices as they stand at the start of the block are kept in
    /// `rendered`: the renderer plays `frames` frames of each.  Before
    /// that the buffer length is raised to what the voices need.
    /// Afterwards every voice is moved on by the block, and the voices
    /// that have reached the end of the sample or of their envelope are
    /// gone.
    pub fn process(&mut self, frames: usize)
        requires
            old(self)@.wf(),
            frames <= old(self).max_block_length,
        ensures
            final(self)@ == old(self)@.process(frames),
            final(self)@.wf(),
            forall|i: int|
                0 <= i < final(self).voices.len() ==> (#[trigger] final(self).voices@[i]).survives(
                    final(self).frames as int,
                ),
    {
        self.rendered.clear();
        core::mem::swap(&mut self.voices, &mut self.rendered);
        let mut buffer: u64 = self.buffer_frames;
        let block = self.max_block_length;
        let mut i: usize = 0;
        assert(self.rendered@.take(0) == Seq::<Voice>::empty());
        while i < self.rendered.len()
            invariant
                i <= self.rendered.len(),
                self.rendered@ == old(self).voices@,
                self.frames == old(self).frames,
                self.buffer_frames == old(self).buffer_frames,
                self.max_block_length == old(self).max_block_length,
                self.envelope == old(self).envelope,
                old(self)@.wf(),
                block == self.max_block_length,
                frames <= block,
                self.voices@ == after_block(
                    self.rendered@.take(i as int),
                    self.envelope,
                    self.frames as int,
                    frames,
                ),
                buffer == grown(self.buffer_frames, self.rendered@.take(i as int), block as int),
            decreases self.rendered.len() - i,
        {
            let v = self.rendered[i];
            proof {
                assert(self.rendered@.take(i + 1).drop_last() == self.rendered@.take(i as int));
                assert(self.rendered@.take(i + 1).last() == v);
                assert(old(self)@.voices[i as int] == v);
            }
            assert(v.position + block * v.step + 0xffff_ffff < 0x1_0000_0000_0000_0000_0000_0000_0000_0000)
                by (nonlinear_arith)
                requires
                    0 <= v.position < 0x1_0000_0000_0000_0000,
                    0 <= block < 0x1_0000_0000_0000_0000,
                    0 <= v.step < 0x1_0000_0000_0000_0000,
            ;
            let reach: u128 = v.position as u128 + (block as u128) * (v.step as u128);
            let needed: u128 = (reach + 0xffff_ffff) / 0x1_0000_0000 + 5;
            if needed > buffer as u128 {
                buffer = if needed > u64::MAX as u128 { u64::MAX } else { needed as u64 };
            }
            assert(frames * v.step <= block * v.step) by (nonlinear_arith)
                requires
                    0 <= frames <= block,
                    0 <= v.step,
            ;
            let end: u128 = v.position as u128 + (frames as u128) * (v.step as u128);
            let position: u64 = if end > u64::MAX as u128 { u64::MAX } else { end as u64 };
            let (_segment, start) = self.envelope.active_envelope(v.envelope_state);
            let level = self.envelope.level_reached(v.envelope_state, frames);
            let mut state = v.envelope_state;
            self.envelope.update_state(&mut state, start + frames);
            let moved = Voice {
                position,
                envelope_state: state,
                last_envelope_level: level,
                ..v
            };
            assert(moved == v.advanced(self.envelope, frames));
            if moved.position < (self.frames as u64) * FRAME && moved.envelope_state.is_active() {
                self.voices.push(moved);
            }
            i += 1;
        }
        proof {
            assert(self.rendered@.take(self.rendered.len() as int) == self.rendered@);
            after_block_survivors(self.rendered@, self.envelope, self.frames as int, frames);
        }
        self.buffer_frames = buffer;
    }
}

} // verus!
