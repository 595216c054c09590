//! Splitting a host's block around the events in it.
//!
//! A host hands over a block of output frames together with the events that
//! fall into it, each with the frame at which it takes effect.  The engine
//! plays the frames before an event, takes the event, and goes on; and it
//! plays no more than its largest block at a time.

use vstd::prelude::*;

verus! {

/// The frame at which an event with time stamp `timestamp` takes effect in
/// a block of `frames` frames of which `offset` have been played: the time
/// stamp itself, but not before `offset` and not behind `frames`.
pub open spec fn frame_of_event(offset: int, timestamp: int, frames: int) -> int {
    if timestamp < offset {
        offset
    } else if timestamp > frames {
        frames
    } else {
        timestamp
    }
}

/// The end of the next piece to play, where the frames from `offset` up to
/// `until` are due and no piece may be longer than `max_block_length`.
pub open spec fn end_of_piece(offset: int, until: int, max_block_length: int) -> int {
    if until - offset > max_block_length {
        offset + max_block_length
    } else {
        until
    }
}

/// The frame at which an event takes effect.
pub fn event_frame(offset: usize, timestamp: i64, frames: usize) -> (frame: usize)
    requires
        offset <= frames,
    ensures
        frame == frame_of_event(offset as int, timestamp as int, frames as int),
        offset <= frame <= frames,
{
    if timestamp < 0 {
        offset
    } else if (timestamp as u64) < offset as u64 {
        offset
    } else if timestamp as u64 > frames as u64 {
        frames
    } else {
        timestamp as usize
    }
}

/// The end of the next piece to play.
pub fn piece_end(offset: usize, until: usize, max_block_length: usize) -> (end: usize)
    requires
        offset <= until,
    ensures
        end == end_of_piece(offset as int, until as int, max_block_length as int),
        offset <= end <= until,
        end - offset <= max_block_length,
        max_block_length > 0 && offset < until ==> offset < end,
{
    if until - offset > max_block_length {
        offset + max_block_length
    } else {
        until
    }
}

} // verus!
