//! The player of SMAF sounds that Java programs see.

use vstd::prelude::*;

verus! {

/// A player: the handle of its sound, as Java keeps it, and how often the sound is
/// played.
#[derive(Clone, Copy, Debug, PartialEq, Eq, Structural)]
pub struct SmafPlayer {
    pub audio_handle: i32,
    pub loop_count: i32,
}

/// A handle as Java keeps it: from half of its range on it is negative.
pub open spec fn java_int(handle: u32) -> int {
    if handle < 0x8000_0000 {
        handle as int
    } else {
        handle - 0x1_0000_0000
    }
}

fn to_java(handle: u32) -> (r: i32)
    ensures
        r == java_int(handle),
{
    if handle < 0x8000_0000 {
        handle as i32
    } else {
        (handle as i64 - 0x1_0000_0000) as i32
    }
}

impl SmafPlayer {
    /// The handle of the player's sound.
    pub open spec fn handle_spec(self) -> int {
        if self.audio_handle >= 0 {
            self.audio_handle as int
        } else {
            self.audio_handle + 0x1_0000_0000
        }
    }

    /// A player for a sound, which it plays once.
    pub fn init(handle: u32) -> (r: Self)
        ensures
            r.audio_handle == java_int(handle),
            r.handle_spec() == handle,
            r.loop_count == 1,
    {
        SmafPlayer { audio_handle: to_java(handle), loop_count: 1 }
    }

    /// The handle of the player's sound: what is stopped and closed.
    pub fn handle(&self) -> (r: u32)
        ensures
            r == self.handle_spec(),
    {
        if self.audio_handle >= 0 {
            self.audio_handle as u32
        } else {
            (self.audio_handle as i64 + 0x1_0000_0000) as u32
        }
    }

    /// What is played, and how often.
    pub fn start(&self) -> (r: (u32, i32))
        ensures
            r.0 == self.handle_spec(),
            r.1 == self.loop_count,
    {
        (self.handle(), self.loop_count)
    }

    /// Plays as often as `loop_count` says from now on.
    pub fn set_loop_count(&mut self, loop_count: i32)
        ensures
            *final(self) == (SmafPlayer { loop_count, ..*old(self) }),
    {
        self.loop_count = loop_count;
    }
}

/// A handle is kept bit for bit, so that no two handles are kept as one.
pub proof fn lemma_handles_are_kept(one: u32, other: u32)
    ensures
        java_int(one) == one as i32,
        one != other ==> java_int(one) != java_int(other),
        (SmafPlayer { audio_handle: one as i32, loop_count: 1 }).handle_spec() == one,
{
    assert(one < 0x8000_0000 ==> one as i32 == one) by (bit_vector);
    assert(one >= 0x8000_0000 ==> one as i32 == one - 0x1_0000_0000) by (bit_vector);
}

} // verus!
