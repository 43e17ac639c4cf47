//! The media clips of an LGT guest. A clip is a record in the guest's memory; the
//! records of a process form a doubly linked list.

use vstd::prelude::*;

use crate::audio::AudioHandle;
use crate::guest::{GuestError, WIPICContext};

verus! {

use crate::bytes::le32;
use crate::guest::{
    attempted,
    content,
    lemma_stored,
    lemma_stored_apart,
    nth_address,
    readable,
    stored,
    GuestMemory,
    Request,
    ADDRESS_SPACE,
};
use crate::pixel::word_byte;

/// Where the address of a process's media state stands.
pub const MEDIA_STATE_ROOT: u32 = 0x7fff100c;

pub const PLAYER_ALLOCATED: u32 = 0x1000;

pub const PLAYING: u32 = 0x01;

pub const STOPPING: u32 = 0x02;

/// The player handle of a clip without a player.
pub const NO_PLAYER: i32 = -1;

/// The service failed, or the clip is in no state for it.
pub const FAILED: i32 = -1;

/// The clip plays.
pub const BUSY: i32 = -8;

/// There is no such clip, or an argument is not valid.
pub const INVALID: i32 = -9;

/// A clip of this kind cannot be stopped.
pub const NOT_STOPPABLE: i32 = -16;

/// The clip has no buffer.
pub const NO_BUFFER: i32 = -17;

/// Size of a clip record.
pub const CLIP_SIZE: usize = 88;

/// Size of the media state.
pub const STATE_SIZE: usize = 12;

/// The list of a process's clips.
#[derive(Clone, Copy, Debug, PartialEq, Eq, Structural)]
pub struct MediaState {
    pub first_clip: u32,
    pub last_clip: u32,
    pub clip_count: u32,
}

/// A clip record.
#[derive(Clone, Copy, Debug, PartialEq, Eq, Structural)]
pub struct LgtClip {
    pub next: u32,
    pub previous: u32,
    pub device_id: i32,
    pub player_handle: i32,
    pub device_capabilities: u32,
    pub state_flags: u32,
    pub media_kind: u32,
    pub buffer_capacity: i32,
    pub available_bytes: i32,
    pub watermark_percent: i32,
    pub read_offset: i32,
    pub callback: u32,
    pub copied_type_string: u32,
    pub callback_user_data: u32,
    pub primary_buffer: u32,
    pub tone_buffer_0: u32,
    pub tone_buffer_1: u32,
    pub tone_buffer_2: u32,
    pub duration_buffer: u32,
    pub owning_process: u32,
    pub allocator_interface: u32,
    pub optional_vam_metadata: u32,
}

/// Word `k` of a record.
pub open spec fn word(bytes: Seq<u8>, k: int) -> u32 {
    le32(bytes, 4 * k) as u32
}

/// The words as bytes, lowest first.
pub open spec fn bytes_of(words: Seq<u32>) -> Seq<u8> {
    Seq::new(words.len() * 4, |i: int| word_byte(words[i / 4] as int, i % 4))
}

impl MediaState {
    pub open spec fn words(self) -> Seq<u32> {
        seq![self.first_clip, self.last_clip, self.clip_count]
    }

    pub open spec fn decoded(bytes: Seq<u8>) -> MediaState {
        MediaState {
            first_clip: word(bytes, 0),
            last_clip: word(bytes, 1),
            clip_count: word(bytes, 2),
        }
    }
}

impl LgtClip {
    pub open spec fn words(self) -> Seq<u32> {
        seq![
            self.next,
            self.previous,
            self.device_id as u32,
            self.player_handle as u32,
            self.device_capabilities,
            self.state_flags,
            self.media_kind,
            self.buffer_capacity as u32,
            self.available_bytes as u32,
            self.watermark_percent as u32,
            self.read_offset as u32,
            self.callback,
            self.copied_type_string,
            self.callback_user_data,
            self.primary_buffer,
            self.tone_buffer_0,
            self.tone_buffer_1,
            self.tone_buffer_2,
            self.duration_buffer,
            self.owning_process,
            self.allocator_interface,
            self.optional_vam_metadata,
        ]
    }

    pub open spec fn decoded(bytes: Seq<u8>) -> LgtClip {
        LgtClip {
            next: word(bytes, 0),
            previous: word(bytes, 1),
            device_id: word(bytes, 2) as i32,
            player_handle: word(bytes, 3) as i32,
            device_capabilities: word(bytes, 4),
            state_flags: word(bytes, 5),
            media_kind: word(bytes, 6),
            buffer_capacity: word(bytes, 7) as i32,
            available_bytes: word(bytes, 8) as i32,
            watermark_percent: word(bytes, 9) as i32,
            read_offset: word(bytes, 10) as i32,
            callback: word(bytes, 11),
            copied_type_string: word(bytes, 12),
            callback_user_data: word(bytes, 13),
            primary_buffer: word(bytes, 14),
            tone_buffer_0: word(bytes, 15),
            tone_buffer_1: word(bytes, 16),
            tone_buffer_2: word(bytes, 17),
            duration_buffer: word(bytes, 18),
            owning_process: word(bytes, 19),
            allocator_interface: word(bytes, 20),
            optional_vam_metadata: word(bytes, 21),
        }
    }

    /// Some of the flags are set.
    pub open spec fn has(self, flags: u32) -> bool {
        self.state_flags & flags != 0
    }
}

proof fn lemma_word_of_bytes(words: Seq<u32>, k: int)
    requires
        0 <= k < words.len(),
    ensures
        word(bytes_of(words), k) == words[k],
{
    let v = words[k];
    let b = bytes_of(words);
    assert(b[4 * k] == word_byte(v as int, 0));
    assert(b[4 * k + 1] == word_byte(v as int, 1));
    assert(b[4 * k + 2] == word_byte(v as int, 2));
    assert(b[4 * k + 3] == word_byte(v as int, 3));
    assert(v as int == v as int % 256 + 256 * (v as int / 256 % 256) + 65536 * (v as int / 65536
        % 256) + 16777216 * (v as int / 16777216 % 256));
}

proof fn lemma_signed_word(v: i32)
    ensures
        (v as u32) as i32 == v,
{
    assert((v as u32) as i32 == v) by (bit_vector);
}

/// A record that was written reads back as it was.
pub proof fn lemma_clip_round_trip(clip: LgtClip)
    ensures
        LgtClip::decoded(bytes_of(clip.words())) == clip,
        bytes_of(clip.words()).len() == CLIP_SIZE,
{
    let w = clip.words();
    assert forall|k: int| 0 <= k < 22 implies word(bytes_of(w), k) == w[k] by {
        lemma_word_of_bytes(w, k);
    }
    lemma_signed_word(clip.device_id);
    lemma_signed_word(clip.player_handle);
    lemma_signed_word(clip.buffer_capacity);
    lemma_signed_word(clip.available_bytes);
    lemma_signed_word(clip.watermark_percent);
    lemma_signed_word(clip.read_offset);
}

/// The media state reads back as it was written.
pub proof fn lemma_state_round_trip(state: MediaState)
    ensures
        MediaState::decoded(bytes_of(state.words())) == state,
        bytes_of(state.words()).len() == STATE_SIZE,
{
    let w = state.words();
    assert forall|k: int| 0 <= k < 3 implies word(bytes_of(w), k) == w[k] by {
        lemma_word_of_bytes(w, k);
    }
}

fn word_at(bytes: &Vec<u8>, k: usize) -> (r: u32)
    requires
        k < 100,
        4 * k + 4 <= bytes@.len(),
    ensures
        r == word(bytes@, k as int),
{
    bytes[4 * k] as u32 + 256 * bytes[4 * k + 1] as u32 + 65536 * bytes[4 * k + 2] as u32
        + 16777216 * bytes[4 * k + 3] as u32
}

fn to_bytes(words: &Vec<u32>) -> (r: Vec<u8>)
    ensures
        r@ == bytes_of(words@),
{
    let mut bytes: Vec<u8> = Vec::new();
    let mut index: usize = 0;
    while index < words.len()
        invariant
            index <= words@.len(),
            bytes@.len() == index * 4,
            forall|i: int|
                0 <= i < index * 4 ==> (#[trigger] bytes@[i]) == word_byte(
                    words@[i / 4] as int,
                    i % 4,
                ),
        decreases words@.len() - index,
    {
        let word = words[index];
        bytes.push((word % 256) as u8);
        bytes.push((word / 0x100 % 256) as u8);
        bytes.push((word / 0x10000 % 256) as u8);
        bytes.push((word / 0x1000000 % 256) as u8);
        index += 1;
    }
    assert(bytes@ =~= bytes_of(words@));
    bytes
}

// ---------------------------------------------------------------------------
// Records in memory

/// The record at `address`.
#[verifier::opaque]
pub open spec fn clip_at(memory: GuestMemory, address: u32) -> LgtClip {
    LgtClip::decoded(content(memory, address, CLIP_SIZE as int))
}

/// The memory with a record at `address`.
#[verifier::opaque]
pub open spec fn with_clip(memory: GuestMemory, address: u32, clip: LgtClip) -> GuestMemory {
    stored(memory, address, bytes_of(clip.words()))
}

/// The memory with the media state at `address`.
#[verifier::opaque]
pub open spec fn with_state(memory: GuestMemory, address: u32, state: MediaState) -> GuestMemory {
    stored(memory, address, bytes_of(state.words()))
}

/// The memory after a record was written at `address`, as far as that can be done.
pub open spec fn clip_attempted<C: WIPICContext>(
    context: C,
    memory: GuestMemory,
    address: u32,
    clip: LgtClip,
) -> GuestMemory {
    attempted(context, memory, address, bytes_of(clip.words()))
}

/// The memory after the media state was written at `address`, as far as that can be
/// done.
pub open spec fn state_attempted<C: WIPICContext>(
    context: C,
    memory: GuestMemory,
    address: u32,
    state: MediaState,
) -> GuestMemory {
    attempted(context, memory, address, bytes_of(state.words()))
}

/// Where the media state stands, if it can be found: its address is not 0 and it
/// can be read.
pub open spec fn media_state(memory: GuestMemory) -> Option<(u32, MediaState)> {
    let address = word(content(memory, MEDIA_STATE_ROOT, 4), 0);
    if readable(memory, MEDIA_STATE_ROOT, 4) && address != 0 && readable(
        memory,
        address,
        STATE_SIZE as int,
    ) {
        Some((address, MediaState::decoded(content(memory, address, STATE_SIZE as int))))
    } else {
        None
    }
}

/// The place for the media state's address holds 0.
pub open spec fn is_unset(memory: GuestMemory) -> bool {
    readable(memory, MEDIA_STATE_ROOT, 4) && word(content(memory, MEDIA_STATE_ROOT, 4), 0) == 0
}

/// The error of a service that needs a media state that was never set up.
pub open spec fn says_unset<T>(r: Result<T, GuestError>) -> bool {
    r matches Err(GuestError::FatalError(text)) && text@ == "LGT media state is not initialized"@
}

/// The record of `wanted` among `remaining` clips from `current` on. The search
/// ends at a record that cannot be read.
pub open spec fn find_from(
    memory: GuestMemory,
    current: u32,
    remaining: nat,
    wanted: u32,
) -> Option<LgtClip>
    decreases remaining,
{
    if current == 0 || remaining == 0 || !readable(memory, current, CLIP_SIZE as int) {
        None
    } else if current == wanted {
        Some(clip_at(memory, current))
    } else {
        find_from(memory, clip_at(memory, current).next, (remaining - 1) as nat, wanted)
    }
}

/// The record of `wanted` in the process's list: `Err` where there is no media
/// state.
pub open spec fn found(memory: GuestMemory, wanted: u32) -> Result<Option<LgtClip>, ()> {
    if wanted == 0 {
        Ok(None)
    } else {
        match media_state(memory) {
            Some((_, state)) => Ok(
                find_from(memory, state.first_clip, state.clip_count as nat, wanted),
            ),
            None => Err(()),
        }
    }
}

/// The media state and where it stands.
pub fn state<C: WIPICContext>(context: &C) -> (r: Result<(u32, MediaState), GuestError>)
    ensures
        r is Ok <==> media_state(context.memory()) is Some,
        r matches Ok(found) ==> media_state(context.memory()) == Some(found),
        is_unset(context.memory()) ==> says_unset(r),
{
    let root = match context.read_bytes(MEDIA_STATE_ROOT, 4) {
        Ok(root) => root,
        Err(error) => return Err(error),
    };
    let address = word_at(&root, 0);
    if address == 0 {
        return Err(GuestError::FatalError("LGT media state is not initialized".to_owned()));
    }
    let bytes = match context.read_bytes(address, STATE_SIZE) {
        Ok(bytes) => bytes,
        Err(error) => return Err(error),
    };
    Ok(
        (
            address,
            MediaState {
                first_clip: word_at(&bytes, 0),
                last_clip: word_at(&bytes, 1),
                clip_count: word_at(&bytes, 2),
            },
        ),
    )
}

fn write_state<C: WIPICContext>(context: &mut C, address: u32, state: MediaState) -> (r: Result<
    (),
    GuestError,
>)
    ensures
        r is Ok <==> old(context).writable(address, STATE_SIZE as int),
        final(context).memory() == if r is Ok {
            with_state(old(context).memory(), address, state)
        } else {
            state_attempted(*old(context), old(context).memory(), address, state)
        },
        final(context).requests() == old(context).requests(),
        forall|a: u32, n: int| #[trigger]
            final(context).writable(a, n) == old(context).writable(a, n),
        forall|a: u32, n: int| #[trigger] final(context).reach(a, n) == old(context).reach(a, n),
{
    let words = vec![state.first_clip, state.last_clip, state.clip_count];
    proof {
        reveal(with_state);
        lemma_state_round_trip(state);
    }
    assert(words@ =~= state.words());
    let bytes = to_bytes(&words);
    context.write_bytes(address, bytes.as_slice())
}

/// Reads a record.
pub fn read_clip<C: WIPICContext>(context: &C, clip: u32) -> (r: Result<LgtClip, GuestError>)
    ensures
        r is Ok <==> readable(context.memory(), clip, CLIP_SIZE as int),
        r matches Ok(found) ==> found == clip_at(context.memory(), clip),
{
    proof {
        reveal(clip_at);
    }
    let bytes = match context.read_bytes(clip, CLIP_SIZE) {
        Ok(bytes) => bytes,
        Err(error) => return Err(error),
    };
    Ok(
        LgtClip {
            next: word_at(&bytes, 0),
            previous: word_at(&bytes, 1),
            device_id: word_at(&bytes, 2) as i32,
            player_handle: word_at(&bytes, 3) as i32,
            device_capabilities: word_at(&bytes, 4),
            state_flags: word_at(&bytes, 5),
            media_kind: word_at(&bytes, 6),
            buffer_capacity: word_at(&bytes, 7) as i32,
            available_bytes: word_at(&bytes, 8) as i32,
            watermark_percent: word_at(&bytes, 9) as i32,
            read_offset: word_at(&bytes, 10) as i32,
            callback: word_at(&bytes, 11),
            copied_type_string: word_at(&bytes, 12),
            callback_user_data: word_at(&bytes, 13),
            primary_buffer: word_at(&bytes, 14),
            tone_buffer_0: word_at(&bytes, 15),
            tone_buffer_1: word_at(&bytes, 16),
            tone_buffer_2: word_at(&bytes, 17),
            duration_buffer: word_at(&bytes, 18),
            owning_process: word_at(&bytes, 19),
            allocator_interface: word_at(&bytes, 20),
            optional_vam_metadata: word_at(&bytes, 21),
        },
    )
}

/// Writes a record.
pub fn write_clip<C: WIPICContext>(context: &mut C, clip: u32, value: LgtClip) -> (r: Result<
    (),
    GuestError,
>)
    ensures
        r is Ok <==> old(context).writable(clip, CLIP_SIZE as int),
        final(context).memory() == if r is Ok {
            with_clip(old(context).memory(), clip, value)
        } else {
            clip_attempted(*old(context), old(context).memory(), clip, value)
        },
        final(context).requests() == old(context).requests(),
        forall|a: u32, n: int| #[trigger]
            final(context).writable(a, n) == old(context).writable(a, n),
        forall|a: u32, n: int| #[trigger] final(context).reach(a, n) == old(context).reach(a, n),
{
    let words = vec![
        value.next,
        value.previous,
        value.device_id as u32,
        value.player_handle as u32,
        value.device_capabilities,
        value.state_flags,
        value.media_kind,
        value.buffer_capacity as u32,
        value.available_bytes as u32,
        value.watermark_percent as u32,
        value.read_offset as u32,
        value.callback,
        value.copied_type_string,
        value.callback_user_data,
        value.primary_buffer,
        value.tone_buffer_0,
        value.tone_buffer_1,
        value.tone_buffer_2,
        value.duration_buffer,
        value.owning_process,
        value.allocator_interface,
        value.optional_vam_metadata,
    ];
    proof {
        reveal(with_clip);
        lemma_clip_round_trip(value);
    }
    assert(words@ =~= value.words());
    let bytes = to_bytes(&words);
    context.write_bytes(clip, bytes.as_slice())
}

/// Looks a clip up in the process's list.
pub fn find_clip<C: WIPICContext>(context: &C, wanted: u32) -> (r: Result<
    Option<LgtClip>,
    GuestError,
>)
    ensures
        match r {
            Ok(clip) => found(context.memory(), wanted) == Ok::<Option<LgtClip>, ()>(clip),
            Err(_) => found(context.memory(), wanted) is Err,
        },
        wanted != 0 && is_unset(context.memory()) ==> says_unset(r),
{
    if wanted == 0 {
        return Ok(None);
    }
    let (_, state) = match state(context) {
        Ok(found) => found,
        Err(error) => return Err(error),
    };
    let mut current: u32 = state.first_clip;
    let mut remaining: u32 = state.clip_count;
    while current != 0 && remaining != 0
        invariant
            wanted != 0,
            media_state(context.memory()) matches Some((_, s)) && s == state,
            !is_unset(context.memory()),
            find_from(context.memory(), current, remaining as nat, wanted) == find_from(
                context.memory(),
                state.first_clip,
                state.clip_count as nat,
                wanted,
            ),
        decreases remaining,
    {
        let clip = match read_clip(context, current) {
            Ok(clip) => clip,
            Err(_) => return Ok(None),
        };
        if current == wanted {
            return Ok(Some(clip));
        }
        current = clip.next;
        remaining -= 1;
    }
    Ok(None)
}

// ---------------------------------------------------------------------------
// The list

/// The count one higher, as far as it goes.
pub open spec fn count_up(count: u32) -> u32 {
    if count == u32::MAX {
        count
    } else {
        (count + 1) as u32
    }
}

/// The count one lower, down to 0.
pub open spec fn count_down(count: u32) -> u32 {
    if count == 0 {
        0
    } else {
        (count - 1) as u32
    }
}

/// The state with a clip behind all others.
pub open spec fn linked_state(state: MediaState, clip: u32) -> MediaState {
    MediaState {
        first_clip: if state.last_clip == 0 {
            clip
        } else {
            state.first_clip
        },
        last_clip: clip,
        clip_count: count_up(state.clip_count),
    }
}

/// The memory in which the last record of the list names `address` as the next.
pub open spec fn named_last(memory: GuestMemory, state: MediaState, address: u32) -> GuestMemory {
    if state.last_clip == 0 {
        memory
    } else {
        with_clip(
            memory,
            state.last_clip,
            LgtClip { next: address, ..clip_at(memory, state.last_clip) },
        )
    }
}

/// The memory with the record `clip` at `address` behind all others of the list.
pub open spec fn linked(
    memory: GuestMemory,
    state_at: u32,
    state: MediaState,
    address: u32,
    clip: LgtClip,
) -> GuestMemory {
    with_state(
        with_clip(
            named_last(memory, state, address),
            address,
            LgtClip { previous: state.last_clip, ..clip },
        ),
        state_at,
        linked_state(state, address),
    )
}

/// The record can be read and written.
pub open spec fn accessible<C: WIPICContext>(
    context: C,
    memory: GuestMemory,
    clip: u32,
) -> bool {
    readable(memory, clip, CLIP_SIZE as int) && context.writable(clip, CLIP_SIZE as int)
}

/// The last record of the list, the new one at `address` and the state can be
/// written.
pub open spec fn linkable<C: WIPICContext>(
    context: C,
    memory: GuestMemory,
    state_at: u32,
    state: MediaState,
    address: u32,
) -> bool {
    &&& state.last_clip == 0 || accessible(context, memory, state.last_clip)
    &&& context.writable(address, CLIP_SIZE as int)
    &&& context.writable(state_at, STATE_SIZE as int)
}

/// What is written of a record that cannot be linked.
pub open spec fn partly_linked<C: WIPICContext>(
    context: C,
    memory: GuestMemory,
    state_at: u32,
    state: MediaState,
    address: u32,
    clip: LgtClip,
) -> GuestMemory {
    let named = named_last(memory, state, address);
    let record = LgtClip { previous: state.last_clip, ..clip };
    if state.last_clip != 0 && !readable(memory, state.last_clip, CLIP_SIZE as int) {
        memory
    } else if state.last_clip != 0 && !context.writable(state.last_clip, CLIP_SIZE as int) {
        clip_attempted(
            context,
            memory,
            state.last_clip,
            LgtClip { next: address, ..clip_at(memory, state.last_clip) },
        )
    } else if !context.writable(address, CLIP_SIZE as int) {
        clip_attempted(context, named, address, record)
    } else {
        state_attempted(
            context,
            with_clip(named, address, record),
            state_at,
            linked_state(state, address),
        )
    }
}

/// Puts a record behind all others of the list.
pub fn link_clip<C: WIPICContext>(
    context: &mut C,
    state_ptr: u32,
    state: MediaState,
    clip_ptr: u32,
    clip: LgtClip,
) -> (r: Result<(), GuestError>)
    ensures
        r is Ok <==> linkable(*old(context), old(context).memory(), state_ptr, state, clip_ptr),
        final(context).memory() == if r is Ok {
            linked(old(context).memory(), state_ptr, state, clip_ptr, clip)
        } else {
            partly_linked(
                *old(context),
                old(context).memory(),
                state_ptr,
                state,
                clip_ptr,
                clip,
            )
        },
        final(context).requests() == old(context).requests(),
        forall|a: u32, n: int| #[trigger]
            final(context).writable(a, n) == old(context).writable(a, n),
        forall|a: u32, n: int| #[trigger] final(context).reach(a, n) == old(context).reach(a, n),
{
    let clip = LgtClip { previous: state.last_clip, ..clip };
    let mut first_clip: u32 = state.first_clip;
    if state.last_clip != 0 {
        let last = match read_clip(context, state.last_clip) {
            Ok(last) => last,
            Err(error) => return Err(error),
        };
        let last = LgtClip { next: clip_ptr, ..last };
        if let Err(error) = write_clip(context, state.last_clip, last) {
            return Err(error);
        }
    } else {
        first_clip = clip_ptr;
    }
    let clip_count: u32 = state.clip_count.saturating_add(1);
    if let Err(error) = write_clip(context, clip_ptr, clip) {
        return Err(error);
    }
    write_state(context, state_ptr, MediaState { first_clip, last_clip: clip_ptr, clip_count })
}

/// The state without `clip`.
pub open spec fn unlinked_state(state: MediaState, clip: LgtClip) -> MediaState {
    MediaState {
        first_clip: if clip.previous == 0 {
            clip.next
        } else {
            state.first_clip
        },
        last_clip: if clip.next == 0 {
            clip.previous
        } else {
            state.last_clip
        },
        clip_count: count_down(state.clip_count),
    }
}

/// The memory after the record before `clip` was made to skip it.
pub open spec fn skipped_forward(memory: GuestMemory, clip: LgtClip) -> GuestMemory {
    if clip.previous == 0 {
        memory
    } else {
        with_clip(
            memory,
            clip.previous,
            LgtClip { next: clip.next, ..clip_at(memory, clip.previous) },
        )
    }
}

/// The memory after the record behind `clip` was made to skip it.
pub open spec fn skipped_back(memory: GuestMemory, clip: LgtClip) -> GuestMemory {
    if clip.next == 0 {
        memory
    } else {
        with_clip(
            memory,
            clip.next,
            LgtClip { previous: clip.previous, ..clip_at(memory, clip.next) },
        )
    }
}

/// The memory without `clip` in the list.
pub open spec fn unlinked(
    memory: GuestMemory,
    state_at: u32,
    state: MediaState,
    clip: LgtClip,
) -> GuestMemory {
    with_state(
        skipped_back(skipped_forward(memory, clip), clip),
        state_at,
        unlinked_state(state, clip),
    )
}

/// The records beside `clip` and the state can be changed.
pub open spec fn unlinkable<C: WIPICContext>(context: C, state_at: u32, clip: LgtClip) -> bool {
    &&& clip.previous == 0 || accessible(context, context.memory(), clip.previous)
    &&& clip.next == 0 || accessible(
        context,
        skipped_forward(context.memory(), clip),
        clip.next,
    )
    &&& context.writable(state_at, STATE_SIZE as int)
}

/// What is written of a record that cannot be unlinked.
pub open spec fn partly_unlinked<C: WIPICContext>(
    context: C,
    state_at: u32,
    state: MediaState,
    clip: LgtClip,
) -> GuestMemory {
    let memory = context.memory();
    let forward = skipped_forward(memory, clip);
    if clip.previous != 0 && !readable(memory, clip.previous, CLIP_SIZE as int) {
        memory
    } else if clip.previous != 0 && !context.writable(clip.previous, CLIP_SIZE as int) {
        clip_attempted(
            context,
            memory,
            clip.previous,
            LgtClip { next: clip.next, ..clip_at(memory, clip.previous) },
        )
    } else if clip.next != 0 && !readable(forward, clip.next, CLIP_SIZE as int) {
        forward
    } else if clip.next != 0 && !context.writable(clip.next, CLIP_SIZE as int) {
        clip_attempted(
            context,
            forward,
            clip.next,
            LgtClip { previous: clip.previous, ..clip_at(forward, clip.next) },
        )
    } else {
        state_attempted(
            context,
            skipped_back(forward, clip),
            state_at,
            unlinked_state(state, clip),
        )
    }
}

/// Takes a record out of the list and frees it.
pub fn unlink_clip<C: WIPICContext>(
    context: &mut C,
    state_ptr: u32,
    state: MediaState,
    clip_ptr: u32,
    clip: LgtClip,
) -> (r: Result<(), GuestError>)
    ensures
        !unlinkable(*old(context), state_ptr, clip) ==> {
            &&& r is Err
            &&& final(context).memory() == partly_unlinked(
                *old(context),
                state_ptr,
                state,
                clip,
            )
            &&& final(context).requests() == old(context).requests()
        },
        unlinkable(*old(context), state_ptr, clip) ==> {
            &&& final(context).memory() == unlinked(old(context).memory(), state_ptr, state, clip)
            &&& final(context).requests() == old(context).requests().push(
                Request::Free { address: clip_ptr, size: CLIP_SIZE as u32, done: r is Ok },
            )
        },
{
    let mut first_clip: u32 = state.first_clip;
    let mut last_clip: u32 = state.last_clip;
    if clip.previous != 0 {
        let previous = match read_clip(context, clip.previous) {
            Ok(previous) => previous,
            Err(error) => return Err(error),
        };
        let previous = LgtClip { next: clip.next, ..previous };
        if let Err(error) = write_clip(context, clip.previous, previous) {
            return Err(error);
        }
    } else {
        first_clip = clip.next;
    }
    if clip.next != 0 {
        let next = match read_clip(context, clip.next) {
            Ok(next) => next,
            Err(error) => return Err(error),
        };
        let next = LgtClip { previous: clip.previous, ..next };
        if let Err(error) = write_clip(context, clip.next, next) {
            return Err(error);
        }
    } else {
        last_clip = clip.previous;
    }
    let clip_count: u32 = state.clip_count.saturating_sub(1);
    if let Err(error) = write_state(
        context,
        state_ptr,
        MediaState { first_clip, last_clip, clip_count },
    ) {
        return Err(error);
    }
    context.free_raw(clip_ptr, CLIP_SIZE as u32)
}

/// Two blocks of memory do not overlap.
pub open spec fn apart(a: u32, size_a: int, b: u32, size_b: int) -> bool {
    a + size_a <= b || b + size_b <= a
}

/// `memory` holds the list of `clips`, with its state at `state_at`: the records
/// lie apart from each other and from the state, and each names its neighbours.
pub open spec fn is_list(
    memory: GuestMemory,
    state_at: u32,
    state: MediaState,
    clips: Seq<u32>,
) -> bool {
    &&& state.clip_count == clips.len()
    &&& state.first_clip == neighbour(clips, 0)
    &&& state.last_clip == neighbour(clips, clips.len() - 1)
    &&& forall|i: int| 0 <= i < clips.len() ==> is_member(memory, state_at, clips, i)
    &&& forall|i: int, j: int|
        0 <= i < j < clips.len() ==> apart(
            #[trigger] clips[i],
            CLIP_SIZE as int,
            #[trigger] clips[j],
            CLIP_SIZE as int,
        )
}

/// The clip at a place of the list, or 0 beside its ends.
pub open spec fn neighbour(clips: Seq<u32>, i: int) -> u32 {
    if 0 <= i < clips.len() {
        clips[i]
    } else {
        0
    }
}

/// The record of clip `i` of the list is as it has to be.
#[verifier::opaque]
pub open spec fn is_member(
    memory: GuestMemory,
    state_at: u32,
    clips: Seq<u32>,
    i: int,
) -> bool {
    &&& clips[i] != 0
    &&& readable(memory, clips[i], CLIP_SIZE as int)
    &&& clip_at(memory, clips[i]).next == neighbour(clips, i + 1)
    &&& clip_at(memory, clips[i]).previous == neighbour(clips, i - 1)
    &&& apart(clips[i], CLIP_SIZE as int, state_at, STATE_SIZE as int)
}

proof fn lemma_find_from(
    memory: GuestMemory,
    state_at: u32,
    state: MediaState,
    clips: Seq<u32>,
    i: int,
    wanted: u32,
)
    requires
        is_list(memory, state_at, state, clips),
        0 <= i <= clips.len(),
        wanted != 0,
    ensures
        find_from(memory, neighbour(clips, i), (clips.len() - i) as nat, wanted) == if (exists|
            j: int,
        |
            i <= j < clips.len() && #[trigger] clips[j] == wanted) {
            Some(clip_at(memory, wanted))
        } else {
            None
        },
    decreases clips.len() - i,
{
    reveal(is_member);
    if i < clips.len() {
        assert(is_member(memory, state_at, clips, i));
        if clips[i] != wanted {
            lemma_find_from(memory, state_at, state, clips, i + 1, wanted);
            let rest = find_from(
                memory,
                clip_at(memory, clips[i]).next,
                (clips.len() - i - 1) as nat,
                wanted,
            );
            assert(find_from(memory, clips[i], (clips.len() - i) as nat, wanted) == rest);
            if exists|j: int| i <= j < clips.len() && #[trigger] clips[j] == wanted {
                let j = choose|j: int| i <= j < clips.len() && #[trigger] clips[j] == wanted;
                assert(i + 1 <= j);
            }
        }
    }
}

/// A lookup finds exactly the clips of the list.
pub proof fn lemma_find_in_list(
    memory: GuestMemory,
    state_at: u32,
    state: MediaState,
    clips: Seq<u32>,
    wanted: u32,
)
    requires
        media_state(memory) == Some((state_at, state)),
        is_list(memory, state_at, state, clips),
        wanted != 0,
    ensures
        found(memory, wanted) == Ok::<Option<LgtClip>, ()>(
            if clips.contains(wanted) {
                Some(clip_at(memory, wanted))
            } else {
                None
            },
        ),
{
    lemma_find_from(memory, state_at, state, clips, 0, wanted);
    if clips.contains(wanted) {
        let j = clips.index_of(wanted);
        assert(clips[j] == wanted);
    }
}

/// Writing one record leaves the others as they are.
proof fn lemma_with_clip(memory: GuestMemory, address: u32, clip: LgtClip)
    requires
        address + CLIP_SIZE <= ADDRESS_SPACE,
    ensures
        readable(with_clip(memory, address, clip), address, CLIP_SIZE as int),
        clip_at(with_clip(memory, address, clip), address) == clip,
        forall|other: u32, size: int|
            0 <= size && #[trigger] apart(address, CLIP_SIZE as int, other, size) && readable(
                memory,
                other,
                size,
            ) ==> {
                &&& readable(with_clip(memory, address, clip), other, size)
                &&& content(with_clip(memory, address, clip), other, size) == content(
                    memory,
                    other,
                    size,
                )
                &&& size == CLIP_SIZE ==> clip_at(with_clip(memory, address, clip), other)
                    == clip_at(memory, other)
            },
{
    reveal(with_clip);
    reveal(clip_at);
    lemma_clip_round_trip(clip);
    lemma_stored(memory, address, bytes_of(clip.words()));
    assert forall|other: u32, size: int|
        0 <= size && #[trigger] apart(address, CLIP_SIZE as int, other, size) && readable(
            memory,
            other,
            size,
        ) implies {
        &&& readable(with_clip(memory, address, clip), other, size)
        &&& content(with_clip(memory, address, clip), other, size) == content(memory, other, size)
        &&& size == CLIP_SIZE ==> clip_at(with_clip(memory, address, clip), other) == clip_at(
            memory,
            other,
        )
    } by {
        lemma_stored_apart(memory, address, bytes_of(clip.words()), other, size);
    }
}

/// Writing the state leaves the records as they are.
proof fn lemma_with_state(memory: GuestMemory, address: u32, state: MediaState)
    requires
        address + STATE_SIZE <= ADDRESS_SPACE,
    ensures
        readable(with_state(memory, address, state), address, STATE_SIZE as int),
        MediaState::decoded(
            content(with_state(memory, address, state), address, STATE_SIZE as int),
        ) == state,
        forall|other: u32|
            #[trigger] apart(other, CLIP_SIZE as int, address, STATE_SIZE as int) && readable(
                memory,
                other,
                CLIP_SIZE as int,
            ) ==> {
                &&& readable(with_state(memory, address, state), other, CLIP_SIZE as int)
                &&& clip_at(with_state(memory, address, state), other) == clip_at(memory, other)
            },
{
    reveal(with_state);
    reveal(clip_at);
    lemma_state_round_trip(state);
    lemma_stored(memory, address, bytes_of(state.words()));
    assert forall|other: u32|
        #[trigger] apart(other, CLIP_SIZE as int, address, STATE_SIZE as int) && readable(
            memory,
            other,
            CLIP_SIZE as int,
        ) implies {
        &&& readable(with_state(memory, address, state), other, CLIP_SIZE as int)
        &&& clip_at(with_state(memory, address, state), other) == clip_at(memory, other)
    } by {
        lemma_stored_apart(memory, address, bytes_of(state.words()), other, CLIP_SIZE as int);
    }
}

/// Linking a new record puts it behind all others of the list.
pub proof fn lemma_link_keeps_list(
    memory: GuestMemory,
    state_at: u32,
    state: MediaState,
    clips: Seq<u32>,
    address: u32,
    clip: LgtClip,
)
    requires
        is_list(memory, state_at, state, clips),
        state_at + STATE_SIZE <= ADDRESS_SPACE,
        clips.len() < u32::MAX,
        address != 0,
        address + CLIP_SIZE <= ADDRESS_SPACE,
        clip.next == 0,
        apart(address, CLIP_SIZE as int, state_at, STATE_SIZE as int),
        forall|i: int|
            0 <= i < clips.len() ==> apart(
                #[trigger] clips[i],
                CLIP_SIZE as int,
                address,
                CLIP_SIZE as int,
            ),
    ensures
        ({
            let after = linked(memory, state_at, state, address, clip);
            &&& is_list(after, state_at, linked_state(state, address), clips.push(address))
            &&& MediaState::decoded(content(after, state_at, STATE_SIZE as int)) == linked_state(
                state,
                address,
            )
            &&& clip_at(after, address) == (LgtClip { previous: state.last_clip, ..clip })
        }),
{
    reveal(is_member);
    let n = clips.len() as int;
    let longer = clips.push(address);
    let record = LgtClip { previous: state.last_clip, ..clip };
    let last = state.last_clip;
    if n > 0 {
        assert(is_member(memory, state_at, clips, n - 1));
    }
    let behind = named_last(memory, state, address);
    if last != 0 {
        lemma_with_clip(memory, last, LgtClip { next: address, ..clip_at(memory, last) });
    }
    let placed = with_clip(behind, address, record);
    lemma_with_clip(behind, address, record);
    let after = linked(memory, state_at, state, address, clip);
    lemma_with_state(placed, state_at, linked_state(state, address));
    assert(apart(address, CLIP_SIZE as int, state_at, STATE_SIZE as int));
    assert forall|i: int| 0 <= i < longer.len() implies is_member(after, state_at, longer, i) by {
        if i < n {
            assert(is_member(memory, state_at, clips, i));
            let c = clips[i];
            assert(apart(c, CLIP_SIZE as int, state_at, STATE_SIZE as int));
            assert(apart(clips[i], CLIP_SIZE as int, address, CLIP_SIZE as int));
            assert(apart(address, CLIP_SIZE as int, c, CLIP_SIZE as int));
            if i < n - 1 {
                assert(apart(clips[i], CLIP_SIZE as int, clips[n - 1], CLIP_SIZE as int));
                assert(apart(last, CLIP_SIZE as int, c, CLIP_SIZE as int));
            }
            assert(readable(behind, c, CLIP_SIZE as int));
            assert(readable(placed, c, CLIP_SIZE as int));
            assert(clip_at(after, c) == clip_at(behind, c));
        }
    }
}

/// Unlinking a record leaves the others in their order.
#[verifier::spinoff_prover]
#[verifier::rlimit(40)]
pub proof fn lemma_unlink_keeps_list(
    memory: GuestMemory,
    state_at: u32,
    state: MediaState,
    clips: Seq<u32>,
    k: int,
    clip: LgtClip,
)
    requires
        is_list(memory, state_at, state, clips),
        state_at + STATE_SIZE <= ADDRESS_SPACE,
        0 <= k < clips.len(),
        clip.next == clip_at(memory, clips[k]).next,
        clip.previous == clip_at(memory, clips[k]).previous,
    ensures
        ({
            let after = unlinked(memory, state_at, state, clip);
            &&& is_list(after, state_at, unlinked_state(state, clip), clips.remove(k))
            &&& MediaState::decoded(content(after, state_at, STATE_SIZE as int))
                == unlinked_state(state, clip)
        }),
{
    reveal(is_member);
    let n = clips.len() as int;
    let shorter = clips.remove(k);
    assert(is_member(memory, state_at, clips, k));
    if k > 0 {
        assert(is_member(memory, state_at, clips, k - 1));
        lemma_with_clip(
            memory,
            clip.previous,
            LgtClip { next: clip.next, ..clip_at(memory, clip.previous) },
        );
    }
    let forward = skipped_forward(memory, clip);
    if k + 1 < n {
        assert(is_member(memory, state_at, clips, k + 1));
        if k > 0 {
            assert(apart(clips[k - 1], CLIP_SIZE as int, clips[k + 1], CLIP_SIZE as int));
        }
        lemma_with_clip(
            forward,
            clip.next,
            LgtClip { previous: clip.previous, ..clip_at(forward, clip.next) },
        );
    }
    let back = skipped_back(forward, clip);
    let after = unlinked(memory, state_at, state, clip);
    lemma_with_state(back, state_at, unlinked_state(state, clip));
    assert forall|i: int| 0 <= i < shorter.len() implies is_member(
        after,
        state_at,
        shorter,
        i,
    ) by {
        let j = if i < k {
            i
        } else {
            i + 1
        };
        assert(is_member(memory, state_at, clips, j));
        let c = clips[j];
        assert(apart(c, CLIP_SIZE as int, state_at, STATE_SIZE as int));
        if k > 0 && j != k - 1 {
            if j < k - 1 {
                assert(apart(clips[j], CLIP_SIZE as int, clips[k - 1], CLIP_SIZE as int));
            } else {
                assert(apart(clips[k - 1], CLIP_SIZE as int, clips[j], CLIP_SIZE as int));
            }
            assert(apart(clip.previous, CLIP_SIZE as int, c, CLIP_SIZE as int));
        }
        assert(readable(forward, c, CLIP_SIZE as int));
        if k + 1 < n && j != k + 1 {
            if j < k + 1 {
                assert(apart(clips[j], CLIP_SIZE as int, clips[k + 1], CLIP_SIZE as int));
            } else {
                assert(apart(clips[k + 1], CLIP_SIZE as int, clips[j], CLIP_SIZE as int));
            }
            assert(apart(clip.next, CLIP_SIZE as int, c, CLIP_SIZE as int));
        }
        assert(readable(back, c, CLIP_SIZE as int));
        assert(clip_at(after, c) == clip_at(back, c));
    }
    assert forall|i: int, j: int| 0 <= i < j < shorter.len() implies apart(
        #[trigger] shorter[i],
        CLIP_SIZE as int,
        #[trigger] shorter[j],
        CLIP_SIZE as int,
    ) by {
        let a = if i < k {
            i
        } else {
            i + 1
        };
        let b = if j < k {
            j
        } else {
            j + 1
        };
        assert(apart(clips[a], CLIP_SIZE as int, clips[b], CLIP_SIZE as int));
    }
}

// ---------------------------------------------------------------------------
// The clips of a process

/// The media state of the process is at `state_at`, its list is that of `clips`, and
/// the place of its address lies apart from all of them.
pub open spec fn is_process(
    memory: GuestMemory,
    state_at: u32,
    state: MediaState,
    clips: Seq<u32>,
) -> bool {
    &&& media_state(memory) == Some((state_at, state))
    &&& is_list(memory, state_at, state, clips)
    &&& apart(state_at, STATE_SIZE as int, MEDIA_STATE_ROOT, 4)
    &&& forall|i: int|
        0 <= i < clips.len() ==> apart(
            #[trigger] clips[i],
            CLIP_SIZE as int,
            MEDIA_STATE_ROOT,
            4,
        )
}

/// Writing the state leaves the place of its address as it is.
proof fn lemma_state_apart_root(memory: GuestMemory, address: u32, state: MediaState)
    requires
        address + STATE_SIZE <= ADDRESS_SPACE,
        apart(address, STATE_SIZE as int, MEDIA_STATE_ROOT, 4),
        readable(memory, MEDIA_STATE_ROOT, 4),
    ensures
        readable(with_state(memory, address, state), MEDIA_STATE_ROOT, 4),
        content(with_state(memory, address, state), MEDIA_STATE_ROOT, 4) == content(
            memory,
            MEDIA_STATE_ROOT,
            4,
        ),
{
    reveal(with_state);
    lemma_state_round_trip(state);
    lemma_stored_apart(memory, address, bytes_of(state.words()), MEDIA_STATE_ROOT, 4);
}

/// A clip that was created can be found, behind all clips that were there before, and
/// they still can.
pub proof fn lemma_created_clip_is_known(
    memory: GuestMemory,
    state_at: u32,
    state: MediaState,
    clips: Seq<u32>,
    address: u32,
    clip: LgtClip,
)
    requires
        is_process(memory, state_at, state, clips),
        clips.len() < u32::MAX,
        address != 0,
        address + CLIP_SIZE <= ADDRESS_SPACE,
        clip.next == 0,
        apart(address, CLIP_SIZE as int, MEDIA_STATE_ROOT, 4),
        apart(address, CLIP_SIZE as int, state_at, STATE_SIZE as int),
        forall|i: int|
            0 <= i < clips.len() ==> apart(
                #[trigger] clips[i],
                CLIP_SIZE as int,
                address,
                CLIP_SIZE as int,
            ),
    ensures
        ({
            let after = linked(memory, state_at, state, address, clip);
            &&& is_process(after, state_at, linked_state(state, address), clips.push(address))
            &&& known(after, address) == Some(LgtClip { previous: state.last_clip, ..clip })
            &&& forall|i: int| 0 <= i < clips.len() ==> known(after, #[trigger] clips[i]) is Some
        }),
{
    reveal(is_member);
    let longer = clips.push(address);
    let n = clips.len() as int;
    let after = linked(memory, state_at, state, address, clip);
    lemma_link_keeps_list(memory, state_at, state, clips, address, clip);
    let last = state.last_clip;
    if n > 0 {
        assert(is_member(memory, state_at, clips, n - 1));
    }
    if last != 0 {
        lemma_with_clip(memory, last, LgtClip { next: address, ..clip_at(memory, last) });
        assert(apart(clips[n - 1], CLIP_SIZE as int, MEDIA_STATE_ROOT, 4));
    }
    let behind = named_last(memory, state, address);
    let record = LgtClip { previous: state.last_clip, ..clip };
    lemma_with_clip(behind, address, record);
    let placed = with_clip(behind, address, record);
    lemma_state_apart_root(placed, state_at, linked_state(state, address));
    lemma_with_state(placed, state_at, linked_state(state, address));
    assert forall|i: int| 0 <= i < longer.len() implies apart(
        #[trigger] longer[i],
        CLIP_SIZE as int,
        MEDIA_STATE_ROOT,
        4,
    ) by {
        if i < n {
            assert(apart(clips[i], CLIP_SIZE as int, MEDIA_STATE_ROOT, 4));
        }
    }
    lemma_find_in_list(after, state_at, linked_state(state, address), longer, address);
    assert(longer[n] == address);
    assert forall|i: int| 0 <= i < clips.len() implies known(after, #[trigger] clips[i]) is Some by {
        assert(is_member(memory, state_at, clips, i));
        assert(longer[i] == clips[i]);
        lemma_find_in_list(after, state_at, linked_state(state, address), longer, clips[i]);
    }
}

/// A clip that was freed cannot be found any more; all others still can.
pub proof fn lemma_freed_clip_is_unknown(
    memory: GuestMemory,
    state_at: u32,
    state: MediaState,
    clips: Seq<u32>,
    k: int,
)
    requires
        is_process(memory, state_at, state, clips),
        0 <= k < clips.len(),
    ensures
        ({
            let clip = clip_at(memory, clips[k]);
            let after = unlinked(memory, state_at, state, clip);
            &&& is_process(after, state_at, unlinked_state(state, clip), clips.remove(k))
            &&& found(after, clips[k]) == Ok::<Option<LgtClip>, ()>(None)
            &&& forall|i: int|
                0 <= i < clips.len() && i != k ==> known(after, #[trigger] clips[i]) is Some
        }),
{
    reveal(is_member);
    let n = clips.len() as int;
    let shorter = clips.remove(k);
    let clip = clip_at(memory, clips[k]);
    let after = unlinked(memory, state_at, state, clip);
    let less = unlinked_state(state, clip);
    assert(is_member(memory, state_at, clips, k));
    lemma_unlink_keeps_list(memory, state_at, state, clips, k, clip);
    if k > 0 {
        assert(is_member(memory, state_at, clips, k - 1));
        lemma_with_clip(
            memory,
            clip.previous,
            LgtClip { next: clip.next, ..clip_at(memory, clip.previous) },
        );
        assert(apart(clips[k - 1], CLIP_SIZE as int, MEDIA_STATE_ROOT, 4));
    }
    let forward = skipped_forward(memory, clip);
    if k + 1 < n {
        assert(is_member(memory, state_at, clips, k + 1));
        lemma_with_clip(
            forward,
            clip.next,
            LgtClip { previous: clip.previous, ..clip_at(forward, clip.next) },
        );
        assert(apart(clips[k + 1], CLIP_SIZE as int, MEDIA_STATE_ROOT, 4));
    }
    let back = skipped_back(forward, clip);
    lemma_state_apart_root(back, state_at, less);
    lemma_with_state(back, state_at, less);
    assert forall|i: int| 0 <= i < shorter.len() implies apart(
        #[trigger] shorter[i],
        CLIP_SIZE as int,
        MEDIA_STATE_ROOT,
        4,
    ) by {
        let j = if i < k {
            i
        } else {
            i + 1
        };
        assert(apart(clips[j], CLIP_SIZE as int, MEDIA_STATE_ROOT, 4));
    }
    assert(!shorter.contains(clips[k])) by {
        if shorter.contains(clips[k]) {
            let i = shorter.index_of(clips[k]);
            let j = if i < k {
                i
            } else {
                i + 1
            };
            assert(clips[j] == clips[k]);
            if j < k {
                assert(apart(clips[j], CLIP_SIZE as int, clips[k], CLIP_SIZE as int));
            } else {
                assert(apart(clips[k], CLIP_SIZE as int, clips[j], CLIP_SIZE as int));
            }
        }
    }
    lemma_find_in_list(after, state_at, less, shorter, clips[k]);
    assert forall|i: int| 0 <= i < clips.len() && i != k implies known(
        after,
        #[trigger] clips[i],
    ) is Some by {
        assert(is_member(memory, state_at, clips, i));
        let j = if i < k {
            i
        } else {
            i - 1
        };
        assert(shorter[j] == clips[i]);
        lemma_find_in_list(after, state_at, less, shorter, clips[i]);
    }
}

/// A clip whose record is written again, with its neighbours unchanged, is found as it
/// was written.
pub proof fn lemma_kept_clip_is_known(
    memory: GuestMemory,
    state_at: u32,
    state: MediaState,
    clips: Seq<u32>,
    k: int,
    record: LgtClip,
)
    requires
        is_process(memory, state_at, state, clips),
        0 <= k < clips.len(),
        record.next == clip_at(memory, clips[k]).next,
        record.previous == clip_at(memory, clips[k]).previous,
    ensures
        ({
            let after = with_clip(memory, clips[k], record);
            &&& is_process(after, state_at, state, clips)
            &&& known(after, clips[k]) == Some(record)
        }),
{
    reveal(is_member);
    let after = with_clip(memory, clips[k], record);
    assert(is_member(memory, state_at, clips, k));
    lemma_with_clip(memory, clips[k], record);
    assert(apart(clips[k], CLIP_SIZE as int, MEDIA_STATE_ROOT, 4));
    assert(apart(clips[k], CLIP_SIZE as int, state_at, STATE_SIZE as int));
    assert forall|i: int| 0 <= i < clips.len() implies is_member(after, state_at, clips, i) by {
        assert(is_member(memory, state_at, clips, i));
        if i != k {
            if i < k {
                assert(apart(clips[i], CLIP_SIZE as int, clips[k], CLIP_SIZE as int));
            }
            assert(apart(clips[k], CLIP_SIZE as int, clips[i], CLIP_SIZE as int));
        }
    }
    lemma_find_in_list(after, state_at, state, clips, clips[k]);
}

// ---------------------------------------------------------------------------
// Services

/// Neither the memory changed nor was anything asked for.
pub open spec fn untouched<C: WIPICContext>(after: C, before: C) -> bool {
    after.memory() == before.memory() && after.requests() == before.requests()
}

/// What a service on `clip` does where there is no such clip: it fails where
/// there is no media state, and returns `INVALID` otherwise.
pub open spec fn is_refusal<C: WIPICContext>(
    after: C,
    before: C,
    clip: u32,
    r: Result<i32, GuestError>,
) -> bool {
    &&& untouched(after, before)
    &&& found(before.memory(), clip) is Err ==> r is Err
    &&& clip != 0 && is_unset(before.memory()) ==> says_unset(r)
    &&& found(before.memory(), clip) is Ok ==> r == Ok::<i32, GuestError>(INVALID)
}

/// The record of `clip`, where there is one.
pub open spec fn known(memory: GuestMemory, clip: u32) -> Option<LgtClip> {
    match found(memory, clip) {
        Ok(record) => record,
        Err(_) => None,
    }
}

/// The end of a service that keeps `record`: `code`, if the record can be
/// written.
pub open spec fn is_kept<C: WIPICContext>(
    after: C,
    before: C,
    clip: u32,
    record: LgtClip,
    code: i32,
    r: Result<i32, GuestError>,
) -> bool {
    &&& r is Ok <==> before.writable(clip, CLIP_SIZE as int)
    &&& r matches Ok(value) ==> value == code
    &&& r is Ok ==> after.memory() == with_clip(before.memory(), clip, record)
    &&& r is Err ==> after.memory() == clip_attempted(before, before.memory(), clip, record)
}

/// The length of the text at `address`: what comes before the first 0. `None`
/// where the memory ends before.
pub open spec fn text_length(memory: GuestMemory, address: u32, from: int) -> Option<int>
    decreases ADDRESS_SPACE - address - from,
{
    if from < 0 || address + from >= ADDRESS_SPACE || !readable(memory, nth_address(address, from), 1) {
        None
    } else if memory[nth_address(address, from)] == 0 {
        Some(from)
    } else {
        text_length(memory, address, from + 1)
    }
}

/// Reads the text at `address`, up to the first 0.
pub fn read_null_terminated_string_bytes<C: WIPICContext>(context: &C, address: u32) -> (r: Result<
    Vec<u8>,
    GuestError,
>)
    ensures
        match r {
            Ok(bytes) => {
                &&& text_length(context.memory(), address, 0) == Some(bytes@.len() as int)
                &&& bytes@ == content(context.memory(), address, bytes@.len() as int)
                &&& address + bytes@.len() < ADDRESS_SPACE
            },
            Err(_) => text_length(context.memory(), address, 0) is None,
        },
{
    let mut bytes: Vec<u8> = Vec::new();
    let mut next: u64 = address as u64;
    while next < ADDRESS_SPACE
        invariant
            next == address + bytes@.len(),
            next <= ADDRESS_SPACE,
            bytes@ == content(context.memory(), address, bytes@.len() as int),
            text_length(context.memory(), address, 0) == text_length(
                context.memory(),
                address,
                bytes@.len() as int,
            ),
        decreases ADDRESS_SPACE - next,
    {
        let byte = match context.read_bytes(next as u32, 1) {
            Ok(byte) => byte,
            Err(error) => return Err(error),
        };
        assert(nth_address(next as u32, 0) == nth_address(address, bytes@.len() as int));
        assert(byte@[0] == context.memory()[nth_address(address, bytes@.len() as int)]);
        if byte[0] == 0 {
            return Ok(bytes);
        }
        bytes.push(byte[0]);
        next += 1;
        assert(bytes@ =~= content(context.memory(), address, bytes@.len() as int));
    }
    Err(GuestError::InvalidMemoryAccess(address))
}

/// `count` zeros.
pub open spec fn zeros(count: int) -> Seq<u8> {
    Seq::new(count as nat, |i: int| 0u8)
}

/// The memory with a name and a 0 behind it in a cleared block at `address`.
pub open spec fn with_name(memory: GuestMemory, address: u32, name: Seq<u8>) -> GuestMemory {
    let size = (name.len() + 1) as u32;
    let blank = stored(memory, address, zeros(size as int));
    stored(stored(blank, address, name), nth_address(address, name.len() as int), seq![0u8])
}

/// A request for memory and what came of it.
pub open spec fn alloc_request(size: u32, result: Option<u32>) -> Request {
    Request::Alloc { size, result }
}

/// The block that was allocated, if it can be written.
pub open spec fn usable<C: WIPICContext>(
    context: C,
    size: u32,
    block: Option<u32>,
) -> Option<u32> {
    match block {
        Some(address) if size == 0 || context.writable(address, size as int) => Some(address),
        _ => None,
    }
}

/// The memory after the block that was allocated was cleared, as far as that can be
/// done.
pub open spec fn cleared<C: WIPICContext>(
    context: C,
    memory: GuestMemory,
    size: u32,
    block: Option<u32>,
) -> GuestMemory {
    match block {
        Some(address) if size != 0 => attempted(context, memory, address, zeros(size as int)),
        _ => memory,
    }
}

/// A block of zeros was asked for, and `block` is what came of it.
pub open spec fn is_cleared<C: WIPICContext>(
    after: C,
    before: C,
    size: u32,
    block: Option<u32>,
    r: Option<u32>,
) -> bool {
    &&& after.requests() == before.requests().push(alloc_request(size, block))
    &&& r == usable(after, size, block)
    &&& after.memory() == match r {
        Some(address) if size != 0 => stored(before.memory(), address, zeros(size as int)),
        _ => cleared(after, before.memory(), size, block),
    }
}

/// Allocates a block and clears it. `None` where either fails.
pub fn try_alloc_zeroed<C: WIPICContext>(context: &mut C, size: u32) -> (r: Option<u32>)
    ensures
        exists|block: Option<u32>| #[trigger]
            is_cleared(*final(context), *old(context), size, block, r),
        r matches Some(address) ==> (size != 0 ==> address + size <= ADDRESS_SPACE),
        forall|a: u32, n: int| #[trigger]
            old(context).writable(a, n) ==> final(context).writable(a, n),
{
    match context.alloc_raw(size) {
        Ok(address) => {
            if size != 0 {
                let mut blank: Vec<u8> = Vec::new();
                while blank.len() < size as usize
                    invariant
                        blank@.len() <= size,
                        forall|i: int| 0 <= i < blank@.len() ==> blank@[i] == 0,
                    decreases size - blank@.len(),
                {
                    blank.push(0);
                }
                assert(blank@ =~= zeros(size as int));
                if context.write_bytes(address, blank.as_slice()).is_err() {
                    assert(is_cleared(*context, *old(context), size, Some(address), None));
                    return None;
                }
            }
            assert(is_cleared(*context, *old(context), size, Some(address), Some(address)));
            Some(address)
        },
        Err(_) => {
            assert(is_cleared(*context, *old(context), size, None, None));
            None
        },
    }
}

/// A new clip record.
pub open spec fn fresh_clip(
    clip: u32,
    capacity: u32,
    callback: u32,
    type_at: u32,
    buffer_at: u32,
) -> LgtClip {
    LgtClip {
        next: 0,
        previous: 0,
        device_id: 3,
        player_handle: NO_PLAYER,
        device_capabilities: 0x0e,
        state_flags: 0,
        media_kind: 0,
        buffer_capacity: capacity as i32,
        available_bytes: 0,
        watermark_percent: 100,
        read_offset: 0,
        callback,
        copied_type_string: type_at,
        callback_user_data: clip,
        primary_buffer: buffer_at,
        tone_buffer_0: 0,
        tone_buffer_1: 0,
        tone_buffer_2: 0,
        duration_buffer: 0,
        owning_process: 0,
        allocator_interface: 0,
        optional_vam_metadata: 0,
    }
}

/// The record `clip` was put at `address`, behind all others of the list, if the
/// list can be found and written. Before that the memory was `memory`.
pub open spec fn is_installed<C: WIPICContext>(
    after: C,
    memory: GuestMemory,
    address: u32,
    clip: LgtClip,
    r: Result<u32, GuestError>,
) -> bool {
    match media_state(memory) {
        None => {
            &&& r is Err
            &&& is_unset(memory) ==> says_unset(r)
            &&& after.memory() == memory
        },
        Some((state_at, state)) => if linkable(after, memory, state_at, state, address) {
            &&& r == Ok::<u32, GuestError>(address)
            &&& after.memory() == linked(memory, state_at, state, address, clip)
        } else {
            &&& r is Err
            &&& after.memory() == partly_linked(after, memory, state_at, state, address, clip)
        },
    }
}

/// Makes the record of a new clip in the block at `clip_ptr` and puts it behind
/// the others.
pub fn install_clip<C: WIPICContext>(
    context: &mut C,
    clip_ptr: u32,
    capacity: u32,
    callback: u32,
    type_ptr: u32,
    primary: u32,
) -> (r: Result<u32, GuestError>)
    ensures
        final(context).requests() == old(context).requests(),
        forall|a: u32, n: int| #[trigger]
            final(context).writable(a, n) == old(context).writable(a, n),
        forall|a: u32, n: int| #[trigger] final(context).reach(a, n) == old(context).reach(a, n),
        is_installed(
            *final(context),
            old(context).memory(),
            clip_ptr,
            fresh_clip(clip_ptr, capacity, callback, type_ptr, primary),
            r,
        ),
{
    let (state_ptr, state) = match state(context) {
        Ok(found) => found,
        Err(error) => return Err(error),
    };
    let clip = LgtClip {
        next: 0,
        previous: 0,
        device_id: 3,
        player_handle: NO_PLAYER,
        device_capabilities: 0x0e,
        state_flags: 0,
        media_kind: 0,
        buffer_capacity: capacity as i32,
        available_bytes: 0,
        watermark_percent: 100,
        read_offset: 0,
        callback,
        copied_type_string: type_ptr,
        callback_user_data: clip_ptr,
        primary_buffer: primary,
        tone_buffer_0: 0,
        tone_buffer_1: 0,
        tone_buffer_2: 0,
        duration_buffer: 0,
        owning_process: 0,
        allocator_interface: 0,
        optional_vam_metadata: 0,
    };
    match link_clip(context, state_ptr, state, clip_ptr, clip) {
        Ok(()) => Ok(clip_ptr),
        Err(error) => Err(error),
    }
}

/// A service that gave up, with `requests` made and `memory` left behind.
pub open spec fn gave_up<C: WIPICContext>(
    after: C,
    requests: Seq<Request>,
    memory: GuestMemory,
    r: Result<u32, GuestError>,
) -> bool {
    &&& r == Ok::<u32, GuestError>(0)
    &&& after.requests() == requests
    &&& after.memory() == memory
}

/// The last step of `clip_create`: the record, in a block of its own.
pub open spec fn is_recorded<C: WIPICContext>(
    after: C,
    requests: Seq<Request>,
    memory: GuestMemory,
    capacity: u32,
    callback: u32,
    type_at: u32,
    buffer_at: u32,
    clip_block: Option<u32>,
    r: Result<u32, GuestError>,
) -> bool {
    let asked = requests.push(alloc_request(CLIP_SIZE as u32, clip_block));
    match usable(after, CLIP_SIZE as u32, clip_block) {
        None => gave_up(after, asked, cleared(after, memory, CLIP_SIZE as u32, clip_block), r),
        Some(clip) => {
            &&& after.requests() == asked
            &&& is_installed(
                after,
                stored(memory, clip, zeros(CLIP_SIZE as int)),
                clip,
                fresh_clip(clip, capacity, callback, type_at, buffer_at),
                r,
            )
        },
    }
}

/// The middle step of `clip_create`: the buffer, in a block of its own.
pub open spec fn is_buffered<C: WIPICContext>(
    after: C,
    requests: Seq<Request>,
    memory: GuestMemory,
    capacity: u32,
    callback: u32,
    type_at: u32,
    buffer_block: Option<u32>,
    clip_block: Option<u32>,
    r: Result<u32, GuestError>,
) -> bool {
    let asked = requests.push(alloc_request(capacity, buffer_block));
    if capacity == 0 {
        is_recorded(after, requests, memory, capacity, callback, type_at, 0, clip_block, r)
    } else {
        match usable(after, capacity, buffer_block) {
            None => gave_up(after, asked, cleared(after, memory, capacity, buffer_block), r),
            Some(buffer_at) => is_recorded(
                after,
                asked,
                stored(memory, buffer_at, zeros(capacity as int)),
                capacity,
                callback,
                type_at,
                buffer_at,
                clip_block,
                r,
            ),
        }
    }
}

/// What `clip_create` does for a type with this name, where these blocks came of
/// its requests: the name is copied into the first, the second is the buffer, and
/// the third holds the record.
pub open spec fn is_creation<C: WIPICContext>(
    after: C,
    before: C,
    name: Seq<u8>,
    capacity: u32,
    callback: u32,
    type_block: Option<u32>,
    buffer_block: Option<u32>,
    clip_block: Option<u32>,
    r: Result<u32, GuestError>,
) -> bool {
    let size = (name.len() + 1) as u32;
    let asked = before.requests().push(alloc_request(size, type_block));
    match usable(after, size, type_block) {
        None => gave_up(after, asked, cleared(after, before.memory(), size, type_block), r),
        Some(type_at) => {
            let blank = stored(before.memory(), type_at, zeros(size as int));
            let copied = stored(blank, type_at, name);
            let end = nth_address(type_at, name.len() as int);
            if !after.writable(type_at, name.len() as int) {
                r is Err && after.requests() == asked && after.memory() == attempted(
                    after,
                    blank,
                    type_at,
                    name,
                )
            } else if !after.writable(end, 1) {
                r is Err && after.requests() == asked && after.memory() == attempted(
                    after,
                    copied,
                    end,
                    seq![0u8],
                )
            } else {
                is_buffered(
                    after,
                    asked,
                    with_name(before.memory(), type_at, name),
                    capacity,
                    callback,
                    type_at,
                    buffer_block,
                    clip_block,
                    r,
                )
            }
        },
    }
}

/// Creates a clip with a buffer of `buffer_size` bytes. Returns 0 where an
/// argument is not valid or a block cannot be had.
pub fn clip_create<C: WIPICContext>(
    context: &mut C,
    ptr_type: u32,
    buffer_size: u32,
    callback: u32,
) -> (r: Result<u32, GuestError>)
    ensures
        if ptr_type == 0 || buffer_size > i32::MAX {
            r == Ok::<u32, GuestError>(0) && untouched(*final(context), *old(context))
        } else {
            match text_length(old(context).memory(), ptr_type, 0) {
                None => r is Err && untouched(*final(context), *old(context)),
                Some(length) => exists|
                    type_block: Option<u32>,
                    buffer_block: Option<u32>,
                    clip_block: Option<u32>,
                | #[trigger]
                    is_creation(
                        *final(context),
                        *old(context),
                        content(old(context).memory(), ptr_type, length),
                        buffer_size,
                        callback,
                        type_block,
                        buffer_block,
                        clip_block,
                        r,
                    ),
            }
        },
{
    if ptr_type == 0 || buffer_size > i32::MAX as u32 {
        return Ok(0);
    }
    let ghost first = *context;
    let type_bytes = match read_null_terminated_string_bytes(context, ptr_type) {
        Ok(bytes) => bytes,
        Err(error) => return Err(error),
    };
    let ghost name = content(first.memory(), ptr_type, text_length(first.memory(), ptr_type, 0)->0);
    assert(type_bytes@ == name);
    let count = type_bytes.len() as u32;
    let type_ptr = match try_alloc_zeroed(context, count + 1) {
        Some(ptr) => ptr,
        None => {
            let ghost block = choose|block: Option<u32>| #[trigger]
                is_cleared(*context, first, (count + 1) as u32, block, None);
            let r = Ok(0);
            assert(is_creation(
                *context,
                first,
                name,
                buffer_size,
                callback,
                block,
                None,
                None,
                r,
            ));
            return r;
        },
    };
    let ghost type_block = choose|block: Option<u32>| #[trigger]
        is_cleared(*context, first, (count + 1) as u32, block, Some(type_ptr));
    if let Err(error) = context.write_bytes(type_ptr, type_bytes.as_slice()) {
        let r = Err(error);
        assert(is_creation(
            *context,
            first,
            name,
            buffer_size,
            callback,
            type_block,
            None,
            None,
            r,
        ));
        return r;
    }
    let end = vec![0u8];
    assert(end@ =~= seq![0u8]);
    if let Err(error) = context.write_bytes(type_ptr + count, end.as_slice()) {
        let r = Err(error);
        assert(is_creation(
            *context,
            first,
            name,
            buffer_size,
            callback,
            type_block,
            None,
            None,
            r,
        ));
        return r;
    }
    let ghost named = *context;
    let ghost end_at = nth_address(type_ptr, name.len() as int);
    proof {
        assert(end_at == type_ptr + count);
        assert(named.writable(type_ptr, name.len() as int + 1));
        assert(named.writable(type_ptr, name.len() as int));
        assert(named.writable(end_at, 1));
        assert(usable(named, (count + 1) as u32, type_block) == Some(type_ptr));
    }
    let ghost mut buffer_block: Option<u32> = None;
    let primary: u32 = if buffer_size == 0 {
        0
    } else {
        match try_alloc_zeroed(context, buffer_size) {
            Some(ptr) => {
                proof {
                    buffer_block = choose|block: Option<u32>| #[trigger]
                        is_cleared(*context, named, buffer_size, block, Some(ptr));
                }
                ptr
            },
            None => {
                let ghost block = choose|block: Option<u32>| #[trigger]
                    is_cleared(*context, named, buffer_size, block, None);
                let r = Ok(0);
                assert(is_creation(
                    *context,
                    first,
                    name,
                    buffer_size,
                    callback,
                    type_block,
                    block,
                    None,
                    r,
                ));
                return r;
            },
        }
    };
    let ghost buffered = *context;
    proof {
        assert(buffered.writable(type_ptr, name.len() as int + 1));
        assert(buffered.writable(type_ptr, name.len() as int));
        assert(buffered.writable(end_at, 1));
        if buffer_size != 0 {
            assert(buffered.writable(primary, buffer_size as int));
        }
    }
    let clip_ptr = match try_alloc_zeroed(context, CLIP_SIZE as u32) {
        Some(ptr) => ptr,
        None => {
            let ghost block = choose|block: Option<u32>| #[trigger]
                is_cleared(*context, buffered, CLIP_SIZE as u32, block, None);
            let r = Ok(0);
            assert(is_creation(
                *context,
                first,
                name,
                buffer_size,
                callback,
                type_block,
                buffer_block,
                block,
                r,
            ));
            return r;
        },
    };
    let ghost clip_block = choose|block: Option<u32>| #[trigger]
        is_cleared(*context, buffered, CLIP_SIZE as u32, block, Some(clip_ptr));
    let r = install_clip(context, clip_ptr, buffer_size, callback, type_ptr, primary);
    assert(is_creation(
        *context,
        first,
        name,
        buffer_size,
        callback,
        type_block,
        buffer_block,
        clip_block,
        r,
    ));
    r
}

/// The record after its player was closed.
pub open spec fn without_player(clip: LgtClip) -> LgtClip {
    LgtClip { player_handle: NO_PLAYER, state_flags: clip.state_flags & !PLAYER_ALLOCATED, ..clip }
}

/// What closing the player asks for.
pub open spec fn close_requests(clip: LgtClip) -> Seq<Request> {
    if clip.player_handle >= 0 {
        seq![Request::Close { handle: clip.player_handle as u32 }]
    } else {
        Seq::empty()
    }
}

fn close_player<C: WIPICContext>(context: &mut C, clip: &mut LgtClip)
    ensures
        *final(clip) == without_player(*old(clip)),
        final(context).memory() == old(context).memory(),
        final(context).requests() == old(context).requests() + close_requests(*old(clip)),
        forall|a: u32, n: int| #[trigger]
            final(context).writable(a, n) == old(context).writable(a, n),
        forall|a: u32, n: int| #[trigger] final(context).reach(a, n) == old(context).reach(a, n),
{
    if clip.player_handle >= 0 {
        context.close_audio(clip.player_handle as AudioHandle);
    }
    clip.player_handle = NO_PLAYER;
    clip.state_flags = clip.state_flags & !PLAYER_ALLOCATED;
    assert(context.requests() =~= old(context).requests() + close_requests(*old(clip)));
}

/// What freeing a clip asks for before its record is freed: its player closed,
/// its name and its buffer freed, with these outcomes.
pub open spec fn free_requests(
    memory: GuestMemory,
    clip: LgtClip,
    name_freed: bool,
    buffer_freed: bool,
) -> Seq<Request> {
    let name = match text_length(memory, clip.copied_type_string, 0) {
        Some(length) if clip.copied_type_string != 0 => seq![
            Request::Free {
                address: clip.copied_type_string,
                size: (length + 1) as u32,
                done: name_freed,
            },
        ],
        _ => Seq::empty(),
    };
    let buffer = if clip.primary_buffer != 0 {
        seq![
            Request::Free {
                address: clip.primary_buffer,
                size: if clip.buffer_capacity > 0 {
                    clip.buffer_capacity as u32
                } else {
                    0
                },
                done: buffer_freed,
            },
        ]
    } else {
        Seq::empty()
    };
    close_requests(clip) + name + buffer
}

/// A clip was freed, or refused to be.
pub open spec fn is_freed<C: WIPICContext>(
    after: C,
    before: C,
    clip_ptr: u32,
    r: Result<i32, GuestError>,
) -> bool {
    match known(before.memory(), clip_ptr) {
        None => is_refusal(after, before, clip_ptr, r),
        Some(clip) => if clip.has(PLAYING | STOPPING) {
            r == Ok::<i32, GuestError>(BUSY) && untouched(after, before)
        } else {
            let (state_at, state) = media_state(before.memory())->0;
            exists|name_freed: bool, buffer_freed: bool|
                {
                    let log = before.requests() + #[trigger] free_requests(
                        before.memory(),
                        clip,
                        name_freed,
                        buffer_freed,
                    );
                    if unlinkable(before, state_at, clip) {
                        &&& after.memory() == unlinked(
                            before.memory(),
                            state_at,
                            state,
                            clip,
                        )
                        &&& after.requests() == log.push(
                            Request::Free {
                                address: clip_ptr,
                                size: CLIP_SIZE as u32,
                                done: r is Ok,
                            },
                        )
                        &&& r matches Ok(code) ==> code == 0
                    } else {
                        &&& r is Err
                        &&& after.memory() == partly_unlinked(
                            before,
                            state_at,
                            state,
                            clip,
                        )
                        &&& after.requests() == log
                    }
                }
        },
    }
}

/// Frees a clip that does not play.
pub fn clip_free<C: WIPICContext>(context: &mut C, clip_ptr: u32) -> (r: Result<i32, GuestError>)
    ensures
        is_freed(*final(context), *old(context), clip_ptr, r),
{
    let ghost memory = context.memory();
    let ghost first = *context;
    let mut clip = match find_clip(context, clip_ptr) {
        Ok(Some(clip)) => clip,
        Ok(None) => return Ok(INVALID),
        Err(error) => return Err(error),
    };
    let ghost record = clip;
    if clip.state_flags & (PLAYING | STOPPING) != 0 {
        return Ok(BUSY);
    }
    close_player(context, &mut clip);
    let (state_ptr, state) = match state(context) {
        Ok(found) => found,
        Err(error) => return Err(error),
    };
    let mut name_freed = false;
    if clip.copied_type_string != 0 {
        if let Ok(bytes) = read_null_terminated_string_bytes(context, clip.copied_type_string) {
            name_freed = context.free_raw(clip.copied_type_string, bytes.len() as u32 + 1).is_ok();
        }
    }
    let mut buffer_freed = false;
    if clip.primary_buffer != 0 {
        let size: u32 = if clip.buffer_capacity > 0 {
            clip.buffer_capacity as u32
        } else {
            0
        };
        buffer_freed = context.free_raw(clip.primary_buffer, size).is_ok();
    }
    proof {
        assert(context.requests() =~= first.requests() + free_requests(
            memory,
            record,
            name_freed,
            buffer_freed,
        ));
        assert(unlinkable(*context, state_ptr, clip) == unlinkable(first, state_ptr, record));
        assert(partly_unlinked(*context, state_ptr, state, clip) == partly_unlinked(
            first,
            state_ptr,
            state,
            record,
        ));
    }
    match unlink_clip(context, state_ptr, state, clip_ptr, clip) {
        Ok(()) => Ok(0),
        Err(error) => Err(error),
    }
}

/// The non-negative part of a field.
pub open spec fn at_least_zero(v: i32) -> int {
    if v > 0 {
        v as int
    } else {
        0
    }
}

/// How many of `requested` bytes the clip has room for.
pub open spec fn room_for(clip: LgtClip, requested: u32) -> int {
    let room = clip.buffer_capacity - at_least_zero(clip.available_bytes);
    if room <= 0 {
        0
    } else if requested <= room {
        requested as int
    } else {
        room
    }
}

/// How much is copied in one step: up to the end of the ring, and 1024 bytes at
/// most.
pub open spec fn chunk_length(capacity: int, offset: int, left: int) -> int {
    let fit = if left <= capacity - offset {
        left
    } else {
        capacity - offset
    };
    if fit <= 1024 {
        fit
    } else {
        1024
    }
}

/// How the filling of a ring ended, and the memory that it left.
pub enum Filled {
    Done(GuestMemory),
    /// A chunk could not be read or written.
    Refused(GuestMemory),
    /// The source goes on behind the last address.
    Overrun(GuestMemory),
}

/// `accepted` bytes from `source` go into the ring at `buffer`, behind `start`, of
/// which `copied` are there already.
pub open spec fn ring_filled<C: WIPICContext>(
    context: C,
    memory: GuestMemory,
    source: u32,
    buffer: u32,
    capacity: int,
    start: int,
    copied: int,
    accepted: int,
) -> Filled
    decreases accepted - copied,
{
    if copied >= accepted || capacity <= 0 || start < 0 || copied < 0 {
        Filled::Done(memory)
    } else {
        let offset = (start + copied) % capacity;
        let chunk = chunk_length(capacity, offset, accepted - copied);
        let from = nth_address(source, copied);
        let to = nth_address(buffer, offset);
        if source + copied >= ADDRESS_SPACE {
            Filled::Overrun(memory)
        } else if !readable(memory, from, chunk) {
            Filled::Refused(memory)
        } else if !context.writable(to, chunk) {
            Filled::Refused(attempted(context, memory, to, content(memory, from, chunk)))
        } else {
            ring_filled(
                context,
                stored(memory, to, content(memory, from, chunk)),
                source,
                buffer,
                capacity,
                start,
                copied + chunk,
                accepted,
            )
        }
    }
}

/// Every chunk that is written on the way begins inside the address space.
pub open spec fn chunks_fit<C: WIPICContext>(
    context: C,
    memory: GuestMemory,
    source: u32,
    buffer: u32,
    capacity: int,
    start: int,
    copied: int,
    accepted: int,
) -> bool
    decreases accepted - copied,
{
    if copied >= accepted || capacity <= 0 || start < 0 || copied < 0 {
        true
    } else {
        let offset = (start + copied) % capacity;
        let chunk = chunk_length(capacity, offset, accepted - copied);
        let from = nth_address(source, copied);
        let to = nth_address(buffer, offset);
        source + copied < ADDRESS_SPACE && readable(memory, from, chunk) ==> {
            &&& buffer + offset < ADDRESS_SPACE
            &&& context.writable(to, chunk) ==> chunks_fit(
                context,
                stored(memory, to, content(memory, from, chunk)),
                source,
                buffer,
                capacity,
                start,
                copied + chunk,
                accepted,
            )
        }
    }
}

/// Behind which place of its ring a clip's data ends.
pub open spec fn ring_end(clip: LgtClip) -> int {
    at_least_zero(clip.read_offset) + at_least_zero(clip.available_bytes)
}

/// The clip's ring takes `requested` bytes from `source` without leaving the
/// address space.
pub open spec fn can_take<C: WIPICContext>(
    context: C,
    clip: LgtClip,
    source: u32,
    requested: u32,
) -> bool {
    source != 0 && clip.primary_buffer != 0 ==> chunks_fit(
        context,
        context.memory(),
        source,
        clip.primary_buffer,
        clip.buffer_capacity as int,
        ring_end(clip),
        0,
        room_for(clip, requested),
    )
}

proof fn lemma_chunks_fit<C: WIPICContext>(
    context: C,
    memory: GuestMemory,
    source: u32,
    buffer: u32,
    capacity: int,
    start: int,
    copied: int,
    accepted: int,
)
    requires
        buffer + capacity <= ADDRESS_SPACE,
    ensures
        chunks_fit(context, memory, source, buffer, capacity, start, copied, accepted),
    decreases accepted - copied,
{
    if 0 <= copied < accepted && 0 < capacity && 0 <= start {
        let offset = (start + copied) % capacity;
        let chunk = chunk_length(capacity, offset, accepted - copied);
        lemma_chunks_fit(
            context,
            stored(
                memory,
                nth_address(buffer, offset),
                content(memory, nth_address(source, copied), chunk),
            ),
            source,
            buffer,
            capacity,
            start,
            copied + chunk,
            accepted,
        );
    }
}

/// A ring that ends inside the address space can take data from anywhere.
pub proof fn lemma_ring_takes_data<C: WIPICContext>(
    context: C,
    clip: LgtClip,
    source: u32,
    requested: u32,
)
    requires
        clip.primary_buffer + clip.buffer_capacity <= ADDRESS_SPACE,
    ensures
        can_take(context, clip, source, requested),
{
    lemma_chunks_fit(
        context,
        context.memory(),
        source,
        clip.primary_buffer,
        clip.buffer_capacity as int,
        ring_end(clip),
        0,
        room_for(clip, requested),
    );
}

/// The record after `accepted` bytes were added: a player that holds the old data
/// is closed.
pub open spec fn extended(clip: LgtClip, accepted: int) -> LgtClip {
    let clip = LgtClip {
        available_bytes: (at_least_zero(clip.available_bytes) + accepted) as i32,
        ..clip
    };
    if accepted != 0 && clip.player_handle >= 0 {
        LgtClip { player_handle: NO_PLAYER, state_flags: clip.state_flags & !PLAYING, ..clip }
    } else {
        clip
    }
}

/// Data was put into a clip.
pub open spec fn is_put<C: WIPICContext>(
    after: C,
    before: C,
    clip_ptr: u32,
    source: u32,
    requested: u32,
    r: Result<i32, GuestError>,
) -> bool {
    match known(before.memory(), clip_ptr) {
        None => is_refusal(after, before, clip_ptr, r),
        Some(clip) => if source == 0 {
            r == Ok::<i32, GuestError>(INVALID) && untouched(after, before)
        } else if requested == 0 {
            r == Ok::<i32, GuestError>(0) && untouched(after, before)
        } else if clip.primary_buffer == 0 || clip.buffer_capacity <= 0 {
            r == Ok::<i32, GuestError>(NO_BUFFER) && untouched(after, before)
        } else {
            let accepted = room_for(clip, requested);
            match ring_filled(
                before,
                before.memory(),
                source,
                clip.primary_buffer,
                clip.buffer_capacity as int,
                ring_end(clip),
                0,
                accepted,
            ) {
                Filled::Overrun(rest) => {
                    &&& r == Err::<i32, GuestError>(GuestError::AllocationFailure)
                    &&& after.memory() == rest
                    &&& after.requests() == before.requests()
                },
                Filled::Refused(rest) => {
                    &&& r is Err
                    &&& after.memory() == rest
                    &&& after.requests() == before.requests()
                },
                Filled::Done(filled) => {
                    &&& r is Ok <==> before.writable(clip_ptr, CLIP_SIZE as int)
                    &&& r matches Ok(count) ==> count == accepted
                    &&& r is Ok ==> after.memory() == with_clip(
                        filled,
                        clip_ptr,
                        extended(clip, accepted),
                    )
                    &&& r is Err ==> after.memory() == clip_attempted(
                        before,
                        filled,
                        clip_ptr,
                        extended(clip, accepted),
                    )
                    &&& after.requests() == before.requests() + if accepted != 0 {
                        close_requests(clip)
                    } else {
                        Seq::empty()
                    }
                },
            }
        },
    }
}

/// Adds guest data to the clip's ring buffer, as much as there is room for, and
/// returns how much that was.
pub fn clip_put_data<C: WIPICContext>(
    context: &mut C,
    clip_ptr: u32,
    source: u32,
    requested: u32,
) -> (r: Result<i32, GuestError>)
    requires
        known(old(context).memory(), clip_ptr) matches Some(clip) ==> can_take(
            *old(context),
            clip,
            source,
            requested,
        ),
    ensures
        is_put(*final(context), *old(context), clip_ptr, source, requested, r),
{
    let mut clip = match find_clip(context, clip_ptr) {
        Ok(Some(clip)) => clip,
        Ok(None) => return Ok(INVALID),
        Err(error) => return Err(error),
    };
    if source == 0 {
        return Ok(INVALID);
    }
    if requested == 0 {
        return Ok(0);
    }
    if clip.primary_buffer == 0 || clip.buffer_capacity <= 0 {
        return Ok(NO_BUFFER);
    }
    let ghost record = clip;
    let ghost first = *context;
    let capacity: u32 = clip.buffer_capacity as u32;
    let available: u32 = if clip.available_bytes > 0 {
        clip.available_bytes as u32
    } else {
        0
    };
    let read_offset: u32 = if clip.read_offset > 0 {
        clip.read_offset as u32
    } else {
        0
    };
    let room: u32 = capacity.saturating_sub(available);
    let accepted: u32 = if requested < room {
        requested
    } else {
        room
    };
    let mut copied: u32 = 0;
    while copied < accepted
        invariant
            first == *old(context),
            known(first.memory(), clip_ptr) == Some(record),
            source != 0,
            requested != 0,
            record.primary_buffer != 0,
            record.buffer_capacity > 0,
            clip == record,
            capacity == record.buffer_capacity,
            available == at_least_zero(record.available_bytes),
            read_offset == at_least_zero(record.read_offset),
            accepted == room_for(record, requested),
            copied <= accepted,
            available + accepted <= i32::MAX || accepted == 0,
            context.requests() == first.requests(),
            forall|a: u32, n: int| #[trigger] context.writable(a, n) == first.writable(a, n),
            forall|a: u32, n: int| #[trigger] context.reach(a, n) == first.reach(a, n),
            ring_filled(
                first,
                first.memory(),
                source,
                record.primary_buffer,
                capacity as int,
                read_offset + available,
                0,
                accepted as int,
            ) == ring_filled(
                first,
                context.memory(),
                source,
                record.primary_buffer,
                capacity as int,
                read_offset + available,
                copied as int,
                accepted as int,
            ),
            chunks_fit(
                first,
                context.memory(),
                source,
                record.primary_buffer,
                capacity as int,
                read_offset + available,
                copied as int,
                accepted as int,
            ),
        decreases accepted - copied,
    {
        let write_offset: u32 = (read_offset + available + copied) % capacity;
        let left: u32 = accepted - copied;
        let fit: u32 = if left <= capacity - write_offset {
            left
        } else {
            capacity - write_offset
        };
        let chunk: u32 = if fit <= 1024 {
            fit
        } else {
            1024
        };
        if copied > u32::MAX - source {
            return Err(GuestError::AllocationFailure);
        }
        let bytes = match context.read_bytes(source + copied, chunk as usize) {
            Ok(bytes) => bytes,
            Err(error) => return Err(error),
        };
        if let Err(error) = context.write_bytes(
            clip.primary_buffer + write_offset,
            bytes.as_slice(),
        ) {
            return Err(error);
        }
        copied += chunk;
    }
    if accepted != 0 && clip.player_handle >= 0 {
        context.close_audio(clip.player_handle as AudioHandle);
        clip.player_handle = NO_PLAYER;
        clip.state_flags = clip.state_flags & !PLAYING;
    }
    clip.available_bytes = (available + accepted) as i32;
    proof {
        assert(clip == extended(record, accepted as int));
        assert(context.requests() =~= first.requests() + if accepted != 0 {
            close_requests(record)
        } else {
            Seq::empty()
        });
    }
    match write_clip(context, clip_ptr, clip) {
        Ok(()) => Ok(accepted as i32),
        Err(error) => Err(error),
    }
}

/// The record of a clip whose buffer was emptied.
pub open spec fn emptied(clip: LgtClip) -> LgtClip {
    LgtClip { read_offset: 0, available_bytes: 0, ..clip }
}

/// The data of a clip was cleared.
pub open spec fn is_data_cleared<C: WIPICContext>(
    after: C,
    before: C,
    clip_ptr: u32,
    r: Result<i32, GuestError>,
) -> bool {
    match known(before.memory(), clip_ptr) {
        None => is_refusal(after, before, clip_ptr, r),
        Some(clip) => {
            &&& after.requests() == before.requests()
            &&& is_kept(
                after,
                before,
                clip_ptr,
                emptied(clip),
                if clip.has(PLAYING | STOPPING) {
                    FAILED
                } else {
                    0
                },
                r,
            )
        },
    }
}

/// Empties the clip's buffer. A clip that plays goes on with what it has.
pub fn clip_clear_data<C: WIPICContext>(context: &mut C, clip_ptr: u32) -> (r: Result<
    i32,
    GuestError,
>)
    ensures
        is_data_cleared(*final(context), *old(context), clip_ptr, r),
{
    let mut clip = match find_clip(context, clip_ptr) {
        Ok(Some(clip)) => clip,
        Ok(None) => return Ok(INVALID),
        Err(error) => return Err(error),
    };
    clip.read_offset = 0;
    clip.available_bytes = 0;
    let result: i32 = if clip.state_flags & (PLAYING | STOPPING) == 0 {
        0
    } else {
        FAILED
    };
    match write_clip(context, clip_ptr, clip) {
        Ok(()) => Ok(result),
        Err(error) => Err(error),
    }
}

/// The record of a clip that was given a player.
pub open spec fn with_player(clip: LgtClip, clip_ptr: u32) -> LgtClip {
    LgtClip {
        media_kind: 0,
        callback_user_data: clip_ptr,
        state_flags: clip.state_flags | PLAYER_ALLOCATED,
        ..clip
    }
}

/// A clip was given a player.
pub open spec fn is_player_given<C: WIPICContext>(
    after: C,
    before: C,
    clip_ptr: u32,
    r: Result<i32, GuestError>,
) -> bool {
    match known(before.memory(), clip_ptr) {
        None => is_refusal(after, before, clip_ptr, r),
        Some(clip) => {
            &&& after.requests() == before.requests()
            &&& if clip.has(PLAYER_ALLOCATED) {
                &&& r == Ok::<i32, GuestError>(clip.player_handle)
                &&& after.memory() == before.memory()
            } else {
                is_kept(
                    after,
                    before,
                    clip_ptr,
                    with_player(clip, clip_ptr),
                    0,
                    r,
                )
            }
        },
    }
}

/// Gives the clip a player. Where it has one, returns its handle.
pub fn clip_alloc_player<C: WIPICContext>(
    context: &mut C,
    clip_ptr: u32,
    parameter: u32,
) -> (r: Result<i32, GuestError>)
    ensures
        is_player_given(*final(context), *old(context), clip_ptr, r),
{
    let mut clip = match find_clip(context, clip_ptr) {
        Ok(Some(clip)) => clip,
        Ok(None) => return Ok(INVALID),
        Err(error) => return Err(error),
    };
    if clip.state_flags & PLAYER_ALLOCATED != 0 {
        return Ok(clip.player_handle);
    }
    clip.media_kind = 0;
    clip.callback_user_data = clip_ptr;
    clip.state_flags = clip.state_flags | PLAYER_ALLOCATED;
    match write_clip(context, clip_ptr, clip) {
        Ok(()) => Ok(0),
        Err(error) => Err(error),
    }
}

/// The player of a clip was taken away.
pub open spec fn is_player_taken<C: WIPICContext>(
    after: C,
    before: C,
    clip_ptr: u32,
    r: Result<i32, GuestError>,
) -> bool {
    match known(before.memory(), clip_ptr) {
        None => is_refusal(after, before, clip_ptr, r),
        Some(clip) => {
            &&& after.requests() == before.requests() + close_requests(clip)
            &&& is_kept(
                after,
                before,
                clip_ptr,
                without_player(clip),
                0,
                r,
            )
        },
    }
}

/// Takes the clip's player away.
pub fn clip_free_player<C: WIPICContext>(context: &mut C, clip_ptr: u32) -> (r: Result<
    i32,
    GuestError,
>)
    ensures
        is_player_taken(*final(context), *old(context), clip_ptr, r),
{
    let mut clip = match find_clip(context, clip_ptr) {
        Ok(Some(clip)) => clip,
        Ok(None) => return Ok(INVALID),
        Err(error) => return Err(error),
    };
    close_player(context, &mut clip);
    match write_clip(context, clip_ptr, clip) {
        Ok(()) => Ok(0),
        Err(error) => Err(error),
    }
}

/// Where in its ring byte `i` of the clip's data stands. A negative capacity counts
/// as a very large one.
pub open spec fn ring_offset(clip: LgtClip, i: int) -> int {
    let place = at_least_zero(clip.read_offset) + i;
    if clip.buffer_capacity > 0 {
        place % (clip.buffer_capacity as int)
    } else {
        place
    }
}

/// The address of byte `i` of the data in the clip's ring.
pub open spec fn ring_address(clip: LgtClip, i: int) -> u32 {
    nth_address(clip.primary_buffer, ring_offset(clip, i))
}

/// The data in the clip's ring.
pub open spec fn ring_data(memory: GuestMemory, clip: LgtClip) -> Seq<u8> {
    Seq::new(
        at_least_zero(clip.available_bytes) as nat,
        |i: int| memory[ring_address(clip, i)],
    )
}

/// The data in the clip's ring can be read.
pub open spec fn ring_readable(memory: GuestMemory, clip: LgtClip) -> bool {
    readable_up_to(memory, clip, at_least_zero(clip.available_bytes))
}

/// Byte `i` of the clip's data has an address. Behind the largest capacity that
/// counts as negative it has none.
pub open spec fn has_address(clip: LgtClip, i: int) -> bool {
    &&& clip.primary_buffer + ring_offset(clip, i) < ADDRESS_SPACE
    &&& clip.buffer_capacity < 0 ==> ring_offset(clip, i) < ADDRESS_SPACE + clip.buffer_capacity
}

/// The first `count` bytes of the clip's data can be read.
pub open spec fn readable_up_to(memory: GuestMemory, clip: LgtClip, count: int) -> bool {
    forall|i: int|
        0 <= i < count ==> memory.contains_key(#[trigger] ring_address(clip, i))
}

/// A clip with data has a ring, and every byte that is reached in it has an
/// address.
pub open spec fn ring_wf(memory: GuestMemory, clip: LgtClip) -> bool {
    clip.available_bytes > 0 ==> {
        &&& clip.buffer_capacity != 0
        &&& forall|i: int|
            0 <= i < clip.available_bytes && #[trigger] readable_up_to(memory, clip, i)
                ==> has_address(clip, i)
    }
}

/// Reads the data in the clip's ring.
pub fn circular_data<C: WIPICContext>(context: &C, clip: &LgtClip) -> (r: Result<
    Vec<u8>,
    GuestError,
>)
    requires
        ring_wf(context.memory(), *clip),
    ensures
        match r {
            Ok(data) => ring_readable(context.memory(), *clip) && data@ == ring_data(
                context.memory(),
                *clip,
            ),
            Err(_) => !ring_readable(context.memory(), *clip),
        },
{
    let length: u32 = if clip.available_bytes > 0 {
        clip.available_bytes as u32
    } else {
        0
    };
    let mut data: Vec<u8> = Vec::new();
    let offset: u64 = if clip.read_offset > 0 {
        clip.read_offset as u64
    } else {
        0
    };
    let mut index: u32 = 0;
    while index < length
        invariant
            index <= length,
            length == at_least_zero(clip.available_bytes),
            offset == at_least_zero(clip.read_offset),
            ring_wf(context.memory(), *clip),
            data@ == ring_data(context.memory(), *clip).take(index as int),
            readable_up_to(context.memory(), *clip, index as int),
        decreases length - index,
    {
        let place: u64 = offset + index as u64;
        assert(readable_up_to(context.memory(), *clip, index as int));
        assert(has_address(*clip, index as int));
        let position: u64 = if clip.buffer_capacity > 0 {
            place % (clip.buffer_capacity as u64)
        } else {
            place
        };
        let address: u32 = clip.primary_buffer + position as u32;
        assert(address == ring_address(*clip, index as int));
        assert(nth_address(address, 0) == address);
        match context.read_bytes(address, 1) {
            Ok(byte) => {
                assert(byte@[0] == context.memory()[address]);
                assert(context.memory().contains_key(nth_address(address, 0)));
                data.push(byte[0]);
            },
            Err(error) => {
                proof {
                    if context.memory().contains_key(address) {
                        assert(readable(context.memory(), address, 1));
                    }
                }
                return Err(error);
            },
        }
        index += 1;
        assert(data@ =~= ring_data(context.memory(), *clip).take(index as int));
    }
    assert(data@ =~= ring_data(context.memory(), *clip));
    Ok(data)
}

/// What telling the guest of `event` asks for: a call in the millisecond after `now`.
pub open spec fn callback_requests(clip: LgtClip, event: u32, now: u64) -> Seq<Request> {
    if clip.callback == 0 {
        Seq::empty()
    } else {
        seq![
            Request::Timer {
                due: (now + 1) as u64,
                callback: clip.callback,
                user_data: clip.callback_user_data,
                event,
            },
        ]
    }
}

/// Has the guest told of `event`, if it asked for that. The clock shows `now`.
pub fn schedule_callback<C: WIPICContext>(context: &mut C, clip: &LgtClip, event: u32, now: u64)
    requires
        clip.callback != 0 ==> now < u64::MAX,
    ensures
        final(context).memory() == old(context).memory(),
        final(context).requests() == old(context).requests() + callback_requests(*clip, event, now),
{
    if clip.callback != 0 {
        context.set_timer(now + 1, clip.callback, clip.callback_user_data, event);
    }
    assert(context.requests() =~= old(context).requests() + callback_requests(*clip, event, now));
}

/// What `play` asks for to get a handle: nothing where the clip has one, else its
/// data loaded, with this outcome.
pub open spec fn load_requests(
    memory: GuestMemory,
    clip: LgtClip,
    loaded: Option<AudioHandle>,
) -> Seq<Request> {
    if clip.player_handle >= 0 {
        Seq::empty()
    } else {
        seq![Request::LoadSmaf { data: ring_data(memory, clip), result: loaded }]
    }
}

/// The handle that `play` plays, if there is one.
pub open spec fn handle_of(clip: LgtClip, loaded: Option<AudioHandle>) -> Option<AudioHandle> {
    if clip.player_handle >= 0 {
        Some(clip.player_handle as u32)
    } else {
        loaded
    }
}

/// The record of a clip that plays under this handle.
pub open spec fn sounding(clip: LgtClip, handle: AudioHandle) -> LgtClip {
    LgtClip { player_handle: handle as i32, state_flags: clip.state_flags | PLAYING, ..clip }
}

/// The record of a clip that could not be played.
pub open spec fn silent(clip: LgtClip) -> LgtClip {
    LgtClip { player_handle: NO_PLAYER, state_flags: clip.state_flags & !PLAYING, ..clip }
}

/// What `play` does with a clip that can be played, where loading and starting its
/// data had these outcomes.
pub open spec fn is_played<C: WIPICContext>(
    after: C,
    before: C,
    clip_ptr: u32,
    clip: LgtClip,
    repeat: u32,
    now: u64,
    loaded: Option<AudioHandle>,
    started: bool,
    r: Result<i32, GuestError>,
) -> bool {
    let log = before.requests() + load_requests(before.memory(), clip, loaded);
    match handle_of(clip, loaded) {
        None => {
            &&& r == Ok::<i32, GuestError>(FAILED)
            &&& after.memory() == before.memory()
            &&& after.requests() == log
        },
        Some(handle) => {
            let log = log.push(Request::Play { handle, repeat: repeat != 0, done: started });
            if started {
                let record = sounding(clip, handle);
                &&& is_kept(after, before, clip_ptr, record, 0, r)
                &&& after.requests() == if r is Ok {
                    log + callback_requests(record, 2, now)
                } else {
                    log
                }
            } else {
                &&& is_kept(
                    after,
                    before,
                    clip_ptr,
                    silent(clip),
                    FAILED,
                    r,
                )
                &&& after.requests() == log.push(Request::Close { handle })
            }
        },
    }
}

/// What `play` comes to: a clip is played that has a player, does not play yet and whose
/// data can be read.
pub open spec fn is_play<C: WIPICContext>(
    after: C,
    before: C,
    clip_ptr: u32,
    repeat: u32,
    now: u64,
    r: Result<i32, GuestError>,
) -> bool {
    match known(before.memory(), clip_ptr) {
        None => is_refusal(after, before, clip_ptr, r),
        Some(clip) => if !clip.has(PLAYER_ALLOCATED) {
            r == Ok::<i32, GuestError>(FAILED) && untouched(after, before)
        } else if clip.has(PLAYING | STOPPING) {
            r == Ok::<i32, GuestError>(BUSY) && untouched(after, before)
        } else if clip.player_handle < 0 && !ring_readable(before.memory(), clip) {
            r is Err && untouched(after, before)
        } else {
            exists|loaded: Option<AudioHandle>, started: bool|
                #[trigger] is_played(
                    after,
                    before,
                    clip_ptr,
                    clip,
                    repeat,
                    now,
                    loaded,
                    started,
                    r,
                )
        },
    }
}

/// Plays a clip that has a player. The clock shows `now`.
pub fn play<C: WIPICContext>(context: &mut C, clip_ptr: u32, repeat: u32, now: u64) -> (r: Result<
    i32,
    GuestError,
>)
    requires
        known(old(context).memory(), clip_ptr) matches Some(clip) ==> (clip.callback != 0 ==> now
            < u64::MAX),
        known(old(context).memory(), clip_ptr) matches Some(clip) ==> (clip.has(PLAYER_ALLOCATED)
            && !clip.has(PLAYING | STOPPING) && clip.player_handle < 0 ==> ring_wf(
            old(context).memory(),
            clip,
        )),
    ensures
        is_play(*final(context), *old(context), clip_ptr, repeat, now, r),
{
    let ghost first = *context;
    let mut clip = match find_clip(context, clip_ptr) {
        Ok(Some(clip)) => clip,
        Ok(None) => return Ok(INVALID),
        Err(error) => return Err(error),
    };
    let ghost record = clip;
    if clip.state_flags & PLAYER_ALLOCATED == 0 {
        return Ok(FAILED);
    }
    if clip.state_flags & (PLAYING | STOPPING) != 0 {
        return Ok(BUSY);
    }
    let ghost mut outcome: Option<AudioHandle> = None;
    let handle: AudioHandle = if clip.player_handle >= 0 {
        clip.player_handle as AudioHandle
    } else {
        let data = match circular_data(context, &clip) {
            Ok(data) => data,
            Err(error) => return Err(error),
        };
        let loaded = context.load_smaf(data.as_slice());
        proof {
            outcome = loaded;
            assert(context.requests() =~= first.requests() + load_requests(
                first.memory(),
                record,
                outcome,
            ));
        }
        match loaded {
            Some(handle) => handle,
            None => {
                let r = Ok(FAILED);
                assert(is_played(
                    *context,
                    first,
                    clip_ptr,
                    record,
                    repeat,
                    now,
                    outcome,
                    false,
                    r,
                ));
                return r;
            },
        }
    };
    proof {
        assert(context.requests() =~= first.requests() + load_requests(
            first.memory(),
            record,
            outcome,
        ));
    }
    if !context.play_audio(handle, repeat != 0) {
        context.close_audio(handle);
        clip.player_handle = NO_PLAYER;
        clip.state_flags = clip.state_flags & !PLAYING;
        let r = match write_clip(context, clip_ptr, clip) {
            Ok(()) => Ok(FAILED),
            Err(error) => Err(error),
        };
        assert(is_played(*context, first, clip_ptr, record, repeat, now, outcome, false, r));
        return r;
    }
    clip.player_handle = handle as i32;
    clip.state_flags = clip.state_flags | PLAYING;
    if let Err(error) = write_clip(context, clip_ptr, clip) {
        let r = Err(error);
        assert(is_played(*context, first, clip_ptr, record, repeat, now, outcome, true, r));
        return r;
    }
    schedule_callback(context, &clip, 2, now);
    let r = Ok(0);
    assert(is_played(*context, first, clip_ptr, record, repeat, now, outcome, true, r));
    r
}

/// The record of a clip that was stopped.
pub open spec fn stopped(clip: LgtClip) -> LgtClip {
    LgtClip { state_flags: clip.state_flags & !(PLAYING | STOPPING), ..clip }
}

/// What `stop` comes to: a clip that plays is stopped, unless it is of a kind that cannot
/// be.
pub open spec fn is_stop<C: WIPICContext>(
    after: C,
    before: C,
    clip_ptr: u32,
    now: u64,
    r: Result<i32, GuestError>,
) -> bool {
    match known(before.memory(), clip_ptr) {
        None => is_refusal(after, before, clip_ptr, r),
        Some(clip) => if !clip.has(PLAYING | STOPPING) {
            r == Ok::<i32, GuestError>(FAILED) && untouched(after, before)
        } else if clip.media_kind == 4 || clip.media_kind == 5 {
            r == Ok::<i32, GuestError>(NOT_STOPPABLE) && untouched(
                after,
                before,
            )
        } else {
            let record = stopped(clip);
            let log = before.requests() + if clip.player_handle >= 0 {
                seq![Request::Stop { handle: clip.player_handle as u32 }]
            } else {
                Seq::empty()
            };
            &&& is_kept(after, before, clip_ptr, record, 0, r)
            &&& after.requests() == if r is Ok {
                log + callback_requests(record, 3, now)
            } else {
                log
            }
        },
    }
}

/// Stops a clip that plays. The clock shows `now`.
pub fn stop<C: WIPICContext>(context: &mut C, clip_ptr: u32, now: u64) -> (r: Result<
    i32,
    GuestError,
>)
    requires
        known(old(context).memory(), clip_ptr) matches Some(clip) ==> (clip.callback != 0 ==> now
            < u64::MAX),
    ensures
        is_stop(*final(context), *old(context), clip_ptr, now, r),
{
    let ghost first = *context;
    let mut clip = match find_clip(context, clip_ptr) {
        Ok(Some(clip)) => clip,
        Ok(None) => return Ok(INVALID),
        Err(error) => return Err(error),
    };
    if clip.state_flags & (PLAYING | STOPPING) == 0 {
        return Ok(FAILED);
    }
    if clip.media_kind == 4 || clip.media_kind == 5 {
        return Ok(NOT_STOPPABLE);
    }
    if clip.player_handle >= 0 {
        context.stop_audio(clip.player_handle as AudioHandle);
    }
    proof {
        assert(context.requests() =~= first.requests() + if clip.player_handle >= 0 {
            seq![Request::Stop { handle: clip.player_handle as u32 }]
        } else {
            Seq::empty()
        });
    }
    clip.state_flags = clip.state_flags & !(PLAYING | STOPPING);
    if let Err(error) = write_clip(context, clip_ptr, clip) {
        return Err(error);
    }
    schedule_callback(context, &clip, 3, now);
    Ok(0)
}

/// What a service on the volume of `clip` answers.
pub open spec fn is_volume_reply(memory: GuestMemory, clip: u32, r: Result<i32, GuestError>) -> bool {
    &&& found(memory, clip) is Err ==> r is Err
    &&& clip != 0 && is_unset(memory) ==> says_unset(r)
    &&& found(memory, clip) matches Ok(record) ==> r == Ok::<i32, GuestError>(
        if record is Some {
            0
        } else {
            INVALID
        },
    )
}

/// The volume of a clip, which is always 0.
pub fn clip_get_volume<C: WIPICContext>(context: &C, clip: u32) -> (r: Result<i32, GuestError>)
    ensures
        is_volume_reply(context.memory(), clip, r),
{
    match find_clip(context, clip) {
        Ok(Some(_)) => Ok(0),
        Ok(None) => Ok(INVALID),
        Err(error) => Err(error),
    }
}

/// Takes a volume for a clip, without effect.
pub fn clip_set_volume<C: WIPICContext>(context: &C, clip: u32, volume: u32) -> (r: Result<
    i32,
    GuestError,
>)
    ensures
        is_volume_reply(context.memory(), clip, r),
{
    match find_clip(context, clip) {
        Ok(Some(_)) => Ok(0),
        Ok(None) => Ok(INVALID),
        Err(error) => Err(error),
    }
}

/// The strength of a vibration in percent.
pub open spec fn strength_of(level: i32) -> u8 {
    if level <= 0 {
        0
    } else if level >= 10 {
        100
    } else {
        (level * 10) as u8
    }
}

/// What a guest that vibrates asks of the machine.
pub open spec fn vibration(level: i32, timeout: i32) -> Request {
    Request::Vibrate {
        duration_ms: at_least_zero(timeout) as u64,
        intensity: strength_of(level),
    }
}

/// Vibrates for `timeout` milliseconds; a level of 10 is full strength.
pub fn vibrator<C: WIPICContext>(context: &mut C, level: i32, timeout: i32) -> (r: Result<
    i32,
    GuestError,
>)
    ensures
        r == Ok::<i32, GuestError>(0),
        final(context).memory() == old(context).memory(),
        final(context).requests() == old(context).requests().push(vibration(level, timeout)),
{
    let duration: u64 = if timeout > 0 {
        timeout as u64
    } else {
        0
    };
    let strength: u8 = if level <= 0 {
        0
    } else if level >= 10 {
        100
    } else {
        (level * 10) as u8
    };
    context.vibrate(duration, strength);
    Ok(0)
}

/// Nothing is ever muted.
pub fn get_mute_state(source: u32) -> (r: Result<i32, GuestError>)
    ensures
        r == Ok::<i32, GuestError>(0),
{
    Ok(0)
}

/// Takes a mute state, without effect.
pub fn set_mute_state(source: i32, mute: i32) -> (r: Result<i32, GuestError>)
    ensures
        r == Ok::<i32, GuestError>(0),
{
    Ok(0)
}

/// The media state was set up, where `block` came of the request for its memory.
pub open spec fn is_set_up<C: WIPICContext>(
    after: C,
    before: C,
    block: Option<u32>,
    r: Result<(), GuestError>,
) -> bool {
    let empty = MediaState { first_clip: 0, last_clip: 0, clip_count: 0 };
    &&& after.requests() == before.requests().push(alloc_request(STATE_SIZE as u32, block))
    &&& match block {
        Some(address) if after.writable(address, STATE_SIZE as int) => {
            let prepared = with_state(before.memory(), address, empty);
            &&& r is Ok <==> after.writable(MEDIA_STATE_ROOT, 4)
            &&& after.memory() == if r is Ok {
                stored(prepared, MEDIA_STATE_ROOT, bytes_of(seq![address]))
            } else {
                attempted(after, prepared, MEDIA_STATE_ROOT, bytes_of(seq![address]))
            }
        },
        Some(address) => r is Err && after.memory() == state_attempted(
            after,
            before.memory(),
            address,
            empty,
        ),
        None => r is Err && after.memory() == before.memory(),
    }
}

/// Sets up the media state of a process: no clips, at a block of its own.
pub fn init_process_state<C: WIPICContext>(context: &mut C) -> (r: Result<(), GuestError>)
    ensures
        exists|block: Option<u32>| #[trigger]
            is_set_up(*final(context), *old(context), block, r),
{
    let address = match context.alloc_raw(STATE_SIZE as u32) {
        Ok(address) => address,
        Err(error) => {
            let r = Err(error);
            assert(is_set_up(*context, *old(context), None, r));
            return r;
        },
    };
    if let Err(error) = write_state(
        context,
        address,
        MediaState { first_clip: 0, last_clip: 0, clip_count: 0 },
    ) {
        let r = Err(error);
        assert(is_set_up(*context, *old(context), Some(address), r));
        return r;
    }
    let words = vec![address];
    assert(words@ =~= seq![address]);
    let bytes = to_bytes(&words);
    let r = context.write_bytes(MEDIA_STATE_ROOT, bytes.as_slice());
    assert(is_set_up(*context, *old(context), Some(address), r));
    r
}

// ---------------------------------------------------------------------------
// What the ring gives back

proof fn lemma_mod_step(a: int, j: int, c: int)
    requires
        0 < c,
        0 <= a,
        0 <= j,
        a % c + j < c,
    ensures
        (a + j) % c == a % c + j,
{
    vstd::arithmetic::div_mod::lemma_fundamental_div_mod(a, c);
    let q = a / c;
    let r = a % c + j;
    assert(a + j == q * c + r) by (nonlinear_arith)
        requires
            a == c * q + a % c,
            r == a % c + j,
    ;
    vstd::arithmetic::div_mod::lemma_fundamental_div_mod_converse(a + j, c, q, r);
}

proof fn lemma_mod_distinct(a: int, d: int, c: int)
    requires
        0 < d < c,
        0 <= a,
    ensures
        a % c != (a + d) % c,
{
    if a % c == (a + d) % c {
        vstd::arithmetic::div_mod::lemma_fundamental_div_mod(a, c);
        vstd::arithmetic::div_mod::lemma_fundamental_div_mod(a + d, c);
        let p = a / c;
        let q = (a + d) / c;
        assert(d == c * (q - p)) by (nonlinear_arith)
            requires
                a == c * p + a % c,
                a + d == c * q + (a + d) % c,
                a % c == (a + d) % c,
        ;
        assert(false) by (nonlinear_arith)
            requires
                d == c * (q - p),
                0 < d < c,
        ;
    }
}

/// The address of place `k` of a ring.
pub open spec fn ring_place(buffer: u32, capacity: int, k: int) -> u32 {
    nth_address(buffer, k % capacity)
}

proof fn lemma_ring_places(buffer: u32, capacity: int, i: int, j: int)
    requires
        0 < capacity,
        buffer + capacity <= ADDRESS_SPACE,
        0 <= i < j < i + capacity,
    ensures
        ring_place(buffer, capacity, i) != ring_place(buffer, capacity, j),
{
    lemma_mod_distinct(i, j - i, capacity);
}

/// Filling a ring puts the source bytes into their places and changes nothing
/// else, where the source lies apart from the ring.
proof fn lemma_ring_filled<C: WIPICContext>(
    context: C,
    memory: GuestMemory,
    source: u32,
    buffer: u32,
    capacity: int,
    start: int,
    copied: int,
    accepted: int,
)
    requires
        0 < capacity,
        buffer + capacity <= ADDRESS_SPACE,
        0 <= start,
        0 <= copied <= accepted <= capacity,
        source + accepted <= ADDRESS_SPACE,
        apart(source, accepted, buffer, capacity),
        readable(memory, source, accepted),
        ring_filled(context, memory, source, buffer, capacity, start, copied, accepted) is Done,
    ensures
        ({
            let filled = ring_filled(
                context,
                memory,
                source,
                buffer,
                capacity,
                start,
                copied,
                accepted,
            )->Done_0;
            &&& forall|k: int|
                copied <= k < accepted ==> {
                    let x = #[trigger] ring_place(buffer, capacity, start + k);
                    filled.contains_key(x) && filled[x] == memory[nth_address(source, k)]
                }
            &&& forall|x: u32| #[trigger]
                memory.contains_key(x) && (forall|k: int|
                    copied <= k < accepted ==> #[trigger] ring_place(buffer, capacity, start + k)
                        != x) ==> filled.contains_key(x) && filled[x] == memory[x]
        }),
    decreases accepted - copied,
{
    if copied < accepted {
        let offset = (start + copied) % capacity;
        let chunk = chunk_length(capacity, offset, accepted - copied);
        let from = nth_address(source, copied);
        let to = nth_address(buffer, offset);
        let next = stored(memory, to, content(memory, from, chunk));
        assert(offset + chunk <= capacity && 0 < chunk);
        lemma_stored_apart(memory, to, content(memory, from, chunk), source, accepted);
        lemma_ring_filled(
            context,
            next,
            source,
            buffer,
            capacity,
            start,
            copied + chunk,
            accepted,
        );
        let filled = ring_filled(
            context,
            memory,
            source,
            buffer,
            capacity,
            start,
            copied,
            accepted,
        )->Done_0;
        assert forall|j: int| 0 <= j < chunk implies #[trigger] ring_place(
            buffer,
            capacity,
            start + (copied + j),
        ) == to + j by {
            lemma_mod_step(start + copied, j, capacity);
        }
        assert forall|k: int| copied <= k < accepted implies {
            let x = #[trigger] ring_place(buffer, capacity, start + k);
            filled.contains_key(x) && filled[x] == memory[nth_address(source, k)]
        } by {
            let x = ring_place(buffer, capacity, start + k);
            if k < copied + chunk {
                let j = k - copied;
                assert(ring_place(buffer, capacity, start + (copied + j)) == to + j);
                assert(x == to + j);
                assert(next.contains_key(x));
                assert forall|l: int| copied + chunk <= l < accepted implies #[trigger] ring_place(
                    buffer,
                    capacity,
                    start + l,
                ) != x by {
                    lemma_ring_places(buffer, capacity, start + k, start + l);
                }
                assert(filled[x] == next[x]);
                assert(next[x] == content(memory, from, chunk)[j]);
                assert(nth_address(from, j) == nth_address(source, k));
            } else {
                let y = nth_address(source, k);
                assert(memory.contains_key(y));
                assert(filled[x] == next[y]);
                assert(next[y] == memory[y]);
            }
        }
        assert forall|x: u32| #[trigger]
            memory.contains_key(x) && (forall|k: int|
                copied <= k < accepted ==> #[trigger] ring_place(buffer, capacity, start + k)
                    != x) implies filled.contains_key(x) && filled[x] == memory[x] by {
            assert forall|k: int| copied + chunk <= k < accepted implies #[trigger] ring_place(
                buffer,
                capacity,
                start + k,
            ) != x by {}
            assert(next.contains_key(x));
            assert(filled[x] == next[x]);
            if to <= x < to + chunk {
                let j = x - to;
                assert(ring_place(buffer, capacity, start + (copied + j)) == x);
            }
        }
    }
}

/// Filling a ring leaves what lies apart from it as it is.
proof fn lemma_ring_apart<C: WIPICContext>(
    context: C,
    memory: GuestMemory,
    source: u32,
    buffer: u32,
    capacity: int,
    start: int,
    accepted: int,
    other: u32,
    size: int,
)
    requires
        0 < capacity,
        buffer + capacity <= ADDRESS_SPACE,
        0 <= start,
        0 <= accepted <= capacity,
        source + accepted <= ADDRESS_SPACE,
        apart(source, accepted, buffer, capacity),
        readable(memory, source, accepted),
        ring_filled(context, memory, source, buffer, capacity, start, 0, accepted) is Done,
        0 <= size,
        apart(other, size, buffer, capacity),
        readable(memory, other, size),
    ensures
        ({
            let filled = ring_filled(
                context,
                memory,
                source,
                buffer,
                capacity,
                start,
                0,
                accepted,
            )->Done_0;
            &&& readable(filled, other, size)
            &&& content(filled, other, size) == content(memory, other, size)
        }),
{
    let filled = ring_filled(
        context,
        memory,
        source,
        buffer,
        capacity,
        start,
        0,
        accepted,
    )->Done_0;
    lemma_ring_filled(context, memory, source, buffer, capacity, start, 0, accepted);
    assert forall|i: int| 0 <= i < size implies filled.contains_key(
        #[trigger] nth_address(other, i),
    ) && filled[nth_address(other, i)] == memory[nth_address(other, i)] by {
        let x = nth_address(other, i);
        assert(memory.contains_key(x));
        assert forall|k: int| 0 <= k < accepted implies #[trigger] ring_place(
            buffer,
            capacity,
            start + k,
        ) != x by {
            vstd::arithmetic::div_mod::lemma_mod_bound(start + k, capacity);
        }
    }
    assert(content(filled, other, size) =~= content(memory, other, size));
}

/// Filling a clip's ring leaves the clips of the process as they are, where the ring
/// lies apart from their records.
pub proof fn lemma_filled_ring_keeps_clips<C: WIPICContext>(
    context: C,
    memory: GuestMemory,
    state_at: u32,
    state: MediaState,
    clips: Seq<u32>,
    source: u32,
    buffer: u32,
    capacity: int,
    start: int,
    accepted: int,
)
    requires
        is_process(memory, state_at, state, clips),
        0 < capacity,
        buffer + capacity <= ADDRESS_SPACE,
        0 <= start,
        0 <= accepted <= capacity,
        source + accepted <= ADDRESS_SPACE,
        apart(source, accepted, buffer, capacity),
        apart(MEDIA_STATE_ROOT, 4, buffer, capacity),
        apart(state_at, STATE_SIZE as int, buffer, capacity),
        forall|i: int|
            0 <= i < clips.len() ==> apart(
                #[trigger] clips[i],
                CLIP_SIZE as int,
                buffer,
                capacity,
            ),
        readable(memory, source, accepted),
        ring_filled(context, memory, source, buffer, capacity, start, 0, accepted) is Done,
    ensures
        ({
            let filled = ring_filled(
                context,
                memory,
                source,
                buffer,
                capacity,
                start,
                0,
                accepted,
            )->Done_0;
            &&& is_process(filled, state_at, state, clips)
            &&& forall|i: int|
                0 <= i < clips.len() ==> clip_at(filled, #[trigger] clips[i]) == clip_at(
                    memory,
                    clips[i],
                )
        }),
{
    reveal(is_member);
    reveal(clip_at);
    let filled = ring_filled(
        context,
        memory,
        source,
        buffer,
        capacity,
        start,
        0,
        accepted,
    )->Done_0;
    lemma_ring_apart(
        context,
        memory,
        source,
        buffer,
        capacity,
        start,
        accepted,
        MEDIA_STATE_ROOT,
        4,
    );
    lemma_ring_apart(
        context,
        memory,
        source,
        buffer,
        capacity,
        start,
        accepted,
        state_at,
        STATE_SIZE as int,
    );
    assert forall|i: int| 0 <= i < clips.len() implies is_member(filled, state_at, clips, i)
        && clip_at(filled, #[trigger] clips[i]) == clip_at(memory, clips[i]) by {
        assert(is_member(memory, state_at, clips, i));
        lemma_ring_apart(
            context,
            memory,
            source,
            buffer,
            capacity,
            start,
            accepted,
            clips[i],
            CLIP_SIZE as int,
        );
    }
}

/// A record written leaves every byte outside it as it is.
proof fn lemma_record_apart(memory: GuestMemory, address: u32, clip: LgtClip)
    ensures
        forall|x: u32| #[trigger]
            memory.contains_key(x) && !(address <= x < address + CLIP_SIZE) ==> with_clip(
                memory,
                address,
                clip,
            )[x] == memory[x],
{
    reveal(with_clip);
    lemma_clip_round_trip(clip);
}

/// The data that was put into a clip can be taken out again, behind what was there
/// before. The guest's source and the clip's record must lie apart from the ring.
pub proof fn lemma_put_data_reads_back<C: WIPICContext>(
    context: C,
    memory: GuestMemory,
    clip_ptr: u32,
    clip: LgtClip,
    source: u32,
    requested: u32,
)
    requires
        clip.buffer_capacity > 0,
        clip.primary_buffer + clip.buffer_capacity <= ADDRESS_SPACE,
        0 <= clip.available_bytes <= clip.buffer_capacity,
        source + room_for(clip, requested) <= ADDRESS_SPACE,
        clip_ptr + CLIP_SIZE <= ADDRESS_SPACE,
        readable(memory, source, room_for(clip, requested)),
        ring_readable(memory, clip),
        apart(
            source,
            room_for(clip, requested),
            clip.primary_buffer,
            clip.buffer_capacity as int,
        ),
        apart(
            clip_ptr,
            CLIP_SIZE as int,
            clip.primary_buffer,
            clip.buffer_capacity as int,
        ),
        ring_filled(
            context,
            memory,
            source,
            clip.primary_buffer,
            clip.buffer_capacity as int,
            ring_end(clip),
            0,
            room_for(clip, requested),
        ) is Done,
    ensures
        ({
            let accepted = room_for(clip, requested);
            let filled = ring_filled(
                context,
                memory,
                source,
                clip.primary_buffer,
                clip.buffer_capacity as int,
                ring_end(clip),
                0,
                accepted,
            )->Done_0;
            let after = with_clip(filled, clip_ptr, extended(clip, accepted));
            ring_data(after, extended(clip, accepted)) == ring_data(memory, clip) + content(
                memory,
                source,
                accepted,
            )
        }),
{
    let accepted = room_for(clip, requested);
    let capacity = clip.buffer_capacity as int;
    let buffer = clip.primary_buffer;
    let offset = at_least_zero(clip.read_offset);
    let available = at_least_zero(clip.available_bytes);
    let start = offset + available;
    lemma_ring_filled(context, memory, source, buffer, capacity, start, 0, accepted);
    let filled = ring_filled(context, memory, source, buffer, capacity, start, 0, accepted)->Done_0;
    let record = extended(clip, accepted);
    let after = with_clip(filled, clip_ptr, record);
    lemma_with_clip(filled, clip_ptr, record);
    lemma_record_apart(filled, clip_ptr, record);
    assert(record.available_bytes == available + accepted);
    assert forall|i: int| 0 <= i < available + accepted implies ring_data(after, record)[i] == (
    ring_data(memory, clip) + content(memory, source, accepted))[i] by {
        let x = ring_place(buffer, capacity, offset + i);
        assert(x == ring_address(record, i));
        if i < available {
            assert forall|k: int| 0 <= k < accepted implies #[trigger] ring_place(
                buffer,
                capacity,
                start + k,
            ) != x by {
                lemma_ring_places(buffer, capacity, offset + i, start + k);
            }
            assert(x == ring_address(clip, i));
            assert(memory.contains_key(x));
            assert(after[x] == memory[x]);
        } else {
            let k = i - available;
            assert(x == ring_place(buffer, capacity, start + k));
            assert(filled[x] == memory[nth_address(source, k)]);
            assert(filled.contains_key(x));
            assert(after[x] == filled[x]);
        }
    }
    assert(ring_data(after, record) =~= ring_data(memory, clip) + content(
        memory,
        source,
        accepted,
    ));
}

// ---------------------------------------------------------------------------
// What the services ask for

/// The requests to play among `requests`, in order: what, whether it is to repeat, and
/// whether it was started.
pub open spec fn plays(requests: Seq<Request>) -> Seq<(AudioHandle, bool, bool)>
    decreases requests.len(),
{
    if requests.len() == 0 {
        Seq::empty()
    } else {
        let before = plays(requests.drop_last());
        match requests.last() {
            Request::Play { handle, repeat, done } => before.push((handle, repeat, done)),
            _ => before,
        }
    }
}

proof fn lemma_plays_push(requests: Seq<Request>, request: Request)
    ensures
        plays(requests.push(request)) == match request {
            Request::Play { handle, repeat, done } => plays(requests).push((handle, repeat, done)),
            _ => plays(requests),
        },
{
    assert(requests.push(request).drop_last() =~= requests);
}

proof fn lemma_plays_concat(a: Seq<Request>, b: Seq<Request>)
    requires
        forall|i: int| 0 <= i < b.len() ==> !((#[trigger] b[i]) is Play),
    ensures
        plays(a + b) == plays(a),
    decreases b.len(),
{
    if b.len() == 0 {
        assert(a + b =~= a);
    } else {
        lemma_plays_concat(a, b.drop_last());
        assert((a + b).drop_last() =~= a + b.drop_last());
    }
}

/// `after` has just one request to play more than `before`, to repeat or not, which was
/// started or not.
pub open spec fn plays_one_more(
    after: Seq<Request>,
    before: Seq<Request>,
    repeat: bool,
    done: bool,
) -> bool {
    exists|handle: AudioHandle|
        plays(after) == #[trigger] plays(before).push((handle, repeat, done))
}

/// Whatever comes of `play`, it asks for one sound at most, and for none to repeat that
/// the guest did not want repeated, nor the other way round. Where it succeeds, exactly
/// one sound was started.
pub proof fn lemma_play_repeats_as_asked<C: WIPICContext>(
    after: C,
    before: C,
    clip_ptr: u32,
    repeat: u32,
    now: u64,
    r: Result<i32, GuestError>,
)
    requires
        is_play(after, before, clip_ptr, repeat, now, r),
    ensures
        plays(after.requests()) == plays(before.requests()) || plays_one_more(
            after.requests(),
            before.requests(),
            repeat > 0,
            true,
        ) || plays_one_more(after.requests(), before.requests(), repeat > 0, false),
        r == Ok::<i32, GuestError>(0) ==> plays_one_more(
            after.requests(),
            before.requests(),
            repeat > 0,
            true,
        ),
        r matches Ok(code) ==> code == 0 || plays(after.requests()) == plays(before.requests())
            || !plays(after.requests()).last().2,
{
    if let Some(clip) = known(before.memory(), clip_ptr) {
        if clip.has(PLAYER_ALLOCATED) && !clip.has(PLAYING | STOPPING) && !(clip.player_handle < 0
            && !ring_readable(before.memory(), clip)) {
            let (loaded, started) = choose|loaded: Option<AudioHandle>, started: bool|
                #[trigger] is_played(
                    after,
                    before,
                    clip_ptr,
                    clip,
                    repeat,
                    now,
                    loaded,
                    started,
                    r,
                );
            let load = load_requests(before.memory(), clip, loaded);
            lemma_plays_concat(before.requests(), load);
            let log = before.requests() + load;
            if let Some(handle) = handle_of(clip, loaded) {
                let play = Request::Play { handle, repeat: repeat > 0, done: started };
                lemma_plays_push(log, play);
                let told = callback_requests(sounding(clip, handle), 2, now);
                lemma_plays_concat(log.push(play), told);
                lemma_plays_push(log.push(play), Request::Close { handle });
                assert(plays(log.push(play)) == plays(before.requests()).push(
                    (handle, repeat > 0, started),
                ));
            }
        }
    }
}

/// A clip that was started is marked as playing, under a handle, and keeps all else: its
/// place in the list, its data and whom to tell. The guest is told of it a millisecond
/// later, if it wants to be.
pub proof fn lemma_started_clip_plays<C: WIPICContext>(
    after: C,
    before: C,
    clip_ptr: u32,
    repeat: u32,
    now: u64,
    clip: LgtClip,
)
    requires
        is_play(after, before, clip_ptr, repeat, now, Ok(0)),
        known(before.memory(), clip_ptr) == Some(clip),
        now < u64::MAX,
    ensures
        exists|record: LgtClip|
            {
                &&& after.memory() == #[trigger] with_clip(before.memory(), clip_ptr, record)
                &&& record.state_flags & 1 == 1
                &&& record.state_flags | 1 == clip.state_flags | 1
                &&& record.next == clip.next && record.previous == clip.previous
                &&& record.primary_buffer == clip.primary_buffer && record.buffer_capacity
                    == clip.buffer_capacity
                &&& record.read_offset == clip.read_offset && record.available_bytes
                    == clip.available_bytes
                &&& record.callback == clip.callback && record.callback_user_data
                    == clip.callback_user_data
                &&& clip.player_handle >= 0 ==> record.player_handle == clip.player_handle
            },
        clip.callback != 0 ==> after.requests().last() == (Request::Timer {
            due: (now + 1) as u64,
            callback: clip.callback,
            user_data: clip.callback_user_data,
            event: 2,
        }),
        clip.state_flags & 0x1000 != 0,
        clip.state_flags & 3 == 0,
{
    assert(PLAYING | STOPPING == 3) by (bit_vector);
    assert(FAILED != 0 && BUSY != 0 && INVALID != 0);
    let (loaded, started) = choose|loaded: Option<AudioHandle>, started: bool|
        #[trigger] is_played(after, before, clip_ptr, clip, repeat, now, loaded, started, Ok(0));
    let handle = handle_of(clip, loaded)->0;
    let record = sounding(clip, handle);
    let flags = clip.state_flags;
    assert((flags | 1) & 1 == 1 && (flags | 1) | 1 == flags | 1) by (bit_vector);
    assert(after.memory() == with_clip(before.memory(), clip_ptr, record));
}

/// What `play` loads is the data of the clip's ring, from its first byte to its last: byte
/// `i` stands `i` places behind the first, round the end of the ring.
pub proof fn lemma_ring_data_goes_round(memory: GuestMemory, clip: LgtClip, i: int)
    requires
        clip.buffer_capacity > 0,
        clip.read_offset >= 0,
        0 <= i < clip.available_bytes,
        clip.primary_buffer + clip.buffer_capacity <= u32::MAX,
    ensures
        ring_data(memory, clip).len() == clip.available_bytes,
        ring_data(memory, clip)[i] == memory[(clip.primary_buffer + (clip.read_offset + i)
            % (clip.buffer_capacity as int)) as u32],
{
    vstd::arithmetic::div_mod::lemma_mod_bound(
        clip.read_offset + i,
        clip.buffer_capacity as int,
    );
}

/// A clip that was stopped no longer counts as playing or stopping and keeps all else.
/// Its sound is asked to stop, once; the guest is told a millisecond later, if it wants
/// to be.
pub proof fn lemma_stopped_clip_is_silent<C: WIPICContext>(
    after: C,
    before: C,
    clip_ptr: u32,
    now: u64,
    clip: LgtClip,
)
    requires
        is_stop(after, before, clip_ptr, now, Ok(0)),
        known(before.memory(), clip_ptr) == Some(clip),
        now < u64::MAX,
    ensures
        exists|record: LgtClip|
            {
                &&& after.memory() == #[trigger] with_clip(before.memory(), clip_ptr, record)
                &&& record.state_flags & 3 == 0
                &&& record == (LgtClip { state_flags: record.state_flags, ..clip })
                &&& record.state_flags | 3 == clip.state_flags | 3
            },
        clip.state_flags & 3 != 0,
        ({
            let stop = if clip.player_handle >= 0 {
                seq![Request::Stop { handle: clip.player_handle as u32 }]
            } else {
                Seq::empty()
            };
            let told = if clip.callback != 0 {
                seq![
                    Request::Timer {
                        due: (now + 1) as u64,
                        callback: clip.callback,
                        user_data: clip.callback_user_data,
                        event: 3,
                    },
                ]
            } else {
                Seq::empty()
            };
            after.requests() == before.requests() + stop + told
        }),
{
    assert(PLAYING | STOPPING == 3) by (bit_vector);
    assert(FAILED != 0 && NOT_STOPPABLE != 0 && INVALID != 0);
    let flags = clip.state_flags;
    assert((flags & !3u32) & 3 == 0 && (flags & !3u32) | 3 == flags | 3) by (bit_vector);
    let record = stopped(clip);
    assert(after.memory() == with_clip(before.memory(), clip_ptr, record));
}

/// A new clip has the buffer and the callback that were asked for, no data, no player and
/// no neighbours yet; the callback is told of the clip by its address.
pub proof fn lemma_fresh_clip_is_empty(
    memory: GuestMemory,
    clip: u32,
    capacity: u32,
    callback: u32,
    type_at: u32,
    buffer_at: u32,
)
    requires
        capacity <= i32::MAX,
    ensures
        ({
            let record = fresh_clip(clip, capacity, callback, type_at, buffer_at);
            &&& record.buffer_capacity == capacity && record.primary_buffer == buffer_at
            &&& record.callback == callback && record.callback_user_data == clip
            &&& record.copied_type_string == type_at
            &&& record.player_handle < 0
            &&& record.state_flags == 0 && record.media_kind == 0
            &&& record.next == 0 && record.previous == 0
            &&& record.read_offset == 0
            &&& ring_data(memory, record) == Seq::<u8>::empty()
            &&& room_for(record, u32::MAX) == capacity
        }),
{
    let record = fresh_clip(clip, capacity, callback, type_at, buffer_at);
    assert(ring_data(memory, record) =~= Seq::<u8>::empty());
}

/// A clip takes all that is offered, or as much as makes its buffer full.
pub proof fn lemma_clip_takes_what_fits(clip: LgtClip, requested: u32)
    requires
        0 <= clip.available_bytes <= clip.buffer_capacity,
    ensures
        0 <= room_for(clip, requested) <= requested,
        room_for(clip, requested) == requested || clip.available_bytes + room_for(clip, requested)
            == clip.buffer_capacity,
        clip.available_bytes + room_for(clip, requested) <= clip.buffer_capacity,
        extended(clip, room_for(clip, requested)).available_bytes == clip.available_bytes
            + room_for(clip, requested),
        extended(clip, room_for(clip, requested)).read_offset == clip.read_offset,
        extended(clip, room_for(clip, requested)).buffer_capacity == clip.buffer_capacity,
        extended(clip, room_for(clip, requested)).primary_buffer == clip.primary_buffer,
{
}

/// An emptied clip has no data, takes as much as its buffer holds, and is the same clip
/// otherwise.
pub proof fn lemma_emptied_clip_has_no_data(memory: GuestMemory, clip: LgtClip, requested: u32)
    ensures
        ring_data(memory, emptied(clip)) == Seq::<u8>::empty(),
        clip.buffer_capacity > 0 && requested >= clip.buffer_capacity ==> room_for(
            emptied(clip),
            requested,
        ) == clip.buffer_capacity,
        emptied(clip) == (LgtClip {
            read_offset: emptied(clip).read_offset,
            available_bytes: emptied(clip).available_bytes,
            ..clip
        }),
{
    assert(ring_data(memory, emptied(clip)) =~= Seq::<u8>::empty());
}

/// A clip that was given a player can be played, and one whose player was taken away
/// cannot; neither plays on that account.
pub proof fn lemma_player_comes_and_goes(clip: LgtClip, clip_ptr: u32)
    ensures
        with_player(clip, clip_ptr).state_flags & 0x1000 == 0x1000,
        with_player(clip, clip_ptr).state_flags & 3 == clip.state_flags & 3,
        with_player(clip, clip_ptr).callback_user_data == clip_ptr,
        with_player(clip, clip_ptr).player_handle == clip.player_handle,
        without_player(clip).state_flags & 0x1000 == 0,
        without_player(clip).state_flags & 3 == clip.state_flags & 3,
        without_player(clip).player_handle < 0,
        close_requests(without_player(clip)) == Seq::<Request>::empty(),
        clip.player_handle >= 0 ==> close_requests(clip) == seq![
            Request::Close { handle: clip.player_handle as u32 },
        ],
{
    let flags = clip.state_flags;
    assert((flags | 0x1000) & 0x1000 == 0x1000 && (flags | 0x1000) & 3 == flags & 3 && (flags
        & !0x1000u32) & 0x1000 == 0 && (flags & !0x1000u32) & 3 == flags & 3) by (bit_vector);
}

/// Freeing a clip gives back what its creation took: the block of its name, with the 0
/// behind it, and the block of its buffer, each with the size that it was asked for.
pub proof fn lemma_freeing_returns_the_blocks(
    memory: GuestMemory,
    clip: u32,
    capacity: u32,
    callback: u32,
    type_at: u32,
    buffer_at: u32,
    length: int,
    name_freed: bool,
    buffer_freed: bool,
)
    requires
        0 < capacity <= i32::MAX,
        type_at != 0,
        buffer_at != 0,
        text_length(memory, type_at, 0) == Some(length),
        0 <= length < u32::MAX,
    ensures
        free_requests(
            memory,
            fresh_clip(clip, capacity, callback, type_at, buffer_at),
            name_freed,
            buffer_freed,
        ) == seq![
            Request::Free { address: type_at, size: (length + 1) as u32, done: name_freed },
            Request::Free { address: buffer_at, size: capacity, done: buffer_freed },
        ],
{
    assert(free_requests(
        memory,
        fresh_clip(clip, capacity, callback, type_at, buffer_at),
        name_freed,
        buffer_freed,
    ) =~= seq![
        Request::Free { address: type_at, size: (length + 1) as u32, done: name_freed },
        Request::Free { address: buffer_at, size: capacity, done: buffer_freed },
    ]);
}

/// A vibration grows with its level in ten equal steps from nothing to full strength.
pub proof fn lemma_vibration_grows_in_steps(level: i32)
    ensures
        strength_of(0) == 0,
        strength_of(10) == 100,
        0 <= level < 10 ==> strength_of((level + 1) as i32) == strength_of(level) + 10,
        level < 0 ==> strength_of(level) == strength_of(0),
        level > 10 ==> strength_of(level) == strength_of(10),
{
}

/// A clip that there is answers with 0, one that there is not with -9, and without a media
/// state there is an error.
pub proof fn lemma_volume_of_a_known_clip(memory: GuestMemory, clip: u32, r: Result<i32, GuestError>)
    requires
        is_volume_reply(memory, clip, r),
    ensures
        known(memory, clip) is Some ==> r == Ok::<i32, GuestError>(0),
        clip == 0 ==> (r matches Ok(code) && code == -9),
        found(memory, clip) == Ok::<Option<LgtClip>, ()>(None) ==> (r matches Ok(code) && code == -9),
        found(memory, clip) is Err ==> r is Err,
{
}

/// A vibration takes the milliseconds that were asked for, and none where they are fewer.
pub proof fn lemma_vibration_takes_its_time(level: i32, timeout: i32)
    ensures
        vibration(level, timeout) matches Request::Vibrate { duration_ms, intensity } && {
            &&& timeout >= 0 ==> duration_ms == timeout
            &&& timeout < 0 ==> duration_ms == 0
            &&& 1 <= level <= 10 ==> intensity == 10 * level
            &&& level <= 0 ==> intensity == 0
        },
{
}

/// A guest that asked for it is told of an event in the next millisecond, with what it
/// gave for itself; one that did not is told nothing.
pub proof fn lemma_guest_is_told_of_events(clip: LgtClip, event: u32, now: u64)
    requires
        now < u64::MAX,
    ensures
        clip.callback == 0 ==> callback_requests(clip, event, now).len() == 0,
        clip.callback != 0 ==> callback_requests(clip, event, now).len() == 1 && (
        callback_requests(clip, event, now)[0] matches Request::Timer {
            due,
            callback,
            user_data,
            event: told,
        } && due == now + 1 && callback == clip.callback && user_data == clip.callback_user_data
            && told == event),
{
}

proof fn lemma_text_ends(memory: GuestMemory, address: u32, from: int, length: int)
    requires
        0 <= from <= length,
        address + length < ADDRESS_SPACE,
        forall|i: int|
            from <= i <= length ==> memory.contains_key(#[trigger] nth_address(address, i)),
        forall|i: int| from <= i < length ==> memory[#[trigger] nth_address(address, i)] != 0,
        memory[nth_address(address, length)] == 0,
    ensures
        text_length(memory, address, from) == Some(length),
    decreases length - from,
{
    let here = nth_address(address, from);
    assert(memory.contains_key(here));
    assert(readable(memory, here, 1)) by {
        assert forall|i: int| 0 <= i < 1 implies memory.contains_key(
            #[trigger] nth_address(here, i),
        ) by {
            assert(nth_address(here, i) == here);
        }
    }
    if from < length {
        lemma_text_ends(memory, address, from + 1, length);
    }
}

/// A name that was copied reads back as the name, whatever was there before.
pub proof fn lemma_copied_name_reads_back(memory: GuestMemory, address: u32, name: Seq<u8>)
    requires
        address + name.len() < ADDRESS_SPACE,
        !name.contains(0),
    ensures
        text_length(with_name(memory, address, name), address, 0) == Some(name.len() as int),
        content(with_name(memory, address, name), address, name.len() as int) == name,
{
    let after = with_name(memory, address, name);
    let n = name.len() as int;
    assert forall|i: int| 0 <= i < n implies after[#[trigger] nth_address(address, i)] != 0 by {
        assert(name.contains(name[i]));
    }
    lemma_text_ends(after, address, 0, n);
    assert(content(after, address, n) =~= name);
}

/// The length of a text is where its first 0 stands.
pub proof fn lemma_text_ends_at_its_first_zero(memory: GuestMemory, address: u32, from: int)
    requires
        0 <= from,
    ensures
        text_length(memory, address, from) matches Some(length) ==> {
            &&& from <= length
            &&& memory[nth_address(address, length)] == 0
            &&& forall|i: int|
                from <= i < length ==> memory[#[trigger] nth_address(address, i)] != 0
        },
    decreases ADDRESS_SPACE - address - from,
{
    if address + from < ADDRESS_SPACE && readable(memory, nth_address(address, from), 1)
        && memory[nth_address(address, from)] != 0 {
        lemma_text_ends_at_its_first_zero(memory, address, from + 1);
    }
}

/// A process that was set up has a list without clips, so that no clip is known.
pub proof fn lemma_new_process_has_no_clips<C: WIPICContext>(
    after: C,
    before: C,
    address: u32,
    wanted: u32,
)
    requires
        is_set_up(after, before, Some(address), Ok::<(), GuestError>(())),
        address != 0,
        address + 12 <= MEDIA_STATE_ROOT || MEDIA_STATE_ROOT + 4 <= address,
        address + 12 <= ADDRESS_SPACE,
    ensures
        media_state(after.memory()) == Some(
            (address, MediaState { first_clip: 0, last_clip: 0, clip_count: 0 }),
        ),
        found(after.memory(), wanted) == Ok::<Option<LgtClip>, ()>(None),
{
    let empty = MediaState { first_clip: 0, last_clip: 0, clip_count: 0 };
    let memory = with_state(before.memory(), address, empty);
    let root = bytes_of(seq![address]);
    reveal(with_state);
    lemma_state_round_trip(empty);
    lemma_stored(before.memory(), address, bytes_of(empty.words()));
    lemma_stored(memory, MEDIA_STATE_ROOT, root);
    lemma_stored_apart(memory, MEDIA_STATE_ROOT, root, address, 12);
    assert(root.len() == 4 && bytes_of(empty.words()).len() == 12);
    lemma_word_of_bytes(seq![address], 0);
    assert(word(root, 0) == address);
}

/// A clip that is created takes three blocks, in this order: one for its name and the 0
/// behind it, one of the size that was asked for, and one for its record, whose address is
/// the clip.
pub proof fn lemma_clip_takes_three_blocks<C: WIPICContext>(
    after: C,
    before: C,
    name: Seq<u8>,
    capacity: u32,
    callback: u32,
    type_at: u32,
    buffer_at: u32,
    clip: u32,
    r: Result<u32, GuestError>,
)
    requires
        is_creation(
            after,
            before,
            name,
            capacity,
            callback,
            Some(type_at),
            Some(buffer_at),
            Some(clip),
            r,
        ),
        r matches Ok(address) && address != 0,
        0 < capacity,
        name.len() < u32::MAX,
    ensures
        r == Ok::<u32, GuestError>(clip),
        after.requests() == before.requests() + seq![
            Request::Alloc { size: (name.len() + 1) as u32, result: Some(type_at) },
            Request::Alloc { size: capacity, result: Some(buffer_at) },
            Request::Alloc { size: 88, result: Some(clip) },
        ],
{
    let all = before.requests() + seq![
        Request::Alloc { size: (name.len() + 1) as u32, result: Some(type_at) },
        Request::Alloc { size: capacity, result: Some(buffer_at) },
        Request::Alloc { size: 88, result: Some(clip) },
    ];
    assert(before.requests().push(alloc_request((name.len() + 1) as u32, Some(type_at))).push(
        alloc_request(capacity, Some(buffer_at)),
    ).push(alloc_request(88, Some(clip))) =~= all);
}

/// A clip whose blocks are not to be had is not created: 0 is the answer.
pub proof fn lemma_missing_block_creates_no_clip<C: WIPICContext>(
    after: C,
    before: C,
    name: Seq<u8>,
    capacity: u32,
    callback: u32,
    buffer_block: Option<u32>,
    clip_block: Option<u32>,
    r: Result<u32, GuestError>,
)
    requires
        is_creation(after, before, name, capacity, callback, None, buffer_block, clip_block, r),
    ensures
        r == Ok::<u32, GuestError>(0),
        after.memory() == before.memory(),
        after.requests() == before.requests().push(
            Request::Alloc { size: (name.len() + 1) as u32, result: None },
        ),
{
}

/// A service that refuses a clip says why and leaves everything as it is: -9 for one that
/// there is not, -8 for one that plays or is being stopped, -1 for one without a player or
/// that does not play, -16 for one of the two kinds that cannot be stopped.
pub proof fn lemma_refusals_change_nothing<C: WIPICContext>(
    after: C,
    before: C,
    clip_ptr: u32,
    clip: LgtClip,
    repeat: u32,
    now: u64,
    code: i32,
)
    ensures
        ({
            let r = Ok::<i32, GuestError>(code);
            let busy = clip.state_flags & 3 != 0;
            let here = known(before.memory(), clip_ptr) == Some(clip);
            let same = after.memory() == before.memory() && after.requests() == before.requests();
            &&& here && busy && is_freed(after, before, clip_ptr, r) ==> code == -8 && same
            &&& here && busy && clip.state_flags & 0x1000 != 0 && is_play(
                after,
                before,
                clip_ptr,
                repeat,
                now,
                r,
            ) ==> code == -8 && same
            &&& here && clip.state_flags & 0x1000 == 0 && is_play(
                after,
                before,
                clip_ptr,
                repeat,
                now,
                r,
            ) ==> code == -1 && same
            &&& here && !busy && is_stop(after, before, clip_ptr, now, r) ==> code == -1 && same
            &&& here && busy && (clip.media_kind == 4 || clip.media_kind == 5) && is_stop(
                after,
                before,
                clip_ptr,
                now,
                r,
            ) ==> code == -16 && same
        }),
{
    assert(1u32 | 2u32 == 3u32) by (bit_vector);
}

/// Data for a clip is refused without a source with -9 and without a buffer with -17; no
/// data is taken as none. Nothing changes.
pub proof fn lemma_refused_data_changes_nothing<C: WIPICContext>(
    after: C,
    before: C,
    clip_ptr: u32,
    clip: LgtClip,
    source: u32,
    requested: u32,
    code: i32,
)
    requires
        known(before.memory(), clip_ptr) == Some(clip),
        is_put(after, before, clip_ptr, source, requested, Ok::<i32, GuestError>(code)),
    ensures
        source == 0 ==> code == -9,
        source != 0 && requested == 0 ==> code == 0,
        source != 0 && requested != 0 && (clip.primary_buffer == 0 || clip.buffer_capacity <= 0)
            ==> code == -17,
        source == 0 || requested == 0 || clip.primary_buffer == 0 || clip.buffer_capacity <= 0
            ==> after.memory() == before.memory() && after.requests() == before.requests(),
{
}

/// No service knows a clip that there is not: each answers -9 and changes nothing.
pub proof fn lemma_unknown_clip_is_refused<C: WIPICContext>(
    after: C,
    before: C,
    clip_ptr: u32,
    source: u32,
    requested: u32,
    now: u64,
    r: Result<i32, GuestError>,
)
    requires
        found(before.memory(), clip_ptr) == Ok::<Option<LgtClip>, ()>(None),
        is_put(after, before, clip_ptr, source, requested, r) || is_freed(
            after,
            before,
            clip_ptr,
            r,
        ) || is_player_given(after, before, clip_ptr, r) || is_data_cleared(
            after,
            before,
            clip_ptr,
            r,
        ) || is_player_taken(after, before, clip_ptr, r) || is_play(
            after,
            before,
            clip_ptr,
            requested,
            now,
            r,
        ) || is_stop(after, before, clip_ptr, now, r),
    ensures
        r matches Ok(code) && code == -9,
        after.memory() == before.memory(),
        after.requests() == before.requests(),
{
}

/// A clip that has a player keeps it and answers with its handle; one that has none is
/// given one. Taking the player away closes what it played.
pub proof fn lemma_player_is_given_once<C: WIPICContext>(
    after: C,
    before: C,
    clip_ptr: u32,
    clip: LgtClip,
    code: i32,
)
    requires
        known(before.memory(), clip_ptr) == Some(clip),
    ensures
        is_player_given(after, before, clip_ptr, Ok::<i32, GuestError>(code)) ==> {
            &&& clip.state_flags & 0x1000 != 0 ==> code == clip.player_handle && after.memory()
                == before.memory()
            &&& clip.state_flags & 0x1000 == 0 ==> code == 0 && after.memory() == with_clip(
                before.memory(),
                clip_ptr,
                with_player(clip, clip_ptr),
            )
            &&& after.requests() == before.requests()
        },
        is_player_taken(after, before, clip_ptr, Ok::<i32, GuestError>(code)) ==> {
            &&& code == 0
            &&& clip.player_handle >= 0 ==> after.requests() == before.requests().push(
                Request::Close { handle: clip.player_handle as u32 },
            )
            &&& clip.player_handle < 0 ==> after.requests() == before.requests()
        },
        is_data_cleared(after, before, clip_ptr, Ok::<i32, GuestError>(code)) ==> {
            &&& clip.state_flags & 3 == 0 ==> code == 0
            &&& clip.state_flags & 3 != 0 ==> code == -1
            &&& after.requests() == before.requests()
            &&& after.memory() == with_clip(before.memory(), clip_ptr, emptied(clip))
        },
{
    assert(1u32 | 2u32 == 3u32) by (bit_vector);
    assert(before.requests() + Seq::<Request>::empty() =~= before.requests());
    if clip.player_handle >= 0 {
        assert(before.requests() + close_requests(clip) =~= before.requests().push(
            Request::Close { handle: clip.player_handle as u32 },
        ));
    }
}

/// Data that a clip took closes what was loaded of its data before, so that the clip is
/// loaded anew; where it took nothing that stays. The answer is how much it took.
pub proof fn lemma_new_data_closes_the_player<C: WIPICContext>(
    after: C,
    before: C,
    clip_ptr: u32,
    clip: LgtClip,
    source: u32,
    requested: u32,
    code: i32,
)
    requires
        known(before.memory(), clip_ptr) == Some(clip),
        is_put(after, before, clip_ptr, source, requested, Ok::<i32, GuestError>(code)),
        source != 0,
        clip.primary_buffer != 0,
        0 <= clip.available_bytes <= clip.buffer_capacity,
        0 < clip.buffer_capacity,
    ensures
        0 <= code <= requested,
        clip.available_bytes + code <= clip.buffer_capacity,
        code == requested || clip.available_bytes + code == clip.buffer_capacity,
        code > 0 && clip.player_handle >= 0 ==> after.requests() == before.requests().push(
            Request::Close { handle: clip.player_handle as u32 },
        ),
        code == 0 || clip.player_handle < 0 ==> after.requests() == before.requests(),
{
    assert(before.requests() + Seq::<Request>::empty() =~= before.requests());
    if clip.player_handle >= 0 {
        assert(before.requests() + close_requests(clip) =~= before.requests().push(
            Request::Close { handle: clip.player_handle as u32 },
        ));
    }
}

/// A clip that took data has no loaded player any more and does not play; its data grows
/// by what it took, and it keeps all else. One that took nothing stays as it is.
pub proof fn lemma_extended_clip_is_loaded_anew(clip: LgtClip, accepted: int)
    requires
        0 <= clip.available_bytes,
        0 <= accepted,
        clip.available_bytes + accepted <= i32::MAX,
    ensures
        ({
            let after = extended(clip, accepted);
            &&& after.available_bytes == clip.available_bytes + accepted
            &&& accepted == 0 ==> after == clip
            &&& accepted > 0 ==> after.player_handle < 0
            &&& accepted > 0 && clip.player_handle >= 0 ==> after.player_handle == -1
                && after.state_flags & 1 == 0 && after.state_flags & 0x1002 == clip.state_flags
                & 0x1002
            &&& clip.player_handle < 0 ==> after.player_handle == clip.player_handle
                && after.state_flags == clip.state_flags
            &&& after == (LgtClip {
                available_bytes: after.available_bytes,
                player_handle: after.player_handle,
                state_flags: after.state_flags,
                ..clip
            })
        }),
{
    let flags = clip.state_flags;
    assert((flags & !1u32) & 1 == 0 && (flags & !1u32) & 0x1002 == flags & 0x1002) by (bit_vector);
}

/// A block that could be had and written is handed out full of zeros, and nothing else
/// changes; one that could not is not handed out.
pub proof fn lemma_new_block_is_full_of_zeros<C: WIPICContext>(
    after: C,
    before: C,
    size: u32,
    address: u32,
    r: Option<u32>,
    i: int,
    other: u32,
)
    requires
        is_cleared(after, before, size, Some(address), r),
        0 <= i < size,
        address + size <= ADDRESS_SPACE,
        other < address || address + size <= other,
    ensures
        r is Some <==> after.writable(address, size as int),
        r matches Some(block) ==> block == address && after.memory()[(address + i) as u32] == 0
            && after.memory().contains_key((address + i) as u32) && after.memory().contains_key(other)
            == before.memory().contains_key(other) && (before.memory().contains_key(other)
            ==> after.memory()[other] == before.memory()[other]),
        after.requests() == before.requests().push(
            Request::Alloc { size, result: Some(address) },
        ),
{
}

/// A block that could not be had is not handed out and changes nothing.
pub proof fn lemma_missing_block_is_not_handed_out<C: WIPICContext>(
    after: C,
    before: C,
    size: u32,
    r: Option<u32>,
)
    requires
        is_cleared(after, before, size, None, r),
    ensures
        r is None,
        after.memory() == before.memory(),
        after.requests() == before.requests().push(Request::Alloc { size, result: None }),
{
}

} // verus!
