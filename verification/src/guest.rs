//! What the services of a guest program need of the machine that runs it.

use vstd::prelude::*;

use crate::audio::AudioHandle;

verus! {

/// Why a service could not be carried out.
#[derive(Debug, PartialEq, Eq)]
pub enum GuestError {
    InvalidMemoryAccess(u32),
    AllocationFailure,
    FatalError(String),
}

/// The bytes that the guest and its records keep. What the allocator writes down
/// for itself is not among them.
pub type GuestMemory = Map<u32, u8>;

/// How many addresses there are.
pub const ADDRESS_SPACE: u64 = 0x1_0000_0000;

/// `size` bytes can be read at `address`.
pub open spec fn readable(memory: GuestMemory, address: u32, size: int) -> bool {
    &&& address + size <= ADDRESS_SPACE
    &&& forall|i: int|
        0 <= i < size ==> memory.contains_key(#[trigger] nth_address(address, i))
}

/// The address `i` bytes behind `address`.
pub open spec fn nth_address(address: u32, i: int) -> u32 {
    (address + i) as u32
}

/// The `size` bytes at `address`.
pub open spec fn content(memory: GuestMemory, address: u32, size: int) -> Seq<u8> {
    Seq::new(size as nat, |i: int| memory[nth_address(address, i)])
}

/// The memory with `data` at `address`.
pub open spec fn stored(memory: GuestMemory, address: u32, data: Seq<u8>) -> GuestMemory {
    Map::new(
        |key: u32| memory.contains_key(key) || address <= key < address + data.len(),
        |key: u32|
            if address <= key < address + data.len() {
                data[key - address]
            } else {
                memory[key]
            },
    )
}

/// What was stored can be read back, and other bytes stay as they were.
pub proof fn lemma_stored(memory: GuestMemory, address: u32, data: Seq<u8>)
    requires
        address + data.len() <= ADDRESS_SPACE,
    ensures
        readable(stored(memory, address, data), address, data.len() as int),
        content(stored(memory, address, data), address, data.len() as int) == data,
{
    assert(content(stored(memory, address, data), address, data.len() as int) =~= data);
}

/// Bytes apart from what was stored read as before.
pub proof fn lemma_stored_apart(
    memory: GuestMemory,
    address: u32,
    data: Seq<u8>,
    other: u32,
    size: int,
)
    requires
        address + data.len() <= ADDRESS_SPACE,
        0 <= size,
        other + size <= address || address + data.len() <= other,
        readable(memory, other, size),
    ensures
        readable(stored(memory, address, data), other, size),
        content(stored(memory, address, data), other, size) == content(memory, other, size),
{
    let after = stored(memory, address, data);
    assert forall|i: int| 0 <= i < size implies after.contains_key(
        #[trigger] nth_address(other, i),
    ) by {
        assert(memory.contains_key(nth_address(other, i)));
    }
    assert(content(after, other, size) =~= content(memory, other, size));
}

/// What a service asks of the machine, and what came of it.
#[allow(inconsistent_fields)]
pub enum Request {
    Alloc { size: u32, result: Option<u32> },
    AllocBlock { size: u32, result: Option<u32> },
    Free { address: u32, size: u32, done: bool },
    LoadSmaf { data: Seq<u8>, result: Option<AudioHandle> },
    Play { handle: AudioHandle, repeat: bool, done: bool },
    Stop { handle: AudioHandle },
    Close { handle: AudioHandle },
    /// A call of `callback(user_data, event)` when the clock shows `due` milliseconds.
    Timer { due: u64, callback: u32, user_data: u32, event: u32 },
    Vibrate { duration_ms: u64, intensity: u8 },
}

/// The machine as a service sees it.
pub trait WIPICContext: Sized {
    spec fn memory(&self) -> GuestMemory;

    /// `size` bytes can be written at `address`.
    spec fn writable(&self, address: u32, size: int) -> bool;

    /// How many of `size` bytes can be written from `address` on, before the first
    /// address at which that fails.
    spec fn reach(&self, address: u32, size: int) -> int;

    /// What services have asked for so far.
    spec fn requests(&self) -> Seq<Request>;

    /// Where the block behind an indirect pointer stands.
    spec fn block(&self, pointer: u32) -> Option<u32>;

    fn data_ptr(&self, pointer: u32) -> (r: Result<u32, GuestError>)
        ensures
            match r {
                Ok(address) => self.block(pointer) == Some(address),
                Err(_) => self.block(pointer) is None,
            },
    ;

    /// Allocates a block behind an indirect pointer.
    fn alloc_block(&mut self, size: u32) -> (r: Result<u32, GuestError>)
        ensures
            final(self).memory() == old(self).memory(),
            final(self).requests() == old(self).requests().push(
                Request::AllocBlock {
                    size,
                    result: match r {
                        Ok(pointer) => Some(pointer),
                        Err(_) => None,
                    },
                },
            ),
            forall|a: u32, n: int| #[trigger]
                old(self).writable(a, n) ==> final(self).writable(a, n),
            forall|p: u32| #[trigger]
                old(self).block(p) is Some ==> final(self).block(p) == old(self).block(p),
    ;

    fn read_bytes(&self, address: u32, size: usize) -> (r: Result<Vec<u8>, GuestError>)
        ensures
            r is Ok <==> readable(self.memory(), address, size as int),
            r matches Ok(data) ==> data@ == content(self.memory(), address, size as int),
    ;

    /// Writes `data`. Where that fails, the bytes before the failing address are
    /// written.
    fn write_bytes(&mut self, address: u32, data: &[u8]) -> (r: Result<(), GuestError>)
        ensures
            r is Ok <==> old(self).writable(address, data@.len() as int),
            r is Ok <==> old(self).reach(address, data@.len() as int) == data@.len(),
            0 <= old(self).reach(address, data@.len() as int) <= data@.len(),
            address + old(self).reach(address, data@.len() as int) <= ADDRESS_SPACE,
            final(self).memory() == stored(
                old(self).memory(),
                address,
                data@.take(old(self).reach(address, data@.len() as int)),
            ),
            r is Ok ==> final(self).memory() == stored(old(self).memory(), address, data@),
            final(self).requests() == old(self).requests(),
            forall|a: u32, n: int| #[trigger]
                final(self).writable(a, n) == old(self).writable(a, n),
            forall|a: u32, n: int| #[trigger] final(self).reach(a, n) == old(self).reach(a, n),
            forall|p: u32| #[trigger] final(self).block(p) == old(self).block(p),
    ;

    fn alloc_raw(&mut self, size: u32) -> (r: Result<u32, GuestError>)
        ensures
            final(self).memory() == old(self).memory(),
            final(self).requests() == old(self).requests().push(
                Request::Alloc {
                    size,
                    result: match r {
                        Ok(address) => Some(address),
                        Err(_) => None,
                    },
                },
            ),
            forall|a: u32, n: int| #[trigger]
                old(self).writable(a, n) ==> final(self).writable(a, n),
            forall|p: u32| #[trigger] final(self).block(p) == old(self).block(p),
    ;

    fn free_raw(&mut self, address: u32, size: u32) -> (r: Result<(), GuestError>)
        ensures
            final(self).memory() == old(self).memory(),
            final(self).requests() == old(self).requests().push(
                Request::Free { address, size, done: r is Ok },
            ),
            forall|a: u32, n: int| #[trigger]
                final(self).writable(a, n) == old(self).writable(a, n),
            forall|a: u32, n: int| #[trigger] final(self).reach(a, n) == old(self).reach(a, n),
            forall|p: u32| #[trigger] final(self).block(p) == old(self).block(p),
    ;

    /// Loads a SMAF file.
    fn load_smaf(&mut self, data: &[u8]) -> (r: Option<AudioHandle>)
        ensures
            final(self).memory() == old(self).memory(),
            final(self).requests() == old(self).requests().push(
                Request::LoadSmaf { data: data@, result: r },
            ),
            forall|a: u32, n: int| #[trigger]
                final(self).writable(a, n) == old(self).writable(a, n),
            forall|a: u32, n: int| #[trigger] final(self).reach(a, n) == old(self).reach(a, n),
            forall|p: u32| #[trigger] final(self).block(p) == old(self).block(p),
    ;

    /// Starts a loaded file; `false` where the handle is not known.
    fn play_audio(&mut self, handle: AudioHandle, repeat: bool) -> (r: bool)
        ensures
            final(self).memory() == old(self).memory(),
            final(self).requests() == old(self).requests().push(
                Request::Play { handle, repeat, done: r },
            ),
            forall|a: u32, n: int| #[trigger]
                final(self).writable(a, n) == old(self).writable(a, n),
            forall|a: u32, n: int| #[trigger] final(self).reach(a, n) == old(self).reach(a, n),
            forall|p: u32| #[trigger] final(self).block(p) == old(self).block(p),
    ;

    fn stop_audio(&mut self, handle: AudioHandle)
        ensures
            final(self).memory() == old(self).memory(),
            final(self).requests() == old(self).requests().push(Request::Stop { handle }),
            forall|a: u32, n: int| #[trigger]
                final(self).writable(a, n) == old(self).writable(a, n),
            forall|a: u32, n: int| #[trigger] final(self).reach(a, n) == old(self).reach(a, n),
            forall|p: u32| #[trigger] final(self).block(p) == old(self).block(p),
    ;

    /// Closes a loaded file, whether or not the handle is known.
    fn close_audio(&mut self, handle: AudioHandle)
        ensures
            final(self).memory() == old(self).memory(),
            final(self).requests() == old(self).requests().push(Request::Close { handle }),
            forall|a: u32, n: int| #[trigger]
                final(self).writable(a, n) == old(self).writable(a, n),
            forall|a: u32, n: int| #[trigger] final(self).reach(a, n) == old(self).reach(a, n),
            forall|p: u32| #[trigger] final(self).block(p) == old(self).block(p),
    ;

    /// Has `callback(user_data, event)` called when the clock shows `due`.
    fn set_timer(&mut self, due: u64, callback: u32, user_data: u32, event: u32)
        ensures
            final(self).memory() == old(self).memory(),
            final(self).requests() == old(self).requests().push(
                Request::Timer { due, callback, user_data, event },
            ),
            forall|a: u32, n: int| #[trigger]
                final(self).writable(a, n) == old(self).writable(a, n),
            forall|a: u32, n: int| #[trigger] final(self).reach(a, n) == old(self).reach(a, n),
            forall|p: u32| #[trigger] final(self).block(p) == old(self).block(p),
    ;

    fn vibrate(&mut self, duration_ms: u64, intensity: u8)
        ensures
            final(self).memory() == old(self).memory(),
            final(self).requests() == old(self).requests().push(
                Request::Vibrate { duration_ms, intensity },
            ),
            forall|a: u32, n: int| #[trigger]
                final(self).writable(a, n) == old(self).writable(a, n),
            forall|a: u32, n: int| #[trigger] final(self).reach(a, n) == old(self).reach(a, n),
            forall|p: u32| #[trigger] final(self).block(p) == old(self).block(p),
    ;
}

/// The memory after `data` was written at `address`, as far as that can be done.
pub open spec fn attempted<C: WIPICContext>(
    context: C,
    memory: GuestMemory,
    address: u32,
    data: Seq<u8>,
) -> GuestMemory {
    stored(memory, address, data.take(context.reach(address, data.len() as int)))
}

} // verus!
