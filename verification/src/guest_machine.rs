//! A machine that keeps the guest's memory itself and notes down all else that
//! services ask for, for its driver to carry out.

use vstd::prelude::*;
use vstd::slice::slice_subrange;

use crate::arm_memory::{EmulatedMemory, EngineError};
use crate::audio::AudioHandle;
use crate::guest::{GuestError, WIPICContext};

verus! {

use crate::arm_memory::{
    address_after,
    lemma_reachable,
    lemma_write_then_read,
    pages_of,
    MemoryModel,
    PAGE_COUNT,
};
use crate::guest::{content, nth_address, readable, stored, GuestMemory, Request, ADDRESS_SPACE};

/// A request that was noted down.
#[derive(Debug, PartialEq, Eq)]
#[allow(inconsistent_fields)]
pub enum GuestRequest {
    Alloc { size: u32, result: Option<u32> },
    AllocBlock { size: u32, result: Option<u32> },
    Free { address: u32, size: u32, done: bool },
    LoadSmaf { data: Vec<u8>, result: Option<AudioHandle> },
    Play { handle: AudioHandle, repeat: bool, done: bool },
    Stop { handle: AudioHandle },
    Close { handle: AudioHandle },
    Timer { due: u64, callback: u32, user_data: u32, event: u32 },
    Vibrate { duration_ms: u64, intensity: u8 },
}

impl View for GuestRequest {
    type V = Request;

    open spec fn view(&self) -> Request {
        match self {
            GuestRequest::Alloc { size, result } => Request::Alloc {
                size: *size,
                result: *result,
            },
            GuestRequest::AllocBlock { size, result } => Request::AllocBlock {
                size: *size,
                result: *result,
            },
            GuestRequest::Free { address, size, done } => Request::Free {
                address: *address,
                size: *size,
                done: *done,
            },
            GuestRequest::LoadSmaf { data, result } => Request::LoadSmaf {
                data: data@,
                result: *result,
            },
            GuestRequest::Play { handle, repeat, done } => Request::Play {
                handle: *handle,
                repeat: *repeat,
                done: *done,
            },
            GuestRequest::Stop { handle } => Request::Stop { handle: *handle },
            GuestRequest::Close { handle } => Request::Close { handle: *handle },
            GuestRequest::Timer { due, callback, user_data, event } => Request::Timer {
                due: *due,
                callback: *callback,
                user_data: *user_data,
                event: *event,
            },
            GuestRequest::Vibrate { duration_ms, intensity } => Request::Vibrate {
                duration_ms: *duration_ms,
                intensity: *intensity,
            },
        }
    }
}

/// What the mapped addresses hold.
pub open spec fn bytes_in(model: MemoryModel) -> GuestMemory {
    Map::new(|a: u32| model.is_mapped(a as int), |a: u32| model.byte(a as int))
}

/// All of `size` addresses from `address` on are mapped.
pub open spec fn all_mapped(model: MemoryModel, address: u32, size: int) -> bool {
    &&& address + size <= ADDRESS_SPACE
    &&& forall|i: int|
        0 <= i < size ==> model.is_mapped(#[trigger] nth_address(address, i) as int)
}

/// How many of `size` addresses from `address` on come before the first that is not
/// mapped, or before the end of the memory.
pub open spec fn mapped_reach(model: MemoryModel, address: u32, size: int) -> int {
    model.reachable(
        address,
        if address + size <= ADDRESS_SPACE {
            size
        } else {
            ADDRESS_SPACE - address
        },
    )
}

/// Why a write of `size` bytes failed.
pub open spec fn write_error(model: MemoryModel, address: u32, size: int) -> GuestError {
    let reach = mapped_reach(model, address, size);
    if address + reach < ADDRESS_SPACE {
        GuestError::InvalidMemoryAccess((address + reach) as u32)
    } else {
        GuestError::AllocationFailure
    }
}

/// How much of the heap a block of `size` bytes takes: at least one byte, so that no
/// two blocks have the same address.
pub open spec fn room_for(size: u32) -> int {
    if size == 0 {
        1
    } else {
        size as int
    }
}

/// The address of a block of `size` bytes that is taken off a heap whose free part
/// starts at `heap`, and where the free part starts then. A block that would run over
/// the last address is not to be had, and takes nothing.
pub open spec fn reserved(heap: u32, size: u32) -> (Option<u32>, u32) {
    if heap + room_for(size) <= u32::MAX {
        (Some(heap), (heap + room_for(size)) as u32)
    } else {
        (None, heap)
    }
}

/// What the guest gets for a block that may not be to be had.
pub open spec fn allocation(address: Option<u32>) -> Result<u32, GuestError> {
    match address {
        Some(address) => Ok(address),
        None => Err(GuestError::AllocationFailure),
    }
}

/// A guest's machine.
pub struct GuestMachine {
    memory: EmulatedMemory,
    next: u32,
    next_handle: AudioHandle,
    log: Vec<GuestRequest>,
}

proof fn lemma_pages_mapped(model: MemoryModel, address: u32, size: int)
    requires
        0 < size,
    ensures
        all_mapped(model, address, size) <==> match pages_of(address, size) {
            Some((first, end)) => forall|i: int| first <= i < end ==> #[trigger] model.mapped[i],
            None => false,
        },
{
    if address + size <= ADDRESS_SPACE {
        let (first, end) = pages_of(address, size)->0;
        if all_mapped(model, address, size) {
            assert forall|i: int| first <= i < end implies #[trigger] model.mapped[i] by {
                let at = if i == first {
                    0
                } else {
                    i * 0x10000 - address
                };
                assert(0 <= at < size);
                assert(model.is_mapped(nth_address(address, at) as int));
                assert(nth_address(address, at) as int / 0x10000 == i);
            }
        }
        if forall|i: int| first <= i < end ==> #[trigger] model.mapped[i] {
            assert forall|i: int| 0 <= i < size implies model.is_mapped(
                #[trigger] nth_address(address, i) as int,
            ) by {
                let page = nth_address(address, i) as int / 0x10000;
                assert(first <= page < end);
                assert(model.mapped[page]);
            }
        }
    }
}

proof fn lemma_reach_mapped(a: MemoryModel, b: MemoryModel, address: u32, size: int)
    requires
        a.mapped == b.mapped,
    ensures
        a.reachable(address, size) == b.reachable(address, size),
    decreases size,
{
    if size > 0 {
        lemma_reach_mapped(a, b, address, size - 1);
    }
}

proof fn lemma_reach(model: MemoryModel, address: u32, size: int)
    requires
        0 <= size,
    ensures
        0 <= mapped_reach(model, address, size) <= size,
        address + mapped_reach(model, address, size) <= ADDRESS_SPACE,
        all_mapped(model, address, mapped_reach(model, address, size)),
        mapped_reach(model, address, size) == size <==> all_mapped(model, address, size),
{
    let cut = if address + size <= ADDRESS_SPACE {
        size
    } else {
        ADDRESS_SPACE - address
    };
    let reach = mapped_reach(model, address, size);
    lemma_reachable(model, address, cut);
    assert forall|i: int| 0 <= i < reach implies model.is_mapped(
        #[trigger] nth_address(address, i) as int,
    ) by {
        assert(model.is_mapped(address_after(address, i)));
        assert(address_after(address, i) == nth_address(address, i));
    }
    if all_mapped(model, address, size) {
        lemma_reachable_all(model, address, size);
    }
}

proof fn lemma_reachable_all(model: MemoryModel, address: u32, size: int)
    requires
        0 <= size,
        all_mapped(model, address, size),
    ensures
        model.reachable(address, size) == size,
    decreases size,
{
    if size > 0 {
        assert(all_mapped(model, address, size - 1)) by {
            assert forall|i: int| 0 <= i < size - 1 implies model.is_mapped(
                #[trigger] nth_address(address, i) as int,
            ) by {}
        }
        lemma_reachable_all(model, address, size - 1);
        assert(model.is_mapped(nth_address(address, size - 1) as int));
        assert(address_after(address, size - 1) == nth_address(address, size - 1));
    }
}

proof fn lemma_stored_bytes(model: MemoryModel, address: u32, data: Seq<u8>)
    requires
        model.wf(),
        all_mapped(model, address, data.len() as int),
        model.written_all(address, data).mapped == model.mapped,
    ensures
        bytes_in(model.written_all(address, data)) == stored(bytes_in(model), address, data),
{
    let after = model.written_all(address, data);
    assert forall|a: u32| bytes_in(after).contains_key(a) == stored(
        bytes_in(model),
        address,
        data,
    ).contains_key(a) by {
        if address <= a < address + data.len() {
            assert(model.is_mapped(nth_address(address, a - address) as int));
        }
    }
    assert forall|a: u32| #[trigger] bytes_in(after).contains_key(a) implies bytes_in(after)[a]
        == stored(bytes_in(model), address, data)[a] by {
        lemma_write_then_read(model, address, data, a as int);
        if address <= a < address + data.len() {
            let i = a - address;
            assert(data[i] == after.byte(address_after(address, i)));
            assert(address_after(address, i) == a);
        } else {
            assert forall|i: int| 0 <= i < data.len() implies #[trigger] address_after(address, i)
                != a by {}
        }
    }
    assert(bytes_in(after) =~= stored(bytes_in(model), address, data));
}

impl GuestMachine {
    pub closed spec fn model(&self) -> MemoryModel {
        self.memory@
    }

    /// Where the free part of the heap starts.
    pub closed spec fn heap(&self) -> u32 {
        self.next
    }

    /// How many sounds were loaded: their handles count up from 0.
    pub closed spec fn sounds(&self) -> AudioHandle {
        self.next_handle
    }

    /// The heap and the sounds are those of `other`.
    pub open spec fn counts_as(&self, other: Self) -> bool {
        self.heap() == other.heap() && self.sounds() == other.sounds()
    }

    /// A machine whose heap starts at `heap`. Nothing is mapped yet, and nothing that
    /// will be mapped has been written.
    pub fn new(heap: u32) -> (r: Self)
        ensures
            r.heap() == heap,
            r.sounds() == 0,
            r.model().wf(),
            forall|i: int| 0 <= i < PAGE_COUNT ==> !#[trigger] r.model().mapped[i],
            forall|i: int| 0 <= i < PAGE_COUNT ==> (#[trigger] r.model().pages[i]) is None,
            r.requests() == Seq::<Request>::empty(),
            r.memory() == Map::<u32, u8>::empty(),
    {
        let memory = EmulatedMemory::new();
        let r = GuestMachine { memory, next: heap, next_handle: 0, log: Vec::new() };
        assert(r.requests() =~= Seq::<Request>::empty());
        proof {
            assert forall|a: u32| !r.memory().contains_key(a) by {
                assert(!r.memory@.mapped[a as int / 0x10000]);
            }
        }
        assert(r.memory() =~= Map::<u32, u8>::empty());
        r
    }

    /// Maps the pages of a range, which must not run over the end of the memory.
    pub fn map(&mut self, address: u32, size: usize)
        requires
            pages_of(address, size as int) is Some,
        ensures
            final(self).counts_as(*old(self)),
            final(self).requests() == old(self).requests(),
            final(self).model().pages == old(self).model().pages,
            final(self).model().mapped == Seq::new(
                PAGE_COUNT as nat,
                |i: int|
                    old(self).model().mapped[i] || (pages_of(address, size as int)->0).0 <= i < (
                    pages_of(address, size as int)->0).1,
            ),
    {
        self.memory.map(address, size);
    }

    /// Takes what was noted down, oldest first.
    pub fn take_requests(&mut self) -> (r: Vec<GuestRequest>)
        ensures
            final(self).counts_as(*old(self)),
            old(self).requests() == Seq::new(r@.len(), |i: int| r@[i]@),
            final(self).requests() == Seq::<Request>::empty(),
            final(self).memory() == old(self).memory(),
    {
        let mut taken: Vec<GuestRequest> = Vec::new();
        core::mem::swap(&mut taken, &mut self.log);
        assert(self.requests() =~= Seq::<Request>::empty());
        taken
    }

    fn note(&mut self, request: GuestRequest)
        ensures
            final(self).counts_as(*old(self)),
            final(self).memory() == old(self).memory(),
            final(self).model() == old(self).model(),
            final(self).requests() == old(self).requests().push(request@),
    {
        self.log.push(request);
        assert(self.requests() =~= old(self).requests().push(request@));
    }

    /// Takes room off the heap.
    fn reserve(&mut self, size: u32) -> (r: Option<u32>)
        ensures
            (r, final(self).heap()) == reserved(old(self).heap(), size),
            final(self).sounds() == old(self).sounds(),
            final(self).memory() == old(self).memory(),
            final(self).model() == old(self).model(),
            final(self).requests() == old(self).requests(),
    {
        let address = self.next;
        let taken: u32 = if size == 0 {
            1
        } else {
            size
        };
        match self.next.checked_add(taken) {
            Some(next) => {
                self.next = next;
                Some(address)
            },
            None => None,
        }
    }

    fn can_access(&self, address: u32, size: usize) -> (r: bool)
        ensures
            r == all_mapped(self.model(), address, size as int),
    {
        let mapped = self.memory.is_mapped(address, size);
        proof {
            if size > 0 {
                lemma_pages_mapped(self.memory@, address, size as int);
            }
        }
        size == 0 || mapped
    }
}

impl WIPICContext for GuestMachine {
    open spec fn memory(&self) -> GuestMemory {
        bytes_in(self.model())
    }

    open spec fn writable(&self, address: u32, size: int) -> bool {
        all_mapped(self.model(), address, size)
    }

    open spec fn reach(&self, address: u32, size: int) -> int {
        mapped_reach(self.model(), address, size)
    }

    closed spec fn requests(&self) -> Seq<Request> {
        Seq::new(self.log@.len(), |i: int| self.log@[i]@)
    }

    /// A block's indirect pointer is its address.
    open spec fn block(&self, pointer: u32) -> Option<u32> {
        Some(pointer)
    }

    fn data_ptr(&self, pointer: u32) -> (r: Result<u32, GuestError>) {
        Ok(pointer)
    }

    fn alloc_block(&mut self, size: u32) -> (r: Result<u32, GuestError>)
        ensures
            r == allocation(reserved(old(self).heap(), size).0),
            final(self).heap() == reserved(old(self).heap(), size).1,
            final(self).sounds() == old(self).sounds(),
    {
        let address = self.reserve(size);
        self.note(GuestRequest::AllocBlock { size, result: address });
        match address {
            Some(address) => Ok(address),
            None => Err(GuestError::AllocationFailure),
        }
    }

    fn read_bytes(&self, address: u32, size: usize) -> (r: Result<Vec<u8>, GuestError>) {
        proof {
            assert(readable(self.memory(), address, size as int) == all_mapped(
                self.model(),
                address,
                size as int,
            )) by {
                if readable(self.memory(), address, size as int) {
                    assert forall|i: int| 0 <= i < size implies self.model().is_mapped(
                        #[trigger] nth_address(address, i) as int,
                    ) by {
                        assert(self.memory().contains_key(nth_address(address, i)));
                    }
                }
                if all_mapped(self.model(), address, size as int) {
                    assert forall|i: int| 0 <= i < size implies self.memory().contains_key(
                        #[trigger] nth_address(address, i),
                    ) by {
                        assert(self.model().is_mapped(nth_address(address, i) as int));
                    }
                }
            }
        }
        if !self.can_access(address, size) {
            return Err(GuestError::InvalidMemoryAccess(address));
        }
        let mut data: Vec<u8> = Vec::new();
        while data.len() < size
            invariant
                data@.len() <= size,
            decreases size - data@.len(),
        {
            data.push(0);
        }
        let _ = self.memory.read_range(address, size, data.as_mut_slice());
        proof {
            lemma_reachable_all(self.model(), address, size as int);
            let expected = content(self.memory(), address, size as int);
            assert(data@.take(size as int) =~= data@);
            assert forall|i: int| 0 <= i < size implies data@[i] == expected[i] by {
                assert(data@.take(size as int)[i] == self.model().byte(
                    address_after(address, i),
                ));
                assert(address_after(address, i) == nth_address(address, i));
                assert(self.model().is_mapped(nth_address(address, i) as int));
            }
            assert(data@ =~= expected);
        }
        Ok(data)
    }

    fn write_bytes(&mut self, address: u32, data: &[u8]) -> (r: Result<(), GuestError>)
        ensures
            final(self).counts_as(*old(self)),
            r matches Err(error) ==> error == write_error(
                old(self).model(),
                address,
                data@.len() as int,
            ),
    {
        let ghost before = self.memory@;
        let ghost reach = mapped_reach(before, address, data@.len() as int);
        let room: u64 = ADDRESS_SPACE - address as u64;
        let fits = data.len() as u64 <= room;
        let part = if fits {
            data
        } else {
            slice_subrange(data, 0, room as usize)
        };
        let written = self.memory.write_range(address, part);
        proof {
            lemma_reach(before, address, data@.len() as int);
            assert(part@.take(reach) =~= data@.take(reach));
            assert(data@.take(data@.len() as int) =~= data@);
            lemma_mapping_kept(before, address, data@.take(reach));
            lemma_stored_bytes(before, address, data@.take(reach));
            assert forall|a: u32, n: int| #[trigger] self.reach(a, n) == old(self).reach(a, n) by {
                let cut = if a + n <= ADDRESS_SPACE {
                    n
                } else {
                    ADDRESS_SPACE - a
                };
                lemma_reach_mapped(self.memory@, before, a, cut);
            }
        }
        match written {
            Ok(()) => if fits {
                Ok(())
            } else {
                Err(GuestError::AllocationFailure)
            },
            Err(EngineError::InvalidMemoryAccess(at)) => Err(GuestError::InvalidMemoryAccess(at)),
            Err(EngineError::FatalError(text)) => Err(GuestError::FatalError(text)),
        }
    }

    fn alloc_raw(&mut self, size: u32) -> (r: Result<u32, GuestError>)
        ensures
            r == allocation(reserved(old(self).heap(), size).0),
            final(self).heap() == reserved(old(self).heap(), size).1,
            final(self).sounds() == old(self).sounds(),
    {
        let address = self.reserve(size);
        self.note(GuestRequest::Alloc { size, result: address });
        match address {
            Some(address) => Ok(address),
            None => Err(GuestError::AllocationFailure),
        }
    }

    fn free_raw(&mut self, address: u32, size: u32) -> (r: Result<(), GuestError>)
        ensures
            r is Ok,
            final(self).counts_as(*old(self)),
    {
        self.note(GuestRequest::Free { address, size, done: true });
        Ok(())
    }

    fn load_smaf(&mut self, data: &[u8]) -> (r: Option<AudioHandle>)
        ensures
            r == if old(self).sounds() == AudioHandle::MAX {
                None
            } else {
                Some(old(self).sounds())
            },
            final(self).sounds() == if r is Some {
                old(self).sounds() + 1
            } else {
                old(self).sounds() as int
            },
            final(self).heap() == old(self).heap(),
    {
        let mut copy: Vec<u8> = Vec::new();
        let mut index: usize = 0;
        while index < data.len()
            invariant
                index <= data@.len(),
                copy@ == data@.take(index as int),
            decreases data@.len() - index,
        {
            copy.push(data[index]);
            index += 1;
            assert(copy@ =~= data@.take(index as int));
        }
        assert(copy@ =~= data@);
        let result: Option<AudioHandle> = if self.next_handle == AudioHandle::MAX {
            None
        } else {
            Some(self.next_handle)
        };
        if result.is_some() {
            self.next_handle += 1;
        }
        self.note(GuestRequest::LoadSmaf { data: copy, result });
        result
    }

    fn play_audio(&mut self, handle: AudioHandle, repeat: bool) -> (r: bool)
        ensures
            r == (handle < old(self).sounds()),
            final(self).counts_as(*old(self)),
    {
        let done = handle < self.next_handle;
        self.note(GuestRequest::Play { handle, repeat, done });
        done
    }

    fn stop_audio(&mut self, handle: AudioHandle)
        ensures
            final(self).counts_as(*old(self)),
    {
        self.note(GuestRequest::Stop { handle });
    }

    fn close_audio(&mut self, handle: AudioHandle)
        ensures
            final(self).counts_as(*old(self)),
    {
        self.note(GuestRequest::Close { handle });
    }

    fn set_timer(&mut self, due: u64, callback: u32, user_data: u32, event: u32)
        ensures
            final(self).counts_as(*old(self)),
    {
        self.note(GuestRequest::Timer { due, callback, user_data, event });
    }

    fn vibrate(&mut self, duration_ms: u64, intensity: u8)
        ensures
            final(self).counts_as(*old(self)),
    {
        self.note(GuestRequest::Vibrate { duration_ms, intensity });
    }
}

proof fn lemma_mapping_kept(model: MemoryModel, address: u32, data: Seq<u8>)
    requires
        model.wf(),
    ensures
        model.written_all(address, data).mapped == model.mapped,
    decreases data.len(),
{
    if data.len() > 0 {
        lemma_mapping_kept(model, address, data.drop_last());
    }
}

// ---------------------------------------------------------------------------
// What the machine promises

/// Blocks that are taken one behind the other lie apart, each with the room that was
/// asked for. A block is refused only where it would run over the last address, and a
/// refusal takes nothing.
pub proof fn lemma_blocks_lie_apart(heap: u32, one: u32, other: u32)
    ensures
        reserved(heap, one).0 is Some <==> heap + one <= u32::MAX && heap < u32::MAX,
        reserved(heap, one).0 matches Some(address) ==> address == heap && address + one
            <= reserved(heap, one).1,
        reserved(heap, one).0 is None ==> reserved(heap, one).1 == heap,
        reserved(heap, one).0 matches Some(first) ==> (reserved(
            reserved(heap, one).1,
            other,
        ).0 matches Some(second) ==> first + one <= second && first < second),
{
}

/// What was taken off the heap is handed to the guest, and what could not be taken is a
/// failure.
pub proof fn lemma_guest_gets_its_block(address: u32)
    ensures
        allocation(Some(address)) == Ok::<u32, GuestError>(address),
        allocation(None) == Err::<u32, GuestError>(GuestError::AllocationFailure),
{
}

/// A write gets as far as the first address that is not mapped or the end of the memory,
/// and a failure names that address where there is one.
pub proof fn lemma_write_stops_at_the_gap(model: MemoryModel, address: u32, size: int, i: int)
    requires
        0 <= size,
    ensures
        ({
            let reach = mapped_reach(model, address, size);
            &&& 0 <= i < reach ==> model.is_mapped(address + i)
            &&& reach < size ==> address + reach == ADDRESS_SPACE || !model.is_mapped(
                address + reach,
            )
            &&& reach < size && address + reach < ADDRESS_SPACE ==> write_error(
                model,
                address,
                size,
            ) == GuestError::InvalidMemoryAccess((address + reach) as u32)
            &&& reach < size && address + reach == ADDRESS_SPACE ==> write_error(
                model,
                address,
                size,
            ) == GuestError::AllocationFailure
        }),
{
    let reach = mapped_reach(model, address, size);
    lemma_reach(model, address, size);
    if 0 <= i < reach {
        assert(model.is_mapped(nth_address(address, i) as int));
    }
    let cut = if address + size <= ADDRESS_SPACE {
        size
    } else {
        ADDRESS_SPACE - address
    };
    lemma_reach_ends(model, address, cut);
}

proof fn lemma_reach_ends(model: MemoryModel, address: u32, size: int)
    requires
        0 <= size,
        address + size <= ADDRESS_SPACE,
    ensures
        0 <= model.reachable(address, size) <= size,
        model.reachable(address, size) < size ==> !model.is_mapped(
            address + model.reachable(address, size),
        ),
    decreases size,
{
    if size > 0 {
        lemma_reach_ends(model, address, size - 1);
        assert(address_after(address, size - 1) == address + size - 1);
    }
}

/// The guest sees the bytes of the mapped addresses and no others.
pub proof fn lemma_guest_sees_mapped_bytes(model: MemoryModel, address: u32)
    ensures
        bytes_in(model).contains_key(address) <==> model.is_mapped(address as int),
        model.is_mapped(address as int) ==> bytes_in(model)[address] == model.byte(address as int),
{
}

} // verus!
