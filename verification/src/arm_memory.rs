//! The memory of the emulated machine: 32-bit addresses, in pages that are
//! allocated when they are first written.

use vstd::prelude::*;

verus! {

pub const PAGE_SIZE: usize = 0x10000;

pub const PAGE_COUNT: usize = 0x10000;

/// Why the machine stopped.
#[derive(Debug, PartialEq, Eq)]
pub enum EngineError {
    InvalidMemoryAccess(u32),
    FatalError(String),
}

/// Which pages are mapped, and what the allocated ones hold.
#[verifier::ext_equal]
pub struct MemoryModel {
    pub mapped: Seq<bool>,
    pub pages: Seq<Option<Seq<u8>>>,
}

/// `count` addresses after `address`; the last address is followed by 0.
pub open spec fn address_after(address: u32, count: int) -> int {
    (address + count) % 0x100000000
}

impl MemoryModel {
    pub open spec fn wf(self) -> bool {
        &&& self.mapped.len() == PAGE_COUNT
        &&& self.pages.len() == PAGE_COUNT
        &&& forall|i: int|
            0 <= i < PAGE_COUNT ==> ((#[trigger] self.pages[i]) matches Some(page)
                ==> page.len() == PAGE_SIZE)
    }

    /// The address lies in a mapped page.
    pub open spec fn is_mapped(self, address: int) -> bool {
        self.mapped[address / 0x10000]
    }

    /// What the address holds; 0 before its page was first written.
    pub open spec fn byte(self, address: int) -> u8 {
        match self.pages[address / 0x10000] {
            Some(page) => page[address % 0x10000],
            None => 0,
        }
    }

    /// The page of the address as it is written first.
    pub open spec fn page_for_writing(self, address: int) -> Seq<u8> {
        match self.pages[address / 0x10000] {
            Some(page) => page,
            None => Seq::new(0x10000, |i: int| 0u8),
        }
    }

    /// One byte written, its page allocated.
    pub open spec fn written(self, address: int, value: u8) -> MemoryModel {
        MemoryModel {
            pages: self.pages.update(
                address / 0x10000,
                Some(self.page_for_writing(address).update(address % 0x10000, value)),
            ),
            ..self
        }
    }

    /// Bytes written one after the other from `address` on.
    pub open spec fn written_all(self, address: u32, data: Seq<u8>) -> MemoryModel
        decreases data.len(),
    {
        if data.len() == 0 {
            self
        } else {
            self.written_all(address, data.drop_last()).written(
                address_after(address, data.len() - 1),
                data.last(),
            )
        }
    }

    /// How many of `size` addresses from `address` on come before the first that is
    /// not mapped; all, where all are.
    pub open spec fn reachable(self, address: u32, size: int) -> int
        decreases size,
    {
        if size <= 0 {
            0
        } else {
            let before = self.reachable(address, size - 1);
            if before == size - 1 && self.is_mapped(address_after(address, size - 1)) {
                size
            } else {
                before
            }
        }
    }

    /// `size` addresses from `address` on hold `data`.
    pub open spec fn holds(self, address: u32, data: Seq<u8>) -> bool {
        forall|i: int|
            0 <= i < data.len() ==> (#[trigger] data[i]) == self.byte(address_after(address, i))
    }

    /// What a read by the processor gives: 0 where nothing is mapped.
    pub open spec fn bus_byte(self, address: int) -> u8 {
        if self.is_mapped(address) {
            self.byte(address)
        } else {
            0
        }
    }

    /// A byte written by the processor; lost where nothing is mapped.
    pub open spec fn bus_written(self, address: int, value: u8) -> MemoryModel {
        if self.is_mapped(address) {
            self.written(address, value)
        } else {
            self
        }
    }
}

/// What is written can be read back, and nothing else changes.
pub proof fn lemma_written(m: MemoryModel, address: int, value: u8, other: int)
    requires
        m.wf(),
        0 <= address < 0x100000000,
        0 <= other < 0x100000000,
    ensures
        m.written(address, value).wf(),
        m.written(address, value).mapped == m.mapped,
        m.written(address, value).byte(other) == if other == address {
            value
        } else {
            m.byte(other)
        },
{
    let w = m.written(address, value);
    assert forall|i: int| 0 <= i < PAGE_COUNT implies ((#[trigger] w.pages[i]) matches Some(page)
        ==> page.len() == PAGE_SIZE) by {
        assert(m.pages[i] matches Some(page) ==> page.len() == PAGE_SIZE);
    }
    if other / 0x10000 == address / 0x10000 && other != address {
        assert(other % 0x10000 != address % 0x10000);
    }
}

proof fn lemma_written_all(m: MemoryModel, address: u32, data: Seq<u8>)
    requires
        m.wf(),
    ensures
        m.written_all(address, data).wf(),
        m.written_all(address, data).mapped == m.mapped,
    decreases data.len(),
{
    if data.len() > 0 {
        lemma_written_all(m, address, data.drop_last());
        lemma_written(
            m.written_all(address, data.drop_last()),
            address_after(address, data.len() - 1),
            data.last(),
            0,
        );
    }
}

/// A read of what was just written gives it back, and every other address keeps
/// its value. A write that runs round the whole memory overwrites itself.
pub proof fn lemma_write_then_read(m: MemoryModel, address: u32, data: Seq<u8>, other: int)
    requires
        m.wf(),
        data.len() <= 0x100000000,
        0 <= other < 0x100000000,
    ensures
        m.written_all(address, data).holds(address, data),
        (forall|i: int| 0 <= i < data.len() ==> #[trigger] address_after(address, i) != other)
            ==> m.written_all(address, data).byte(other) == m.byte(other),
    decreases data.len(),
{
    if data.len() > 0 {
        let init = data.drop_last();
        let before = m.written_all(address, init);
        let last = address_after(address, init.len() as int);
        lemma_written_all(m, address, init);
        lemma_write_then_read(m, address, init, other);
        lemma_written(before, last, data.last(), other);
        assert forall|i: int| 0 <= i < data.len() implies (#[trigger] data[i])
            == m.written_all(address, data).byte(address_after(address, i)) by {
            lemma_written(before, last, data.last(), address_after(address, i));
            if i < init.len() {
                assert(init[i] == data[i]);
                assert(address_after(address, i) != last);
            }
        }
        if forall|i: int| 0 <= i < data.len() ==> #[trigger] address_after(address, i) != other {
            assert(address_after(address, data.len() - 1) != other);
        }
    }
}

/// What comes before the first address that is not mapped is mapped.
pub proof fn lemma_reachable(m: MemoryModel, address: u32, size: int)
    requires
        0 <= size,
    ensures
        0 <= m.reachable(address, size) <= size,
        forall|i: int|
            0 <= i < m.reachable(address, size) ==> m.is_mapped(#[trigger] address_after(address, i)),
        m.reachable(address, size) < size ==> !m.is_mapped(
            address_after(address, m.reachable(address, size)),
        ),
    decreases size,
{
    if size > 0 {
        lemma_reachable(m, address, size - 1);
    }
}

proof fn lemma_reachable_at(m: MemoryModel, address: u32, size: int, k: int)
    requires
        0 <= k <= size,
        forall|i: int| 0 <= i < k ==> m.is_mapped(#[trigger] address_after(address, i)),
        k < size ==> !m.is_mapped(address_after(address, k)),
    ensures
        m.reachable(address, size) == k,
{
    lemma_reachable(m, address, size);
    let r = m.reachable(address, size);
    if r < k {
        assert(m.is_mapped(address_after(address, r)));
    }
    if k < r {
        assert(m.is_mapped(address_after(address, k)));
    }
}

/// The pages of a range: the first, and the one behind the last. `None` where the
/// range runs over the end of the memory.
pub open spec fn pages_of(address: u32, size: int) -> Option<(int, int)> {
    let first = address as int / 0x10000;
    if size == 0 {
        Some((first, first))
    } else if address + size > 0x100000000 {
        None
    } else {
        Some((first, (address + size + 0xffff) / 0x10000))
    }
}

/// The emulated memory.
pub struct EmulatedMemory {
    mapped: Vec<bool>,
    pages: Vec<Option<Box<[u8; 65536]>>>,
}

impl View for EmulatedMemory {
    type V = MemoryModel;

    closed spec fn view(&self) -> MemoryModel {
        MemoryModel {
            mapped: self.mapped@,
            pages: Seq::new(
                self.pages@.len(),
                |i: int|
                    match self.pages@[i] {
                        Some(page) => Some(page@),
                        None => None,
                    },
            ),
        }
    }
}

impl EmulatedMemory {
    #[verifier::type_invariant]
    spec fn inv(self) -> bool {
        self.mapped@.len() == PAGE_COUNT && self.pages@.len() == PAGE_COUNT
    }

    pub open spec fn wf(&self) -> bool {
        self@.wf()
    }

    /// A memory with nothing mapped.
    pub fn new() -> (r: Self)
        ensures
            r.wf(),
            forall|i: int| 0 <= i < PAGE_COUNT ==> !#[trigger] r@.mapped[i],
            forall|i: int| 0 <= i < PAGE_COUNT ==> (#[trigger] r@.pages[i]) is None,
    {
        let mut mapped: Vec<bool> = Vec::new();
        let mut pages: Vec<Option<Box<[u8; 65536]>>> = Vec::new();
        while mapped.len() < PAGE_COUNT
            invariant
                mapped@.len() == pages@.len() <= PAGE_COUNT,
                forall|i: int| 0 <= i < mapped@.len() ==> !#[trigger] mapped@[i],
                forall|i: int| 0 <= i < pages@.len() ==> (#[trigger] pages@[i]) is None,
            decreases PAGE_COUNT - mapped@.len(),
        {
            mapped.push(false);
            pages.push(None);
        }
        EmulatedMemory { mapped, pages }
    }

    /// The memory as the processor sees it.
    pub fn as_arm32cpu_memory(self) -> (r: Arm32CpuMemory)
        ensures
            r.wf(),
            r@ == (BusModel { memory: self@, error: None }),
    {
        Arm32CpuMemory::new(self)
    }

    /// The pages that a range touches: the first, and the one behind the last.
    pub fn page_range(address: u32, size: usize) -> (r: Option<(usize, usize)>)
        ensures
            match r {
                Some((first, end)) => pages_of(address, size as int) == Some(
                    (first as int, end as int),
                ) && first <= end <= PAGE_COUNT,
                None => pages_of(address, size as int) is None,
            },
    {
        let first: usize = address as usize / PAGE_SIZE;
        if size == 0 {
            return Some((first, first));
        }
        if size as u64 > 0x100000000 - address as u64 {
            return None;
        }
        let end: u64 = address as u64 + size as u64;
        Some((first, ((end + 0xffff) / 0x10000) as usize))
    }

    /// Maps the pages of a range, which must not run over the end of the memory.
    pub fn map(&mut self, address: u32, size: usize)
        requires
            pages_of(address, size as int) is Some,
        ensures
            final(self).wf(),
            final(self)@.pages == old(self)@.pages,
            ({
                let (first, end) = pages_of(address, size as int)->0;
                final(self)@.mapped == Seq::new(
                    PAGE_COUNT as nat,
                    |i: int| old(self)@.mapped[i] || first <= i < end,
                )
            }),
    {
        proof {
            use_type_invariant(&*self);
        }
        if let Some((first, end)) = Self::page_range(address, size) {
            let mut index: usize = first;
            while index < end
                invariant
                    first <= index <= end <= PAGE_COUNT,
                    old(self).wf(),
                    self.pages == old(self).pages,
                    self.mapped@.len() == PAGE_COUNT,
                    forall|i: int|
                        0 <= i < PAGE_COUNT ==> #[trigger] self.mapped@[i] == (
                        old(self)@.mapped[i] || first <= i < index),
                decreases end - index,
            {
                self.mapped[index] = true;
                index += 1;
            }
            proof {
                assert(self@.pages =~= old(self)@.pages);
                assert(self@.mapped =~= Seq::new(
                    PAGE_COUNT as nat,
                    |i: int| old(self)@.mapped[i] || first <= i < end,
                ));
            }
        }
    }

    /// Whether a page was written yet.
    pub fn is_allocated(&self, page: usize) -> (r: bool)
        requires
            page < PAGE_COUNT,
        ensures
            r == (self@.pages[page as int] is Some),
    {
        proof {
            use_type_invariant(self);
        }
        self.pages[page].is_some()
    }

    fn load(&self, address: u32) -> (r: u8)
        ensures
            r == self@.byte(address as int),
    {
        proof {
            use_type_invariant(self);
        }
        let index: usize = address as usize / PAGE_SIZE;
        assert(self@.pages[index as int] matches Some(page) ==> page.len() == PAGE_SIZE);
        match &self.pages[index] {
            Some(page) => page[address as usize % PAGE_SIZE],
            None => 0,
        }
    }

    fn store(&mut self, address: u32, value: u8)
        ensures
            final(self).wf(),
            final(self)@ == old(self)@.written(address as int, value),
    {
        proof {
            use_type_invariant(&*self);
        }
        let ghost before = self@;
        let index: usize = address as usize / PAGE_SIZE;
        let mut page = match self.pages[index].take() {
            Some(page) => page,
            None => Box::new([0u8; 65536]),
        };
        assert(page@ =~= before.page_for_writing(address as int));
        page[address as usize % PAGE_SIZE] = value;
        self.pages[index] = Some(page);
        proof {
            lemma_written(before, address as int, value, 0);
            assert(self@ =~= before.written(address as int, value));
        }
    }

    /// Reads `size` bytes from `address` on into the front of `result`. At the first
    /// address that is not mapped it stops, with what came before read.
    pub fn read_range(&self, address: u32, size: usize, result: &mut [u8]) -> (r: Result<
        usize,
        EngineError,
    >)
        requires
            size <= old(result)@.len(),
        ensures
            self.wf(),
            ({
                let n = self@.reachable(address, size as int);
                &&& 0 <= n <= size
                &&& r == if n == size {
                    Ok(size)
                } else {
                    Err(EngineError::InvalidMemoryAccess(address_after(address, n) as u32))
                }
                &&& self@.holds(address, final(result)@.take(n))
                &&& final(result)@.len() == old(result)@.len()
                &&& final(result)@.skip(n) == old(result)@.skip(n)
            }),
    {
        proof {
            use_type_invariant(self);
        }
        let ghost first = result@;
        let mut current: u32 = address;
        let mut done: usize = 0;
        while done < size
            invariant
                self.wf(),
                first == old(result)@,
                done <= size <= result@.len() == first.len(),
                current == address_after(address, done as int),
                forall|i: int|
                    0 <= i < done ==> self@.is_mapped(#[trigger] address_after(address, i)),
                forall|i: int|
                    0 <= i < done ==> (#[trigger] result@[i]) == self@.byte(
                        address_after(address, i),
                    ),
                forall|i: int| done <= i < first.len() ==> (#[trigger] result@[i]) == first[i],
            decreases size - done,
        {
            if !self.mapped[current as usize / PAGE_SIZE] {
                proof {
                    lemma_reachable_at(self@, address, size as int, done as int);
                    assert(result@.skip(done as int) =~= first.skip(done as int));
                }
                return Err(EngineError::InvalidMemoryAccess(current));
            }
            result[done] = self.load(current);
            done += 1;
            current = current.wrapping_add(1);
        }
        proof {
            lemma_reachable_at(self@, address, size as int, size as int);
            assert(result@.skip(size as int) =~= first.skip(size as int));
        }
        Ok(size)
    }

    /// Writes `data` from `address` on. At the first address that is not mapped it
    /// stops, with what came before written.
    pub fn write_range(&mut self, address: u32, data: &[u8]) -> (r: Result<(), EngineError>)
        ensures
            old(self).wf(),
            final(self).wf(),
            ({
                let n = old(self)@.reachable(address, data@.len() as int);
                &&& 0 <= n <= data@.len()
                &&& r == if n == data@.len() {
                    Ok(())
                } else {
                    Err(EngineError::InvalidMemoryAccess(address_after(address, n) as u32))
                }
                &&& final(self)@ == old(self)@.written_all(address, data@.take(n))
            }),
    {
        proof {
            use_type_invariant(&*self);
        }
        let ghost before = self@;
        let mut current: u32 = address;
        let mut done: usize = 0;
        while done < data.len()
            invariant
                self.wf(),
                before.wf(),
                before == old(self)@,
                done <= data@.len(),
                current == address_after(address, done as int),
                self@ == before.written_all(address, data@.take(done as int)),
                self@.mapped == before.mapped,
                forall|i: int|
                    0 <= i < done ==> before.is_mapped(#[trigger] address_after(address, i)),
            decreases data@.len() - done,
        {
            if !self.mapped[current as usize / PAGE_SIZE] {
                proof {
                    lemma_reachable_at(before, address, data@.len() as int, done as int);
                }
                return Err(EngineError::InvalidMemoryAccess(current));
            }
            proof {
                let next = data@.take(done + 1);
                assert(next.drop_last() =~= data@.take(done as int));
                assert(next.last() == data@[done as int]);
                lemma_written(self@, current as int, data@[done as int], 0);
            }
            self.store(current, data[done]);
            done += 1;
            current = current.wrapping_add(1);
        }
        proof {
            lemma_reachable_at(before, address, data@.len() as int, data@.len() as int);
        }
        Ok(())
    }

    /// Whether every page of a range is mapped. A range that runs over the end of the
    /// memory is not.
    pub fn is_mapped(&self, address: u32, size: usize) -> (r: bool)
        ensures
            self.wf(),
            r == match pages_of(address, size as int) {
                Some((first, end)) => forall|i: int| first <= i < end ==> #[trigger] self@.mapped[i],
                None => false,
            },
    {
        proof {
            use_type_invariant(self);
        }
        match Self::page_range(address, size) {
            Some((first, end)) => {
                let mut index: usize = first;
                while index < end
                    invariant
                        first <= index <= end <= PAGE_COUNT,
                        pages_of(address, size as int) == Some((first as int, end as int)),
                        self.wf(),
                        forall|i: int| first <= i < index ==> #[trigger] self@.mapped[i],
                    decreases end - index,
                {
                    if !self.mapped[index] {
                        assert(!self@.mapped[index as int]);
                        return false;
                    }
                    index += 1;
                }
                true
            },
            None => false,
        }
    }
}

/// The memory as the processor sees it, and the last address at which an access
/// failed.
#[verifier::ext_equal]
pub struct BusModel {
    pub memory: MemoryModel,
    pub error: Option<u32>,
}

/// The address of byte `k` of a word at `address`.
pub open spec fn word_address(address: u32, k: int) -> u32 {
    address_after(address, k) as u32
}

impl BusModel {
    /// An access to `address`: it fails where nothing is mapped.
    pub open spec fn touched(self, address: u32) -> BusModel {
        if self.memory.is_mapped(address as int) {
            self
        } else {
            BusModel { error: Some(address), ..self }
        }
    }

    /// The accesses to the bytes of a word of `size`: one for all where they lie in
    /// one page, else one for each.
    pub open spec fn touched_word(self, address: u32, size: int) -> BusModel {
        if address as int % 0x10000 + size <= 0x10000 {
            self.touched(address)
        } else if size == 2 {
            self.touched(address).touched(word_address(address, 1))
        } else {
            self.touched(address).touched(word_address(address, 1)).touched(
                word_address(address, 2),
            ).touched(word_address(address, 3))
        }
    }

    /// What a read of one byte gives.
    pub open spec fn byte(self, address: u32, k: int) -> u8 {
        self.memory.bus_byte(word_address(address, k) as int)
    }

    /// A write of one byte.
    pub open spec fn written(self, address: u32, value: u8) -> BusModel {
        BusModel {
            memory: self.memory.bus_written(address as int, value),
            error: self.touched(address).error,
        }
    }
}

/// An emulated memory as the processor sees it.
pub struct Arm32CpuMemory {
    emulated_memory: EmulatedMemory,
    memory_error: Option<u32>,
}

impl View for Arm32CpuMemory {
    type V = BusModel;

    closed spec fn view(&self) -> BusModel {
        BusModel { memory: self.emulated_memory@, error: self.memory_error }
    }
}

impl Arm32CpuMemory {
    pub open spec fn wf(&self) -> bool {
        self@.memory.wf()
    }

    pub fn new(emulated_memory: EmulatedMemory) -> (r: Self)
        ensures
            r.wf(),
            r@ == (BusModel { memory: emulated_memory@, error: None }),
    {
        proof {
            use_type_invariant(&emulated_memory);
        }
        Arm32CpuMemory { emulated_memory, memory_error: None }
    }

    pub fn memory(&self) -> (r: &EmulatedMemory)
        ensures
            r@ == self@.memory,
            self.wf(),
    {
        proof {
            use_type_invariant(&self.emulated_memory);
        }
        &self.emulated_memory
    }

    /// The last address at which an access failed.
    pub fn memory_error(&self) -> (r: Option<u32>)
        ensures
            r == self@.error,
    {
        self.memory_error
    }

    /// Forgets the failed access.
    pub fn clear_error(&mut self)
        ensures
            final(self)@ == (BusModel { error: None, ..old(self)@ }),
    {
        self.memory_error = None;
    }

    /// Maps the pages of a range.
    pub fn map(&mut self, address: u32, size: usize)
        requires
            pages_of(address, size as int) is Some,
        ensures
            final(self).wf(),
            final(self)@.error == old(self)@.error,
            final(self)@.memory.pages == old(self)@.memory.pages,
            ({
                let (first, end) = pages_of(address, size as int)->0;
                final(self)@.memory.mapped == Seq::new(
                    PAGE_COUNT as nat,
                    |i: int| old(self)@.memory.mapped[i] || first <= i < end,
                )
            }),
    {
        proof {
            use_type_invariant(&self.emulated_memory);
        }
        self.emulated_memory.map(address, size);
    }

    /// Writes `data` from `address` on, as far as the addresses are mapped.
    pub fn write_range(&mut self, address: u32, data: &[u8]) -> (r: Result<(), EngineError>)
        ensures
            final(self).wf(),
            final(self)@.error == old(self)@.error,
            ({
                let n = old(self)@.memory.reachable(address, data@.len() as int);
                &&& 0 <= n <= data@.len()
                &&& r == if n == data@.len() {
                    Ok(())
                } else {
                    Err(EngineError::InvalidMemoryAccess(address_after(address, n) as u32))
                }
                &&& final(self)@.memory == old(self)@.memory.written_all(address, data@.take(n))
            }),
    {
        proof {
            use_type_invariant(&self.emulated_memory);
        }
        self.emulated_memory.write_range(address, data)
    }

    pub fn r8(&mut self, addr: u32) -> (r: u8)
        ensures
            final(self).wf(),
            r == old(self)@.memory.bus_byte(addr as int),
            final(self)@ == old(self)@.touched(addr),
    {
        proof {
            use_type_invariant(&self.emulated_memory);
        }
        if !self.emulated_memory.mapped[addr as usize / PAGE_SIZE] {
            self.memory_error = Some(addr);
            return 0;
        }
        self.emulated_memory.load(addr)
    }

    /// A little-endian 16-bit read. Bytes that are not mapped read as 0.
    pub fn r16(&mut self, addr: u32) -> (r: u16)
        ensures
            final(self).wf(),
            r == half_read(old(self)@, addr),
            final(self)@ == old(self)@.touched_word(addr, 2),
    {
        proof {
            use_type_invariant(&self.emulated_memory);
        }
        if addr as usize % PAGE_SIZE + 2 <= PAGE_SIZE {
            proof {
                lemma_one_page(addr, 2);
            }
            if !self.emulated_memory.mapped[addr as usize / PAGE_SIZE] {
                self.memory_error = Some(addr);
                return 0;
            }
            return self.emulated_memory.load(addr) as u16 + 0x100
                * self.emulated_memory.load(addr.wrapping_add(1)) as u16;
        }
        let low = self.r8(addr);
        let high = self.r8(addr.wrapping_add(1));
        low as u16 + 0x100 * high as u16
    }

    /// A little-endian 32-bit read. Bytes that are not mapped read as 0.
    pub fn r32(&mut self, addr: u32) -> (r: u32)
        ensures
            final(self).wf(),
            r == word_read(old(self)@, addr),
            final(self)@ == old(self)@.touched_word(addr, 4),
    {
        proof {
            use_type_invariant(&self.emulated_memory);
        }
        if addr as usize % PAGE_SIZE + 4 <= PAGE_SIZE {
            proof {
                lemma_one_page(addr, 4);
            }
            if !self.emulated_memory.mapped[addr as usize / PAGE_SIZE] {
                self.memory_error = Some(addr);
                return 0;
            }
            return self.emulated_memory.load(addr) as u32 + 0x100 * self.emulated_memory.load(
                addr.wrapping_add(1),
            ) as u32 + 0x10000 * self.emulated_memory.load(addr.wrapping_add(2)) as u32 + 0x1000000
                * self.emulated_memory.load(addr.wrapping_add(3)) as u32;
        }
        let b0 = self.r8(addr);
        let b1 = self.r8(addr.wrapping_add(1));
        let b2 = self.r8(addr.wrapping_add(2));
        let b3 = self.r8(addr.wrapping_add(3));
        b0 as u32 + 0x100 * b1 as u32 + 0x10000 * b2 as u32 + 0x1000000 * b3 as u32
    }

    pub fn w8(&mut self, addr: u32, val: u8)
        ensures
            final(self).wf(),
            final(self)@ == old(self)@.written(addr, val),
    {
        proof {
            use_type_invariant(&self.emulated_memory);
        }
        if !self.emulated_memory.mapped[addr as usize / PAGE_SIZE] {
            self.memory_error = Some(addr);
            return;
        }
        self.emulated_memory.store(addr, val);
    }

    /// A little-endian 16-bit write. Bytes that are not mapped are lost.
    pub fn w16(&mut self, addr: u32, val: u16)
        ensures
            final(self).wf(),
            final(self)@ == (BusModel {
                error: old(self)@.touched_word(addr, 2).error,
                ..half_written(old(self)@, addr, val)
            }),
    {
        proof {
            use_type_invariant(&self.emulated_memory);
        }
        proof {
            lemma_bus_written_mapping(old(self)@, addr, (val % 0x100) as u8);
        }
        if addr as usize % PAGE_SIZE + 2 <= PAGE_SIZE {
            proof {
                lemma_one_page(addr, 2);
            }
            if !self.emulated_memory.mapped[addr as usize / PAGE_SIZE] {
                self.memory_error = Some(addr);
                return;
            }
            self.emulated_memory.store(addr, (val % 0x100) as u8);
            self.emulated_memory.store(addr.wrapping_add(1), (val / 0x100) as u8);
            return;
        }
        self.w8(addr, (val % 0x100) as u8);
        self.w8(addr.wrapping_add(1), (val / 0x100) as u8);
    }

    /// A little-endian 32-bit write. Bytes that are not mapped are lost.
    pub fn w32(&mut self, addr: u32, val: u32)
        ensures
            final(self).wf(),
            final(self)@ == (BusModel {
                error: old(self)@.touched_word(addr, 4).error,
                ..word_written(old(self)@, addr, val)
            }),
    {
        proof {
            use_type_invariant(&self.emulated_memory);
        }
        let b0: u8 = (val % 0x100) as u8;
        let b1: u8 = (val / 0x100 % 0x100) as u8;
        let b2: u8 = (val / 0x10000 % 0x100) as u8;
        let b3: u8 = (val / 0x1000000) as u8;
        proof {
            let s0 = old(self)@;
            let s1 = s0.written(addr, b0);
            let s2 = s1.written(word_address(addr, 1), b1);
            lemma_bus_written_mapping(s0, addr, b0);
            lemma_bus_written_mapping(s1, word_address(addr, 1), b1);
            lemma_bus_written_mapping(s2, word_address(addr, 2), b2);
        }
        if addr as usize % PAGE_SIZE + 4 <= PAGE_SIZE {
            proof {
                lemma_one_page(addr, 4);
            }
            if !self.emulated_memory.mapped[addr as usize / PAGE_SIZE] {
                self.memory_error = Some(addr);
                return;
            }
            self.emulated_memory.store(addr, b0);
            self.emulated_memory.store(addr.wrapping_add(1), b1);
            self.emulated_memory.store(addr.wrapping_add(2), b2);
            self.emulated_memory.store(addr.wrapping_add(3), b3);
            return;
        }
        self.w8(addr, b0);
        self.w8(addr.wrapping_add(1), b1);
        self.w8(addr.wrapping_add(2), b2);
        self.w8(addr.wrapping_add(3), b3);
    }
}

/// The value of the two bytes at `address`, the lowest first.
pub open spec fn half_read(bus: BusModel, address: u32) -> int {
    bus.byte(address, 0) + 0x100 * bus.byte(address, 1)
}

/// The value of the four bytes at `address`, the lowest first.
pub open spec fn word_read(bus: BusModel, address: u32) -> int {
    bus.byte(address, 0) + 0x100 * bus.byte(address, 1) + 0x10000 * bus.byte(address, 2)
        + 0x1000000 * bus.byte(address, 3)
}

/// The two bytes of a half word written, lowest first.
pub open spec fn half_written(bus: BusModel, address: u32, value: u16) -> BusModel {
    bus.written(address, (value % 0x100) as u8).written(
        word_address(address, 1),
        (value / 0x100) as u8,
    )
}

/// The four bytes of a word written, lowest first.
pub open spec fn word_written(bus: BusModel, address: u32, value: u32) -> BusModel {
    bus.written(address, (value % 0x100) as u8).written(
        word_address(address, 1),
        (value / 0x100 % 0x100) as u8,
    ).written(word_address(address, 2), (value / 0x10000 % 0x100) as u8).written(
        word_address(address, 3),
        (value / 0x1000000) as u8,
    )
}

proof fn lemma_one_page(address: u32, size: int)
    requires
        0 <= size <= 4,
        address as int % 0x10000 + size <= 0x10000,
    ensures
        forall|k: int|
            0 <= k < size ==> #[trigger] word_address(address, k) as int / 0x10000 == address as int
                / 0x10000,
        forall|k: int| 0 <= k < size ==> #[trigger] word_address(address, k) == address + k,
{
}

proof fn lemma_bus_written_mapping(bus: BusModel, address: u32, value: u8)
    requires
        bus.memory.wf(),
    ensures
        bus.written(address, value).memory.wf(),
        bus.written(address, value).memory.mapped == bus.memory.mapped,
{
    lemma_written(bus.memory, address as int, value, 0);
}

/// A word that the processor wrote to mapped addresses reads back, across a page
/// boundary and round the end of the memory too.
pub proof fn lemma_word_reads_back(bus: BusModel, address: u32, value: u32)
    requires
        bus.memory.wf(),
        forall|k: int|
            0 <= k < 4 ==> bus.memory.is_mapped(#[trigger] word_address(address, k) as int),
    ensures
        ({
            let after = word_written(bus, address, value);
            &&& word_read(after, address) == value
            &&& after.byte(address, 0) == value % 0x100
            &&& after.byte(address, 1) == value / 0x100 % 0x100
            &&& after.byte(address, 2) == value / 0x10000 % 0x100
            &&& after.byte(address, 3) == value / 0x1000000
        }),
        word_written(bus, address, value).error == bus.error,
{
    let a0 = word_address(address, 0);
    let a1 = word_address(address, 1);
    let a2 = word_address(address, 2);
    let a3 = word_address(address, 3);
    assert(a0 == address);
    let b0 = (value % 0x100) as u8;
    let b1 = (value / 0x100 % 0x100) as u8;
    let b2 = (value / 0x10000 % 0x100) as u8;
    let b3 = (value / 0x1000000) as u8;
    let s1 = bus.written(a0, b0);
    let s2 = s1.written(a1, b1);
    let s3 = s2.written(a2, b2);
    lemma_bus_written_mapping(bus, a0, b0);
    lemma_bus_written_mapping(s1, a1, b1);
    lemma_bus_written_mapping(s2, a2, b2);
    lemma_bus_written_mapping(s3, a3, b3);
    assert(a0 != a1 && a0 != a2 && a0 != a3 && a1 != a2 && a1 != a3 && a2 != a3);
    lemma_written(bus.memory, a0 as int, b0, a0 as int);
    lemma_written(s1.memory, a1 as int, b1, a0 as int);
    lemma_written(s1.memory, a1 as int, b1, a1 as int);
    lemma_written(s2.memory, a2 as int, b2, a0 as int);
    lemma_written(s2.memory, a2 as int, b2, a1 as int);
    lemma_written(s2.memory, a2 as int, b2, a2 as int);
    lemma_written(s3.memory, a3 as int, b3, a0 as int);
    lemma_written(s3.memory, a3 as int, b3, a1 as int);
    lemma_written(s3.memory, a3 as int, b3, a2 as int);
    lemma_written(s3.memory, a3 as int, b3, a3 as int);
}

/// A half word that the processor wrote to mapped addresses reads back, its low byte
/// first.
pub proof fn lemma_half_reads_back(bus: BusModel, address: u32, value: u16)
    requires
        bus.memory.wf(),
        forall|k: int|
            0 <= k < 2 ==> bus.memory.is_mapped(#[trigger] word_address(address, k) as int),
    ensures
        ({
            let after = half_written(bus, address, value);
            &&& half_read(after, address) == value
            &&& after.byte(address, 0) == value % 0x100
            &&& after.byte(address, 1) == value / 0x100
            &&& after.error == bus.error
        }),
{
    let a0 = word_address(address, 0);
    let a1 = word_address(address, 1);
    assert(a0 == address && a0 != a1);
    let b0 = (value % 0x100) as u8;
    let b1 = (value / 0x100) as u8;
    let s1 = bus.written(a0, b0);
    lemma_bus_written_mapping(bus, a0, b0);
    lemma_bus_written_mapping(s1, a1, b1);
    lemma_written(bus.memory, a0 as int, b0, a0 as int);
    lemma_written(s1.memory, a1 as int, b1, a0 as int);
    lemma_written(s1.memory, a1 as int, b1, a1 as int);
}

/// The bytes of a number that was read are the bytes in memory: the lowest at the
/// address itself, the others behind it.
pub proof fn lemma_read_parts_into_bytes(bus: BusModel, address: u32)
    ensures
        word_read(bus, address) % 0x100 == bus.byte(address, 0),
        word_read(bus, address) / 0x100 % 0x100 == bus.byte(address, 1),
        word_read(bus, address) / 0x10000 % 0x100 == bus.byte(address, 2),
        word_read(bus, address) / 0x1000000 == bus.byte(address, 3),
        half_read(bus, address) % 0x100 == bus.byte(address, 0),
        half_read(bus, address) / 0x100 == bus.byte(address, 1),
{
}

/// Mapping a range maps the pages in which its addresses lie, and no others.
pub proof fn lemma_pages_are_those_of_the_range(address: u32, size: int, page: int)
    requires
        0 < size,
        address + size <= 0x1_0000_0000,
    ensures
        pages_of(address, size) matches Some((first, end)) && {
            first <= page < end <==> exists|i: int|
                0 <= i < size && #[trigger] address_after(address, i) / 0x10000 == page
        },
{
    let (first, end) = pages_of(address, size)->0;
    if first <= page < end {
        let i = if page == first {
            0
        } else {
            page * 0x10000 - address
        };
        assert(0 <= i < size);
        assert(address_after(address, i) == address + i);
        assert(address_after(address, i) / 0x10000 == page);
    }
    if exists|i: int| 0 <= i < size && #[trigger] address_after(address, i) / 0x10000 == page {
        let i = choose|i: int|
            0 <= i < size && #[trigger] address_after(address, i) / 0x10000 == page;
        assert(address_after(address, i) == address + i);
    }
}

/// A word that the processor reads is the four bytes at its address, the lowest first:
/// what was written there byte by byte is read as one number, and no byte beside them
/// counts.
pub proof fn lemma_word_is_its_bytes(bus: BusModel, address: u32, k: int)
    requires
        0 <= k < 4,
        address + 3 <= u32::MAX,
    ensures
        word_address(address, k) == address + k,
        bus.memory.is_mapped(address + k) ==> bus.byte(address, k) == bus.memory.byte(address + k),
        !bus.memory.is_mapped(address + k) ==> bus.byte(address, k) == 0,
{
}

/// A failed access is noted, the last one last; one that does not fail leaves the note.
pub proof fn lemma_failed_access_is_noted(bus: BusModel, address: u32, value: u8)
    ensures
        bus.memory.is_mapped(address as int) ==> bus.touched(address) == bus && bus.written(
            address,
            value,
        ).error == bus.error,
        !bus.memory.is_mapped(address as int) ==> {
            &&& bus.touched(address).error == Some(address)
            &&& bus.touched(address).memory == bus.memory
            &&& bus.written(address, value).error == Some(address)
            &&& bus.written(address, value).memory == bus.memory
        },
{
}

/// An access to a word changes no memory and fails only where a byte of it is not mapped;
/// the error then names one of its bytes.
pub proof fn lemma_word_access_names_a_byte(bus: BusModel, address: u32)
    requires
        bus.error is None,
        address <= 0xffff_fffb,
    ensures
        bus.touched_word(address, 4).memory == bus.memory,
        bus.touched_word(address, 2).memory == bus.memory,
        bus.touched_word(address, 4).error matches Some(at) ==> address <= at < address + 4
            && !bus.memory.is_mapped(at as int),
        bus.touched_word(address, 2).error matches Some(at) ==> address <= at < address + 2
            && !bus.memory.is_mapped(at as int),
        bus.touched_word(address, 4).error is None <==> bus.memory.is_mapped(address as int)
            && bus.memory.is_mapped(address + 1) && bus.memory.is_mapped(address + 2)
            && bus.memory.is_mapped(address + 3),
        bus.touched_word(address, 2).error is None <==> bus.memory.is_mapped(address as int)
            && bus.memory.is_mapped(address + 1),
{
    assert(word_address(address, 1) == address + 1);
    assert(word_address(address, 2) == address + 2);
    assert(word_address(address, 3) == address + 3);
    let page = address as int / 0x10000;
    if address as int % 0x10000 + 4 <= 0x10000 {
        assert((address + 1) / 0x10000 == page && (address + 2) / 0x10000 == page && (address + 3)
            / 0x10000 == page);
    }
    if address as int % 0x10000 + 2 <= 0x10000 {
        assert((address + 1) / 0x10000 == page);
    }
}

} // verus!
