//! The ARM processor and its memory, and what a run of it comes to.

use arm32_cpu::{Cpu, Mode};
use vstd::prelude::*;

use crate::arm_memory::{Arm32CpuMemory, EmulatedMemory, EngineError};
use crate::text::hex4_text;

verus! {

use crate::arm_memory::{address_after, pages_of, BusModel, PAGE_COUNT};
use crate::text::hex4;

/// The processor of the `arm32_cpu` crate.
#[verifier::external_type_specification]
#[verifier::external_body]
pub struct ExCpu(Cpu);

/// The register file of a processor: 37 registers, those of all modes.
pub uninterp spec fn registers(cpu: Cpu) -> Seq<u32>;

/// `Cpu::new` clears all registers but the status, which names the supervisor
/// mode with interrupts off.
pub assume_specification[ Cpu::new ]() -> (r: Cpu)
    ensures
        registers(r) == Seq::new(
            37,
            |i: int|
                if i == 16 {
                    0xd3u32
                } else {
                    0u32
                },
        ),
;

/// Whose registers are meant.
#[derive(Clone, Copy, Debug, PartialEq, Eq, Structural)]
pub enum Bank {
    User,
    Supervisor,
}

pub const SP: u8 = 13;

pub const LR: u8 = 14;

pub const PC: u8 = 15;

pub const CPSR: u8 = 16;

pub const SPSR: u8 = 17;

/// The place of a register in the register file. A supervisor has its own stack
/// pointer, link register and saved status; a user's saved status is the status.
pub open spec fn slot(bank: Bank, reg: int) -> int {
    match bank {
        Bank::User => if reg == 17 {
            16
        } else {
            reg
        },
        Bank::Supervisor => if reg == 13 {
            28
        } else if reg == 14 {
            29
        } else if reg == 17 {
            30
        } else {
            reg
        },
    }
}

/// The low five bits of a status name a mode.
pub open spec fn names_mode(status: u32) -> bool {
    let mode = status % 32;
    mode == 0x10 || mode == 0x11 || mode == 0x12 || mode == 0x13 || mode == 0x17 || mode == 0x1b
        || mode == 0x1f
}

/// The status after `value` was put into it: the mode stays where `value` names
/// none.
pub open spec fn new_status(old_status: u32, value: u32) -> u32 {
    if names_mode(value) {
        value
    } else {
        (value - value % 32 + old_status % 32) as u32
    }
}

/// Reads a register with `Cpu::reg_get`, which looks its place up in a table.
#[verifier::external_body]
fn reg_get(cpu: &Cpu, bank: Bank, reg: u8) -> (r: u32)
    requires
        reg <= 17,
    ensures
        r == registers(*cpu)[slot(bank, reg as int)],
{
    let mode = match bank {
        Bank::User => Mode::User,
        Bank::Supervisor => Mode::Supervisor,
    };
    cpu.reg_get(mode, reg)
}

/// Sets a user register with `Cpu::reg_set`. A status that names no mode keeps the
/// mode that was there; that one has to be a mode then, else the call panics.
#[verifier::external_body]
fn user_reg_set(cpu: &mut Cpu, reg: u8, value: u32)
    requires
        reg <= 16,
        reg == 16 ==> names_mode(value) || names_mode(registers(*old(cpu))[16]),
    ensures
        registers(*final(cpu)).len() == 37,
        forall|i: int|
            0 <= i < 37 ==> #[trigger] registers(*final(cpu))[i] == if i != reg {
                registers(*old(cpu))[i]
            } else if reg == 16 {
                new_status(registers(*old(cpu))[16], value)
            } else {
                value
            },
{
    cpu.reg_set(Mode::User, reg, value)
}

/// The registers that a program sees.
#[derive(Clone, Copy, Debug, PartialEq, Eq, Structural)]
pub enum ArmRegister {
    R0,
    R1,
    R2,
    R3,
    R4,
    R5,
    R6,
    R7,
    R8,
    SB,
    SL,
    FP,
    IP,
    SP,
    LR,
    PC,
    Cpsr,
}

impl ArmRegister {
    /// The number of the register.
    pub open spec fn number(self) -> u8 {
        match self {
            ArmRegister::R0 => 0,
            ArmRegister::R1 => 1,
            ArmRegister::R2 => 2,
            ArmRegister::R3 => 3,
            ArmRegister::R4 => 4,
            ArmRegister::R5 => 5,
            ArmRegister::R6 => 6,
            ArmRegister::R7 => 7,
            ArmRegister::R8 => 8,
            ArmRegister::SB => 9,
            ArmRegister::SL => 10,
            ArmRegister::FP => 11,
            ArmRegister::IP => 12,
            ArmRegister::SP => 13,
            ArmRegister::LR => 14,
            ArmRegister::PC => 15,
            ArmRegister::Cpsr => 16,
        }
    }

    pub fn into_armv4t(self) -> (r: u8)
        ensures
            r == self.number(),
            r <= 16,
    {
        match self {
            ArmRegister::R0 => 0,
            ArmRegister::R1 => 1,
            ArmRegister::R2 => 2,
            ArmRegister::R3 => 3,
            ArmRegister::R4 => 4,
            ArmRegister::R5 => 5,
            ArmRegister::R6 => 6,
            ArmRegister::R7 => 7,
            ArmRegister::R8 => 8,
            ArmRegister::SB => 9,
            ArmRegister::SL => 10,
            ArmRegister::FP => 11,
            ArmRegister::IP => 12,
            ArmRegister::SP => SP,
            ArmRegister::LR => LR,
            ArmRegister::PC => PC,
            ArmRegister::Cpsr => CPSR,
        }
    }
}

/// How a run ended.
#[derive(Clone, Copy, Debug, PartialEq, Eq, Structural)]
pub enum EngineRunResult {
    End,
    CountExhausted,
    Svc { category: u32, lr: u32, spsr: u32 },
}

/// What to do next in a run.
#[derive(Debug, PartialEq, Eq)]
pub enum RunStep {
    /// Execute one instruction.
    Step,
    Done(Result<EngineRunResult, EngineError>),
}

/// The processor has just taken a software interrupt.
pub open spec fn at_svc(regs: Seq<u32>) -> bool {
    regs[15] == 0x08 && regs[16] % 32 == 0x13
}

/// The text of the error about an instruction that is no software interrupt.
pub open spec fn invalid_svc_text(instruction: u16) -> Seq<char> {
    "Invalid Thumb SVC instruction "@ + hex4(instruction)
}

/// An executed instruction was judged: `decoded` says that there was one.
pub open spec fn is_judged(
    before: BusModel,
    after: BusModel,
    decoded: bool,
    r: Result<(), EngineError>,
) -> bool {
    &&& after == (BusModel { error: None, ..before })
    &&& if !decoded {
        &&& r matches Err(EngineError::FatalError(text))
        &&& text@ == "Undefined instruction"@
    } else {
        r == match before.error {
            Some(address) => Err(EngineError::InvalidMemoryAccess(address)),
            None => Ok(()),
        }
    }
}

/// What a software interrupt comes to: its number is in the instruction before
/// the one to return to.
pub open spec fn is_svc_result(
    regs: Seq<u32>,
    bus: BusModel,
    r: Result<EngineRunResult, EngineError>,
) -> bool {
    let lr = regs[29];
    if lr < 2 {
        r == Err::<EngineRunResult, EngineError>(EngineError::InvalidMemoryAccess(lr))
    } else {
        let at = (lr - 2) as u32;
        let reached = bus.memory.reachable(at, 2);
        let low = bus.memory.byte(at as int);
        let high = bus.memory.byte(address_after(at, 1));
        if reached != 2 {
            r == Err::<EngineRunResult, EngineError>(
                EngineError::InvalidMemoryAccess(address_after(at, reached) as u32),
            )
        } else if high != 0xdf {
            &&& r matches Err(EngineError::FatalError(text))
            &&& text@ == invalid_svc_text((low + 0x100 * high) as u16)
        } else {
            r == Ok::<EngineRunResult, EngineError>(
                EngineRunResult::Svc { category: low as u32, lr, spsr: regs[30] },
            )
        }
    }
}

/// What comes before an instruction: a software interrupt is reported, the
/// lowest addresses hold no code, a run ends at `end` or when its count is used
/// up; else the instruction is executed.
pub open spec fn is_next_step(
    regs: Seq<u32>,
    bus: BusModel,
    end: u32,
    count: u32,
    r: RunStep,
) -> bool {
    let pc = regs[15];
    if at_svc(regs) {
        &&& r matches RunStep::Done(result)
        &&& is_svc_result(regs, bus, result)
    } else if pc < 0x1000 {
        r == RunStep::Done(Err(EngineError::InvalidMemoryAccess(pc)))
    } else if pc == end {
        r == RunStep::Done(Ok(EngineRunResult::End))
    } else if count == 0 {
        r == RunStep::Done(Ok(EngineRunResult::CountExhausted))
    } else {
        r == RunStep::Step
    }
}

/// `after` is `before` with `value` written to a register. An odd program counter
/// asks for Thumb code: its lowest bit goes into the status instead.
pub open spec fn is_reg_written(
    after: Seq<u32>,
    before: Seq<u32>,
    reg: ArmRegister,
    value: u32,
) -> bool {
    forall|i: int|
        0 <= i < 37 ==> #[trigger] after[i] == if reg is PC && value % 2 == 1 {
            if i == 15 {
                (value - 1) as u32
            } else if i == 16 {
                before[16] | 0x20
            } else {
                before[i]
            }
        } else if i != reg.number() {
            before[i]
        } else if reg is Cpsr {
            new_status(before[16], value)
        } else {
            value
        }
}

/// The emulated machine. Instructions are executed from outside, on the two
/// parts.
pub struct Arm32CpuEngine {
    pub cpu: Cpu,
    pub mem: Arm32CpuMemory,
}

impl Arm32CpuEngine {
    /// The registers.
    pub open spec fn regs(&self) -> Seq<u32> {
        registers(self.cpu)
    }

    /// A machine after a cold start, with nothing mapped.
    pub fn new() -> (r: Self)
        ensures
            r.regs() == Seq::new(
                37,
                |i: int|
                    if i == 16 {
                        0xd3u32
                    } else {
                        0u32
                    },
            ),
            r.mem@.error is None,
            forall|i: int| 0 <= i < PAGE_COUNT ==> !#[trigger] r.mem@.memory.mapped[i],
    {
        Arm32CpuEngine { cpu: Cpu::new(), mem: EmulatedMemory::new().as_arm32cpu_memory() }
    }

    fn is_svc_exception(&self) -> (r: bool)
        ensures
            r == at_svc(self.regs()),
    {
        reg_get(&self.cpu, Bank::User, PC) == 0x08 && reg_get(&self.cpu, Bank::User, CPSR) % 32
            == 0x13
    }

    /// What the software interrupt that was just taken comes to.
    pub fn read_svc_result(&self) -> (r: Result<EngineRunResult, EngineError>)
        ensures
            is_svc_result(self.regs(), self.mem@, r),
    {
        let lr = reg_get(&self.cpu, Bank::Supervisor, LR);
        let spsr = reg_get(&self.cpu, Bank::Supervisor, SPSR);
        if lr < 2 {
            return Err(EngineError::InvalidMemoryAccess(lr));
        }
        let mut svc_bytes: Vec<u8> = vec![0, 0];
        let at = lr - 2;
        let read = self.mem.memory().read_range(at, 2, svc_bytes.as_mut_slice());
        match read {
            Err(error) => Err(error),
            Ok(_) => {
                proof {
                    let all = svc_bytes@.take(2);
                    assert(all[0] == self.mem@.memory.byte(address_after(at, 0)));
                    assert(all[1] == self.mem@.memory.byte(address_after(at, 1)));
                }
                let instruction: u16 = svc_bytes[0] as u16 + 0x100 * svc_bytes[1] as u16;
                if svc_bytes[1] != 0xdf {
                    let mut text = "Invalid Thumb SVC instruction ".to_owned();
                    text.append(hex4_text(instruction).as_str());
                    return Err(EngineError::FatalError(text));
                }
                Ok(EngineRunResult::Svc { category: svc_bytes[0] as u32, lr, spsr })
            },
        }
    }

    /// Decides what comes next in a run that is to end at `end` or after `count` more
    /// instructions.
    pub fn next_step(&self, end: u32, count: u32) -> (r: RunStep)
        ensures
            is_next_step(self.regs(), self.mem@, end, count, r),
    {
        let pc = reg_get(&self.cpu, Bank::User, PC);
        if self.is_svc_exception() {
            return RunStep::Done(self.read_svc_result());
        }
        if pc < 0x1000 {
            return RunStep::Done(Err(EngineError::InvalidMemoryAccess(pc)));
        }
        if pc == end {
            return RunStep::Done(Ok(EngineRunResult::End));
        }
        if count == 0 {
            return RunStep::Done(Ok(EngineRunResult::CountExhausted));
        }
        RunStep::Step
    }

    /// Judges an instruction that was executed: `decoded` says that there was one. A
    /// run goes on after `Ok`.
    pub fn after_step(&mut self, decoded: bool) -> (r: Result<(), EngineError>)
        ensures
            final(self).cpu == old(self).cpu,
            is_judged(old(self).mem@, final(self).mem@, decoded, r),
    {
        let error = self.mem.memory_error();
        self.mem.clear_error();
        if !decoded {
            return Err(EngineError::FatalError("Undefined instruction".to_owned()));
        }
        match error {
            Some(address) => Err(EngineError::InvalidMemoryAccess(address)),
            None => Ok(()),
        }
    }

    /// Writes a register. An odd program counter asks for Thumb code: its lowest bit
    /// goes into the status instead.
    pub fn reg_write(&mut self, reg: ArmRegister, value: u32)
        requires
            reg is Cpsr ==> names_mode(value) || names_mode(old(self).regs()[16]),
            reg is PC && value % 2 == 1 ==> names_mode(old(self).regs()[16]),
        ensures
            final(self).mem == old(self).mem,
            final(self).regs().len() == 37,
            is_reg_written(final(self).regs(), old(self).regs(), reg, value),
    {
        if reg == ArmRegister::PC && value % 2 == 1 {
            user_reg_set(&mut self.cpu, PC, value - 1);
            let cpsr = reg_get(&self.cpu, Bank::User, CPSR);
            proof {
                assert((cpsr | 0x20) % 32 == cpsr % 32) by (bit_vector);
            }
            user_reg_set(&mut self.cpu, CPSR, cpsr | 0x20);
            return;
        }
        user_reg_set(&mut self.cpu, reg.into_armv4t(), value);
    }

    pub fn reg_read(&self, reg: ArmRegister) -> (r: u32)
        ensures
            r == self.regs()[reg.number() as int],
    {
        reg_get(&self.cpu, Bank::User, reg.into_armv4t())
    }

    /// Maps memory; a range must not run over its end.
    pub fn mem_map(&mut self, address: u32, size: usize)
        requires
            pages_of(address, size as int) is Some,
        ensures
            final(self).cpu == old(self).cpu,
            final(self).mem@.error == old(self).mem@.error,
            final(self).mem@.memory.pages == old(self).mem@.memory.pages,
            ({
                let (first, end) = pages_of(address, size as int)->0;
                final(self).mem@.memory.mapped == Seq::new(
                    PAGE_COUNT as nat,
                    |i: int| old(self).mem@.memory.mapped[i] || first <= i < end,
                )
            }),
    {
        self.mem.map(address, size);
    }

    /// Writes memory, as far as it is mapped.
    pub fn mem_write(&mut self, address: u32, data: &[u8]) -> (r: Result<(), EngineError>)
        ensures
            final(self).cpu == old(self).cpu,
            final(self).mem@.error == old(self).mem@.error,
            ({
                let n = old(self).mem@.memory.reachable(address, data@.len() as int);
                &&& 0 <= n <= data@.len()
                &&& r == if n == data@.len() {
                    Ok(())
                } else {
                    Err(EngineError::InvalidMemoryAccess(address_after(address, n) as u32))
                }
                &&& final(self).mem@.memory == old(self).mem@.memory.written_all(
                    address,
                    data@.take(n),
                )
            }),
    {
        self.mem.write_range(address, data)
    }

    /// Reads memory into the front of `result`, as far as it is mapped.
    pub fn mem_read(&self, address: u32, size: usize, result: &mut [u8]) -> (r: Result<
        usize,
        EngineError,
    >)
        requires
            size <= old(result)@.len(),
        ensures
            ({
                let memory = self.mem@.memory;
                let n = memory.reachable(address, size as int);
                &&& 0 <= n <= size
                &&& r == if n == size {
                    Ok(size)
                } else {
                    Err(EngineError::InvalidMemoryAccess(address_after(address, n) as u32))
                }
                &&& memory.holds(address, final(result)@.take(n))
                &&& final(result)@.len() == old(result)@.len()
                &&& final(result)@.skip(n) == old(result)@.skip(n)
            }),
    {
        self.mem.memory().read_range(address, size, result)
    }

    pub fn is_mapped(&self, address: u32, size: usize) -> (r: bool)
        ensures
            r == match pages_of(address, size as int) {
                Some((first, end)) => forall|i: int|
                    first <= i < end ==> #[trigger] self.mem@.memory.mapped[i],
                None => false,
            },
    {
        self.mem.memory().is_mapped(address, size)
    }
}

/// Whether the patches for known binaries are installed: a program can be built
/// without them, and one that has them can switch them off.
#[derive(Clone, Copy, Debug, PartialEq, Eq, Structural)]
pub struct HookSwitch {
    pub available: bool,
    pub enabled: bool,
}

impl HookSwitch {
    /// The switch of a program with or without patches. Hooks are on until they are
    /// switched off.
    pub fn new(available: bool) -> (r: Self)
        ensures
            r.available == available,
            r.enabled,
    {
        HookSwitch { available, enabled: true }
    }
}

pub fn set_hooks_enabled(hooks: &mut HookSwitch, enabled: bool)
    ensures
        final(hooks).available == old(hooks).available,
        final(hooks).enabled == enabled,
{
    hooks.enabled = enabled;
}

/// How many of the `found` patches are installed.
pub open spec fn patches_for(available: bool, enabled: bool, found: usize) -> usize {
    if available && enabled {
        found
    } else {
        0
    }
}

/// Installs patches for a binary, if the program has them and the switch allows it:
/// of the `found` ones, how many are to be installed.
pub fn install_binary_patches(hooks: &HookSwitch, found: usize) -> (r: usize)
    ensures
        r == patches_for(hooks.available, hooks.enabled, found),
{
    if hooks.available && hooks.enabled {
        found
    } else {
        0
    }
}

// ---------------------------------------------------------------------------
// What a run reports

/// A Thumb software interrupt is two bytes, its number and `df`, right before the
/// address to return to. Whatever the number, it is what a run reports, with that
/// address and the saved status, and no matter where or when the run was to end.
pub proof fn lemma_svc_number_is_reported(
    regs: Seq<u32>,
    bus: BusModel,
    number: u8,
    end: u32,
    count: u32,
    result: Result<EngineRunResult, EngineError>,
    step: RunStep,
)
    requires
        regs[29] >= 2,
        bus.memory.is_mapped(regs[29] - 2),
        bus.memory.is_mapped(regs[29] - 1),
        bus.memory.byte(regs[29] - 2) == number,
        bus.memory.byte(regs[29] - 1) == 0xdf,
        is_svc_result(regs, bus, result),
        is_next_step(regs, bus, end, count, step),
    ensures
        result matches Ok(EngineRunResult::Svc { category, lr, spsr }) && {
            &&& category == number
            &&& lr == regs[29]
            &&& spsr == regs[30]
        },
        regs[15] == 0x08 && regs[16] % 32 == 0x13 ==> step == RunStep::Done(
            Ok(EngineRunResult::Svc { category: number as u32, lr: regs[29], spsr: regs[30] }),
        ),
{
    let at = (regs[29] - 2) as u32;
    assert(address_after(at, 0) == at);
    assert(address_after(at, 1) == at + 1);
    reveal_with_fuel(crate::arm_memory::MemoryModel::reachable, 3);
}

/// Two software interrupts are reported alike only where their numbers are the same.
pub proof fn lemma_svc_numbers_stay_apart(
    regs: Seq<u32>,
    one: BusModel,
    other: BusModel,
    r1: Result<EngineRunResult, EngineError>,
    r2: Result<EngineRunResult, EngineError>,
)
    requires
        regs[29] >= 2,
        is_svc_result(regs, one, r1),
        is_svc_result(regs, other, r2),
        r1 is Ok,
        r1 == r2,
    ensures
        one.memory.byte(regs[29] - 2) == other.memory.byte(regs[29] - 2),
        one.memory.byte(regs[29] - 1) == 0xdf,
        other.memory.byte(regs[29] - 1) == 0xdf,
{
    let at = (regs[29] - 2) as u32;
    assert(address_after(at, 1) == at + 1);
}

/// No other instruction passes for a software interrupt, and memory that is not mapped
/// holds none.
pub proof fn lemma_only_svcs_are_reported(
    regs: Seq<u32>,
    bus: BusModel,
    result: Result<EngineRunResult, EngineError>,
)
    requires
        is_svc_result(regs, bus, result),
    ensures
        result is Ok ==> {
            &&& regs[29] >= 2
            &&& bus.memory.is_mapped(regs[29] - 2)
            &&& bus.memory.is_mapped(regs[29] - 1)
            &&& bus.memory.byte(regs[29] - 1) == 0xdf
            &&& result->Ok_0 is Svc
        },
        regs[29] < 2 ==> result == Err::<EngineRunResult, EngineError>(
            EngineError::InvalidMemoryAccess(regs[29]),
        ),
        regs[29] >= 2 && !bus.memory.is_mapped(regs[29] - 2) ==> result == Err::<
            EngineRunResult,
            EngineError,
        >(EngineError::InvalidMemoryAccess((regs[29] - 2) as u32)),
        regs[29] >= 2 && bus.memory.is_mapped(regs[29] - 2) && !bus.memory.is_mapped(regs[29] - 1)
            ==> result == Err::<EngineRunResult, EngineError>(
            EngineError::InvalidMemoryAccess((regs[29] - 1) as u32),
        ),
{
    let at = (regs[29] - 2) as u32;
    if regs[29] >= 2 {
        assert(address_after(at, 0) == at);
        assert(address_after(at, 1) == at + 1);
        reveal_with_fuel(crate::arm_memory::MemoryModel::reachable, 3);
    }
}

/// A run executes an instruction just where it stands in code, has not come to its end
/// and may still go on. It ends at its end, and is exhausted only elsewhere.
pub proof fn lemma_run_goes_on(
    regs: Seq<u32>,
    bus: BusModel,
    end: u32,
    count: u32,
    step: RunStep,
)
    requires
        is_next_step(regs, bus, end, count, step),
        regs[15] != 0x08 || regs[16] % 32 != 0x13,
    ensures
        step is Step <==> regs[15] >= 0x1000 && regs[15] != end && count > 0,
        step == RunStep::Done(Ok(EngineRunResult::End)) <==> regs[15] >= 0x1000 && regs[15] == end,
        step == RunStep::Done(Ok(EngineRunResult::CountExhausted)) <==> regs[15] >= 0x1000
            && regs[15] != end && count == 0,
        step == RunStep::Done(Err(EngineError::InvalidMemoryAccess(regs[15]))) <==> regs[15]
            < 0x1000,
{
}

/// A register that was written reads as what was written, and every other one as
/// before; only the program counter and the status have bits of their own.
pub proof fn lemma_register_reads_back(
    after: Seq<u32>,
    before: Seq<u32>,
    reg: ArmRegister,
    value: u32,
    other: ArmRegister,
)
    requires
        is_reg_written(after, before, reg, value),
        reg is PC ==> value % 2 == 0,
        reg is Cpsr ==> names_mode(value),
    ensures
        after[other.number() as int] == if other == reg {
            value
        } else {
            before[other.number() as int]
        },
{
}

/// An odd address in the program counter enters Thumb code: the program goes on at the
/// even address, and of the status the Thumb bit alone is set.
pub proof fn lemma_odd_address_enters_thumb(
    after: Seq<u32>,
    before: Seq<u32>,
    address: u32,
    other: ArmRegister,
)
    requires
        address % 2 == 1,
        is_reg_written(after, before, ArmRegister::PC, address),
    ensures
        after[15] + 1 == address,
        after[16] & 0x20u32 == 0x20u32,
        after[16] & 0xffff_ffdfu32 == before[16] & 0xffff_ffdfu32,
        other !is PC && other !is Cpsr ==> after[other.number() as int]
            == before[other.number() as int],
{
    let status = before[16];
    assert((status | 0x20u32) & 0x20u32 == 0x20u32) by (bit_vector);
    assert((status | 0x20u32) & 0xffff_ffdfu32 == status & 0xffff_ffdfu32) by (bit_vector);
}

/// The registers have the numbers that the processor's instructions give them: no two
/// have the same, those for results and arguments come first, and the special ones
/// stand at the end.
pub proof fn lemma_register_numbers(one: ArmRegister, other: ArmRegister)
    ensures
        one.number() <= 16,
        one.number() == other.number() <==> one == other,
        ArmRegister::R0.number() == 0,
        ArmRegister::R1.number() == ArmRegister::R0.number() + 1,
        ArmRegister::R2.number() == ArmRegister::R1.number() + 1,
        ArmRegister::R3.number() == ArmRegister::R2.number() + 1,
        ArmRegister::R4.number() == ArmRegister::R3.number() + 1,
        ArmRegister::R5.number() == ArmRegister::R4.number() + 1,
        ArmRegister::R6.number() == ArmRegister::R5.number() + 1,
        ArmRegister::R7.number() == ArmRegister::R6.number() + 1,
        ArmRegister::R8.number() == ArmRegister::R7.number() + 1,
        ArmRegister::SB.number() == ArmRegister::R8.number() + 1,
        ArmRegister::SL.number() == ArmRegister::SB.number() + 1,
        ArmRegister::FP.number() == ArmRegister::SL.number() + 1,
        ArmRegister::IP.number() == ArmRegister::FP.number() + 1,
        ArmRegister::SP.number() == SP,
        ArmRegister::LR.number() == LR,
        ArmRegister::PC.number() == PC,
        ArmRegister::Cpsr.number() == CPSR,
        SP == 13 && LR == 14 && PC == 15 && CPSR == 16,
{
}

/// A run goes on after an instruction that was one and met no error; else it ends with
/// the error, and an unknown instruction comes before a failed access. No error is left.
pub proof fn lemma_step_is_judged(
    before: BusModel,
    after: BusModel,
    decoded: bool,
    r: Result<(), EngineError>,
)
    requires
        is_judged(before, after, decoded, r),
    ensures
        r is Ok <==> decoded && before.error is None,
        decoded ==> (before.error matches Some(address) ==> r == Err::<(), EngineError>(
            EngineError::InvalidMemoryAccess(address),
        )),
        !decoded ==> (r matches Err(EngineError::FatalError(_))),
        after.error is None,
        after.memory == before.memory,
{
}

/// Patches are installed all or not at all: all of them where the program has them and
/// the switch is on.
pub proof fn lemma_patches_need_both_switches(found: usize)
    ensures
        patches_for(true, true, found) == found,
        patches_for(true, false, found) == 0,
        patches_for(false, true, found) == 0,
        patches_for(false, false, found) == 0,
{
}

/// The two modes share all registers but the stack pointer, the link register and the
/// saved status, which lie apart.
pub proof fn lemma_banked_registers_lie_apart(reg: int, other: int)
    requires
        0 <= reg <= 17,
        0 <= other <= 17,
    ensures
        reg != 13 && reg != 14 && reg != 17 ==> slot(Bank::User, reg) == slot(Bank::Supervisor, reg),
        reg == 13 || reg == 14 || reg == 17 ==> slot(Bank::User, reg) != slot(
            Bank::Supervisor,
            reg,
        ),
        reg != other ==> slot(Bank::Supervisor, reg) != slot(Bank::Supervisor, other),
        0 <= slot(Bank::Supervisor, reg) < 37,
        0 <= slot(Bank::User, reg) < 37,
{
}

/// A status is kept as it is written, but for a mode that there is not.
pub proof fn lemma_status_keeps_a_mode(status: u32, value: u32)
    requires
        names_mode(status),
    ensures
        names_mode(value) ==> new_status(status, value) == value,
        names_mode(new_status(status, value)),
        new_status(status, value) / 32 == value / 32,
{
}

} // verus!
