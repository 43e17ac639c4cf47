use wie::arm_engine::{
    install_binary_patches, set_hooks_enabled, Arm32CpuEngine, ArmRegister, EngineRunResult, HookSwitch,
    RunStep,
};
use wie::arm_memory::EmulatedMemory;

const PAGE_SIZE: usize = 0x10000;

fn allocated(memory: &EmulatedMemory) -> usize {
    (0..0x10000).filter(|page| memory.is_allocated(*page)).count()
}

#[test]
fn test_memory_basic() {
    let mut memory = EmulatedMemory::new();

    memory.map(0x10000, 0x1000);
    memory.map(0x11000, 0x1000);
    memory.map(0x20000, 0x10000);

    let mut zeroes = [0xff; 16];
    memory.read_range(0x20000, zeroes.len(), &mut zeroes).unwrap();
    assert_eq!(zeroes, [0; 16]);
    assert!(!memory.is_allocated(0x20000 / PAGE_SIZE));

    memory.write_range(0x10000, &[123; 0x1000]).unwrap();

    let mut buf = [0; 0x1000];
    memory.read_range(0x10000, 0x1000, &mut buf).unwrap();
    assert_eq!(buf, [123; 0x1000]);

    memory.write_range(0x10900, &[100; 0x1000]).unwrap();

    memory.read_range(0x10900, 0x1000, &mut buf).unwrap();
    assert_eq!(buf, [100; 0x1000]);

    let mut arm32cpu_memory = memory.as_arm32cpu_memory();

    let r8 = arm32cpu_memory.r8(0x10000);
    assert_eq!(r8, 123);

    let r16 = arm32cpu_memory.r16(0x10000);
    assert_eq!(r16, 123 | (123 << 8));

    let r32 = arm32cpu_memory.r32(0x10000);
    assert_eq!(r32, 123 | (123 << 8) | (123 << 16) | (123 << 24));

    arm32cpu_memory.w8(0x10000, 12);
    let r8 = arm32cpu_memory.r8(0x10000);
    assert_eq!(r8, 12);

    arm32cpu_memory.w16(0x10000, 0x1234);
    let r16 = arm32cpu_memory.r16(0x10000);
    assert_eq!(r16, 0x1234);

    arm32cpu_memory.w32(0x10000, 0x12345678);
    let r32 = arm32cpu_memory.r32(0x10000);
    assert_eq!(r32, 0x12345678);
}

#[test]
fn test_instruction_memory_access_across_page_boundary() {
    let mut memory = EmulatedMemory::new();
    memory.map(0x10000, 0x20000);

    let mut arm32cpu_memory = memory.as_arm32cpu_memory();
    arm32cpu_memory.w32(0x1fffe, 0x12345678);

    assert_eq!(arm32cpu_memory.r16(0x1ffff), 0x3456);
    assert_eq!(arm32cpu_memory.r32(0x1fffe), 0x12345678);
    assert_eq!(arm32cpu_memory.memory_error(), None);
}

#[test]
fn test_large_mapping_allocates_pages_on_first_write() {
    let mut memory = EmulatedMemory::new();
    memory.map(0x40000000, 0x10000000);

    assert_eq!(allocated(&memory), 0);
    memory.write_range(0x48000000, &[1, 2, 3, 4]).unwrap();
    assert_eq!(allocated(&memory), 1);
}

#[test]
fn test_memory_unmapped_read() {
    let mut memory = EmulatedMemory::new();

    memory.map(0x10000, 0x10000);

    let mut buf = [0; 0x1000];
    assert!(memory.read_range(0x1f500, 0x1000, &mut buf).is_err());
}

#[test]
fn test_memory_unmapped_write() {
    let mut memory = EmulatedMemory::new();

    memory.map(0x10000, 0x10000);

    assert!(memory.write_range(0x1f500, &[12; 0x1000]).is_err());
}

#[test]
fn mapped_ranges_are_known() {
    let mut memory = EmulatedMemory::new();
    memory.map(0x10000, 0x20000);
    assert!(memory.is_mapped(0x10000, 0x20000));
    assert!(!memory.is_mapped(0x10000, 0x20001));
    assert!(!memory.is_mapped(0xffff, 1));
    assert_eq!(EmulatedMemory::page_range(0xffff_ffff, 2), None);
}

#[test]
fn faults_are_noted_until_cleared() {
    let mut memory = EmulatedMemory::new();
    memory.map(0x10000, 0x10000);
    let mut bus = memory.as_arm32cpu_memory();
    bus.w8(0x50000, 1);
    assert_eq!(bus.memory_error(), Some(0x50000));
    bus.clear_error();
    assert_eq!(bus.memory_error(), None);
    assert_eq!(bus.r32(0x60000), 0);
    assert_eq!(bus.memory_error(), Some(0x60000));
}

#[test]
fn registers_keep_what_is_written() {
    let mut engine = Arm32CpuEngine::new();
    engine.reg_write(ArmRegister::R3, 0xdead_beef);
    engine.reg_write(ArmRegister::SP, 0x1000);
    assert_eq!(engine.reg_read(ArmRegister::R3), 0xdead_beef);
    assert_eq!(engine.reg_read(ArmRegister::SP), 0x1000);
    assert_eq!(ArmRegister::R3.into_armv4t(), 3);
}

#[test]
fn a_run_ends_where_it_is_told_to() {
    let mut engine = Arm32CpuEngine::new();
    engine.mem_map(0x10000, 0x10000);
    engine.mem_write(0x10000, &[1, 2, 3, 4]).unwrap();
    let mut buf = [0; 4];
    engine.mem_read(0x10000, 4, &mut buf).unwrap();
    assert_eq!(buf, [1, 2, 3, 4]);
    assert!(engine.is_mapped(0x10000, 4));

    engine.reg_write(ArmRegister::PC, 0x10004);
    assert_eq!(engine.next_step(0x10004, 5), RunStep::Done(Ok(EngineRunResult::End)));
    assert_eq!(engine.next_step(0x20000, 5), RunStep::Step);
    assert_eq!(engine.next_step(0x20000, 0), RunStep::Done(Ok(EngineRunResult::CountExhausted)));
    assert!(engine.after_step(true).is_ok());
    assert!(engine.after_step(false).is_err());
}

#[test]
fn patches_follow_the_switch() {
    let without = HookSwitch::new(false);
    assert_eq!(install_binary_patches(&without, 3), 0);
    let mut hooks = HookSwitch::new(true);
    assert_eq!(install_binary_patches(&hooks, 3), 3);
    set_hooks_enabled(&mut hooks, false);
    assert_eq!(install_binary_patches(&hooks, 3), 0);
}
