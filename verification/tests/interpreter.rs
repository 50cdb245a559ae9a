use chip8::bus::Bus;
use chip8::cpu::{Cpu, Fault};
use chip8::machine::Chip8;

fn load(program: &[u8]) -> (Cpu, Bus) {
    let mut bus = Bus::new();
    let mut addr: u16 = 0x200;
    for &byte in program {
        bus.ram_write_byte(addr, byte);
        addr += 1;
    }
    (Cpu::new(), bus)
}

#[test]
fn two_step_scenario_sets_then_adds() {
    let mut chip8 = Chip8::new();
    chip8.load_rom(&vec![0x60, 0x05, 0x70, 0x03, 0x00, 0x00]);
    chip8.run_instruction().unwrap();
    chip8.run_instruction().unwrap();
    assert_eq!(chip8.read_reg_vx(0), 0x08);
    assert_eq!(chip8.get_pc(), 0x204);
}

#[test]
fn set_register_exact_value() {
    let (mut cpu, mut bus) = load(&[0x6A, 0xBC]);
    cpu.run_instruction(&mut bus).unwrap();
    assert_eq!(cpu.read_reg_vx(0xA), 0xBC);
    assert_eq!(cpu.get_pc(), 0x202);
}

#[test]
fn add_immediate_wraps() {
    let (mut cpu, mut bus) = load(&[0x60, 0xFF, 0x70, 0x03]);
    cpu.run_instruction(&mut bus).unwrap();
    cpu.run_instruction(&mut bus).unwrap();
    assert_eq!(cpu.read_reg_vx(0), 0x02);
}

#[test]
fn skip_if_equal_taken() {
    let (mut cpu, mut bus) = load(&[0x60, 0x05, 0x30, 0x05]);
    cpu.run_instruction(&mut bus).unwrap();
    cpu.run_instruction(&mut bus).unwrap();
    assert_eq!(cpu.get_pc(), 0x206);
}

#[test]
fn skip_if_equal_not_taken() {
    let (mut cpu, mut bus) = load(&[0x60, 0x05, 0x30, 0x06]);
    cpu.run_instruction(&mut bus).unwrap();
    cpu.run_instruction(&mut bus).unwrap();
    assert_eq!(cpu.get_pc(), 0x204);
}

#[test]
fn skip_if_not_equal() {
    let (mut cpu, mut bus) = load(&[0x40, 0x01]);
    cpu.run_instruction(&mut bus).unwrap();
    assert_eq!(cpu.get_pc(), 0x204);
}

#[test]
fn skip_register_compares() {
    // V0 == V1 == 0, so 5xy0 skips and 9xy0 does not.
    let (mut cpu, mut bus) = load(&[0x50, 0x10]);
    cpu.run_instruction(&mut bus).unwrap();
    assert_eq!(cpu.get_pc(), 0x204);
    let (mut cpu2, mut bus2) = load(&[0x90, 0x10]);
    cpu2.run_instruction(&mut bus2).unwrap();
    assert_eq!(cpu2.get_pc(), 0x202);
}

#[test]
fn jump_sets_pc_absolute() {
    let (mut cpu, mut bus) = load(&[0x12, 0x34]);
    cpu.run_instruction(&mut bus).unwrap();
    assert_eq!(cpu.get_pc(), 0x234);
}

#[test]
fn call_then_return_resumes_after_call() {
    // 0x200: call 0x206; 0x206: return.
    let (mut cpu, mut bus) = load(&[0x22, 0x06, 0x00, 0x00, 0x00, 0x00, 0x00, 0xEE]);
    cpu.run_instruction(&mut bus).unwrap();
    assert_eq!(cpu.get_pc(), 0x206);
    cpu.run_instruction(&mut bus).unwrap();
    assert_eq!(cpu.get_pc(), 0x202);
}

#[test]
fn register_copy_and_bitwise() {
    let (mut cpu, mut bus) = load(&[
        0x60, 0x0C, // V0 = 0b1100
        0x61, 0x0A, // V1 = 0b1010
        0x82, 0x00, // V2 = V0
        0x83, 0x10, // V3 = V1
        0x82, 0x32, // V2 &= V3
        0x84, 0x00, // V4 = V0
        0x84, 0x33, // V4 ^= V3
    ]);
    for _ in 0..7 {
        cpu.run_instruction(&mut bus).unwrap();
    }
    assert_eq!(cpu.read_reg_vx(2), 0b1000);
    assert_eq!(cpu.read_reg_vx(4), 0b0110);
}

#[test]
fn add_with_carry_sets_vf() {
    let (mut cpu, mut bus) = load(&[0x60, 0xC8, 0x61, 0x64, 0x80, 0x14]);
    for _ in 0..3 {
        cpu.run_instruction(&mut bus).unwrap();
    }
    assert_eq!(cpu.read_reg_vx(0), 44); // 200 + 100 - 256
    assert_eq!(cpu.read_reg_vx(0xF), 1);
}

#[test]
fn add_without_carry_leaves_vf_alone() {
    // VF is pre-set to 1; the no-carry add must not touch it.
    let (mut cpu, mut bus) = load(&[0x6F, 0x01, 0x60, 0x05, 0x61, 0x03, 0x80, 0x14]);
    for _ in 0..4 {
        cpu.run_instruction(&mut bus).unwrap();
    }
    assert_eq!(cpu.read_reg_vx(0), 8);
    assert_eq!(cpu.read_reg_vx(0xF), 1);
}

#[test]
fn subtract_with_borrow_sets_vf() {
    let (mut cpu, mut bus) = load(&[0x60, 0x05, 0x61, 0x0A, 0x80, 0x15]);
    for _ in 0..3 {
        cpu.run_instruction(&mut bus).unwrap();
    }
    assert_eq!(cpu.read_reg_vx(0), 251); // 5 - 10 wrapped
    assert_eq!(cpu.read_reg_vx(0xF), 1);
}

#[test]
fn subtract_without_borrow_leaves_vf_alone() {
    let (mut cpu, mut bus) = load(&[0x60, 0x0A, 0x61, 0x05, 0x80, 0x15]);
    for _ in 0..3 {
        cpu.run_instruction(&mut bus).unwrap();
    }
    assert_eq!(cpu.read_reg_vx(0), 5);
    assert_eq!(cpu.read_reg_vx(0xF), 0);
}

#[test]
fn shift_right_through_vy() {
    let (mut cpu, mut bus) = load(&[0x61, 0x05, 0x80, 0x16]);
    cpu.run_instruction(&mut bus).unwrap();
    cpu.run_instruction(&mut bus).unwrap();
    assert_eq!(cpu.read_reg_vx(0xF), 1);
    assert_eq!(cpu.read_reg_vx(1), 2);
    assert_eq!(cpu.read_reg_vx(0), 2);
}

#[test]
fn index_register_and_font_address() {
    let (mut cpu, mut bus) = load(&[0xA1, 0x23, 0x60, 0x0A, 0xF0, 0x29]);
    cpu.run_instruction(&mut bus).unwrap();
    assert_eq!(cpu.get_i(), 0x123);
    cpu.run_instruction(&mut bus).unwrap();
    cpu.run_instruction(&mut bus).unwrap();
    assert_eq!(cpu.get_i(), 50); // glyph A sits at 10 * 5
}

#[test]
fn add_register_to_index() {
    let (mut cpu, mut bus) = load(&[0xA1, 0x00, 0x60, 0x22, 0xF0, 0x1E]);
    for _ in 0..3 {
        cpu.run_instruction(&mut bus).unwrap();
    }
    assert_eq!(cpu.get_i(), 0x122);
}

#[test]
fn bcd_store() {
    let (mut cpu, mut bus) = load(&[0x60, 0xEA, 0xA3, 0x00, 0xF0, 0x33]);
    for _ in 0..3 {
        cpu.run_instruction(&mut bus).unwrap();
    }
    assert_eq!(bus.ram_read_byte(0x300), 2); // 234 = 2,3,4
    assert_eq!(bus.ram_read_byte(0x301), 3);
    assert_eq!(bus.ram_read_byte(0x302), 4);
    assert_eq!(cpu.get_pc(), 0x206);
}

#[test]
fn dump_and_load_registers_round_trip() {
    let (mut cpu, mut bus) = load(&[
        0x60, 0x01, // V0 = 1
        0x61, 0x02, // V1 = 2
        0x62, 0x03, // V2 = 3
        0xA3, 0x00, // I = 0x300
        0xF2, 0x55, // dump V0..V2
        0xA3, 0x00, // I back to 0x300
        0x62, 0x00, // clobber V2
        0xF2, 0x65, // reload V0..V2
    ]);
    for _ in 0..5 {
        cpu.run_instruction(&mut bus).unwrap();
    }
    // The dump wrote the registers to memory and advanced I past them.
    assert_eq!(bus.ram_read_byte(0x300), 1);
    assert_eq!(bus.ram_read_byte(0x301), 2);
    assert_eq!(bus.ram_read_byte(0x302), 3);
    assert_eq!(cpu.get_i(), 0x303);
    for _ in 0..3 {
        cpu.run_instruction(&mut bus).unwrap();
    }
    assert_eq!(cpu.read_reg_vx(0), 1);
    assert_eq!(cpu.read_reg_vx(1), 2);
    assert_eq!(cpu.read_reg_vx(2), 3);
}

#[test]
fn random_masked_with_zero_is_zero() {
    let (mut cpu, mut bus) = load(&[0x60, 0x55, 0xC0, 0x00]);
    cpu.run_instruction(&mut bus).unwrap();
    cpu.run_instruction(&mut bus).unwrap();
    assert_eq!(cpu.read_reg_vx(0), 0);
    assert_eq!(cpu.get_pc(), 0x204);
}

#[test]
fn unknown_opcode_faults_and_leaves_state() {
    let (mut cpu, mut bus) = load(&[0x00, 0x00]);
    let fault = cpu.run_instruction(&mut bus).unwrap_err();
    assert_eq!(fault, Fault::UnknownInstruction { address: 0x200, instruction: 0x0000 });
    assert_eq!(cpu.get_pc(), 0x200);
}

#[test]
fn unknown_alu_opcode_faults() {
    let (mut cpu, mut bus) = load(&[0x80, 0x17]);
    let fault = cpu.run_instruction(&mut bus).unwrap_err();
    assert_eq!(fault, Fault::UnknownInstruction { address: 0x200, instruction: 0x8017 });
}

#[test]
fn return_with_empty_stack_faults() {
    let (mut cpu, mut bus) = load(&[0x00, 0xEE]);
    let fault = cpu.run_instruction(&mut bus).unwrap_err();
    assert_eq!(fault, Fault::StackUnderflow { address: 0x200, instruction: 0x00EE });
}

#[test]
fn fetch_past_memory_faults() {
    let (mut cpu, mut bus) = load(&[0x1F, 0xFF]);
    cpu.run_instruction(&mut bus).unwrap();
    let fault = cpu.run_instruction(&mut bus).unwrap_err();
    assert_eq!(fault, Fault::FetchOutOfRange { address: 0xFFF });
}

#[test]
fn draw_past_memory_faults() {
    let (mut cpu, mut bus) = load(&[0xAF, 0xFF, 0xD0, 0x02]);
    cpu.run_instruction(&mut bus).unwrap();
    let fault = cpu.run_instruction(&mut bus).unwrap_err();
    assert_eq!(fault, Fault::MemoryOutOfRange { address: 0x202, instruction: 0xD002 });
}

#[test]
fn dump_past_memory_faults() {
    let (mut cpu, mut bus) = load(&[0xAF, 0xFF, 0xF1, 0x55]);
    cpu.run_instruction(&mut bus).unwrap();
    let fault = cpu.run_instruction(&mut bus).unwrap_err();
    assert_eq!(fault, Fault::MemoryOutOfRange { address: 0x202, instruction: 0xF155 });
}
