use chip8::bus::Bus;
use chip8::cpu::Cpu;
use chip8::display::Display;
use chip8::keyboard::Keyboard;
use chip8::machine::Chip8;
use chip8::ram::Ram;

fn load(program: &[u8]) -> (Cpu, Bus) {
    let mut bus = Bus::new();
    let mut addr: u16 = 0x200;
    for &byte in program {
        bus.ram_write_byte(addr, byte);
        addr += 1;
    }
    (Cpu::new(), bus)
}

#[test]
fn font_table_is_seeded() {
    let ram = Ram::new();
    // Glyph 0: F0 90 90 90 F0 at address 0.
    assert_eq!(ram.read_byte(0), 0xF0);
    assert_eq!(ram.read_byte(1), 0x90);
    assert_eq!(ram.read_byte(2), 0x90);
    assert_eq!(ram.read_byte(3), 0x90);
    assert_eq!(ram.read_byte(4), 0xF0);
    // Glyph 5 starts at 5 * 5.
    assert_eq!(ram.read_byte(25), 0xF0);
    assert_eq!(ram.read_byte(26), 0x80);
    // Glyph F: F0 80 F0 80 80 at address 75.
    assert_eq!(ram.read_byte(75), 0xF0);
    assert_eq!(ram.read_byte(76), 0x80);
    assert_eq!(ram.read_byte(77), 0xF0);
    assert_eq!(ram.read_byte(78), 0x80);
    assert_eq!(ram.read_byte(79), 0x80);
    // Above the table everything starts zeroed.
    assert_eq!(ram.read_byte(80), 0);
    assert_eq!(ram.read_byte(4095), 0);
}

#[test]
fn ram_write_then_read() {
    let mut ram = Ram::new();
    ram.write_byte(0x200, 0xAB);
    assert_eq!(ram.read_byte(0x200), 0xAB);
}

#[test]
fn keyboard_tracks_one_key() {
    let mut kb = Keyboard::new();
    assert_eq!(kb.get_key_pressed(), None);
    kb.set_key_pressed(Some(3));
    assert!(kb.is_key_pressed(3));
    assert!(!kb.is_key_pressed(4));
    assert_eq!(kb.get_key_pressed(), Some(3));
    kb.set_key_pressed(None);
    assert!(!kb.is_key_pressed(3));
}

#[test]
fn display_draw_reports_collision_on_redraw() {
    let mut display = Display::new();
    assert!(!display.draw_byte(0xF0, 0, 0));
    assert!(display.draw_byte(0xF0, 0, 0));
    let buffer = display.read_buffer();
    for j in 0..buffer.len() {
        assert!(!buffer[j]);
    }
}

#[test]
fn display_wraps_both_axes() {
    let mut display = Display::new();
    // Bits land on columns 63 and 0 of row 1 (y = 33 wraps to 1).
    assert!(!display.draw_byte(0xC0, 63, 33));
    let buffer = display.read_buffer();
    assert!(buffer[Display::get_index_from_coords(63, 1)]);
    assert!(buffer[Display::get_index_from_coords(0, 1)]);
    assert!(!buffer[Display::get_index_from_coords(1, 1)]);
}

#[test]
fn display_clear_turns_everything_off() {
    let mut display = Display::new();
    display.draw_byte(0xFF, 10, 10);
    display.clear();
    let buffer = display.read_buffer();
    for j in 0..buffer.len() {
        assert!(!buffer[j]);
    }
}

#[test]
fn clear_screen_after_draws() {
    // Draw the 0 glyph, then 00E0; the buffer must read all off.
    let mut chip8 = Chip8::new();
    chip8.load_rom(&vec![0xA0, 0x00, 0xD0, 0x05, 0x00, 0xE0]);
    chip8.run_instruction().unwrap();
    chip8.run_instruction().unwrap();
    assert!(chip8.get_display_buffer().iter().any(|&p| p));
    chip8.run_instruction().unwrap();
    let buffer = chip8.get_display_buffer();
    for j in 0..buffer.len() {
        assert!(!buffer[j]);
    }
}

#[test]
fn glyph_draw_twice_collides_and_clears() {
    // Draw the 0 glyph (F0 90 90 90 F0) at (0,0), then draw it again.
    let mut chip8 = Chip8::new();
    chip8.load_rom(&vec![0xA0, 0x00, 0xD0, 0x05, 0xD0, 0x05]);
    chip8.run_instruction().unwrap();
    chip8.run_instruction().unwrap();
    assert_eq!(chip8.read_reg_vx(0xF), 0);
    {
        let buffer = chip8.get_display_buffer();
        let rows: [u8; 5] = [0xF0, 0x90, 0x90, 0x90, 0xF0];
        for y in 0..5 {
            for x in 0..8 {
                let expected = (rows[y] >> (7 - x)) & 1 == 1;
                assert_eq!(buffer[y * 64 + x], expected);
            }
        }
    }
    chip8.run_instruction().unwrap();
    assert_eq!(chip8.read_reg_vx(0xF), 1);
    let buffer = chip8.get_display_buffer();
    for j in 0..buffer.len() {
        assert!(!buffer[j]);
    }
}

#[test]
fn sprite_draw_wraps_both_axes() {
    // Glyph 0 drawn at (60, 30): columns wrap past 63, rows wrap past 31.
    let (mut cpu, mut bus) = load(&[0x60, 0x3C, 0x61, 0x1E, 0xA0, 0x00, 0xD0, 0x15]);
    for _ in 0..4 {
        cpu.run_instruction(&mut bus).unwrap();
    }
    assert_eq!(cpu.read_reg_vx(0xF), 0);
    let buffer = bus.get_display_buffer();
    // Row 0xF0 at grid row 30: columns 60..=63 lit, wrapped column 0 dark.
    assert!(buffer[30 * 64 + 60]);
    assert!(buffer[30 * 64 + 63]);
    assert!(!buffer[30 * 64 + 0]);
    // Row 0x90 lands on wrapped grid row 0: columns 60 and 63 lit only.
    assert!(buffer[0 * 64 + 60]);
    assert!(!buffer[0 * 64 + 61]);
    assert!(!buffer[0 * 64 + 62]);
    assert!(buffer[0 * 64 + 63]);
}

#[test]
fn key_skip_if_pressed() {
    let (mut cpu, mut bus) = load(&[0x60, 0x04, 0xE0, 0x9E]);
    bus.set_key_pressed(Some(4));
    cpu.run_instruction(&mut bus).unwrap();
    cpu.run_instruction(&mut bus).unwrap();
    assert_eq!(cpu.get_pc(), 0x206);
}

#[test]
fn key_skip_if_pressed_not_taken() {
    let (mut cpu, mut bus) = load(&[0x60, 0x04, 0xE0, 0x9E]);
    cpu.run_instruction(&mut bus).unwrap();
    cpu.run_instruction(&mut bus).unwrap();
    assert_eq!(cpu.get_pc(), 0x204);
}

#[test]
fn key_skip_if_not_pressed() {
    let (mut cpu, mut bus) = load(&[0x60, 0x04, 0xE0, 0xA1]);
    bus.set_key_pressed(Some(5));
    cpu.run_instruction(&mut bus).unwrap();
    cpu.run_instruction(&mut bus).unwrap();
    assert_eq!(cpu.get_pc(), 0x206);
}

#[test]
fn wait_for_key_polls_without_advancing() {
    let (mut cpu, mut bus) = load(&[0xF0, 0x0A]);
    cpu.run_instruction(&mut bus).unwrap();
    assert_eq!(cpu.get_pc(), 0x200);
    cpu.run_instruction(&mut bus).unwrap();
    assert_eq!(cpu.get_pc(), 0x200);
    bus.set_key_pressed(Some(7));
    cpu.run_instruction(&mut bus).unwrap();
    assert_eq!(cpu.get_pc(), 0x202);
    assert_eq!(cpu.read_reg_vx(0), 7);
}

#[test]
fn delay_timer_set_and_read() {
    let (mut cpu, mut bus) = load(&[0x60, 0x09, 0xF0, 0x15, 0xF1, 0x07]);
    for _ in 0..3 {
        cpu.run_instruction(&mut bus).unwrap();
    }
    assert_eq!(bus.get_delay_timer(), 9);
    assert_eq!(cpu.read_reg_vx(1), 9);
}

#[test]
fn sound_timer_write_is_a_no_op() {
    let (mut cpu, mut bus) = load(&[0x60, 0x09, 0xF0, 0x18]);
    cpu.run_instruction(&mut bus).unwrap();
    cpu.run_instruction(&mut bus).unwrap();
    assert_eq!(cpu.get_pc(), 0x204);
}

#[test]
fn machine_delay_timer_host_decrement() {
    let mut chip8 = Chip8::new();
    chip8.set_delay_timer(2);
    assert_eq!(chip8.get_delay_timer(), 2);
    let t = chip8.get_delay_timer();
    chip8.set_delay_timer(t - 1);
    assert_eq!(chip8.get_delay_timer(), 1);
}

#[test]
fn load_rom_places_bytes_at_program_start() {
    let mut chip8 = Chip8::new();
    chip8.load_rom(&vec![0x6E, 0x2A]);
    chip8.run_instruction().unwrap();
    assert_eq!(chip8.read_reg_vx(0xE), 0x2A);
    assert_eq!(chip8.get_pc(), 0x202);
}
