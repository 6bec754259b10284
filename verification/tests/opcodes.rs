//! Per-opcode checks: arithmetic flags, control flow, timers, input
//! and the fault cases.

use chip_8_core::{Chip8, Fault};
use std::collections::HashSet;

fn no_keys() -> HashSet<u8> {
    HashSet::new()
}

#[test]
fn power_on_state() {
    let chip_8 = Chip8::new();
    assert_eq!(chip_8.pc, 0x200);
    assert_eq!(chip_8.i, 0);
    assert_eq!(chip_8.dt, 0);
    assert_eq!(chip_8.st, 0);
    assert_eq!(chip_8.stack.len(), 0);
    assert!(chip_8.display.is_empty());
    assert_eq!(chip_8.v, vec![0u8; 16]);
    // The font table starts at 0x50 with the digit 0 sprite and ends
    // at 0x9F with the last byte of the digit F sprite.
    assert_eq!(chip_8.memory[0x4F], 0x00);
    assert_eq!(chip_8.memory[0x50], 0xF0);
    assert_eq!(chip_8.memory[0x55], 0x20);
    assert_eq!(chip_8.memory[0x9F], 0x80);
    assert_eq!(chip_8.memory[0xA0], 0x00);
    assert_eq!(chip_8.memory[0x200], 0x00);
}

#[test]
fn store_then_add_twice_wraps() {
    // 6XNN then 7XNN twice leaves (NN + NN + NN) mod 256 in vX.
    let mut chip_8 = Chip8::new();
    chip_8.memory[0x200] = 0x64;
    chip_8.memory[0x201] = 0x90;
    chip_8.memory[0x202] = 0x74;
    chip_8.memory[0x203] = 0x90;
    chip_8.memory[0x204] = 0x74;
    chip_8.memory[0x205] = 0x90;

    chip_8.run_cycle(&no_keys()).unwrap();
    chip_8.run_cycle(&no_keys()).unwrap();
    chip_8.run_cycle(&no_keys()).unwrap();

    assert_eq!(chip_8.v[4], ((0x90u32 + 0x90 + 0x90) % 256) as u8);
    assert_eq!(chip_8.v[4], 0xB0);
}

#[test]
fn add_registers_sets_carry() {
    // 8XY4 with vX + vY > 255 wraps and sets vF to 1.
    let mut chip_8 = Chip8::new();
    chip_8.v[1] = 200;
    chip_8.v[2] = 100;
    chip_8.memory[0x200] = 0x81;
    chip_8.memory[0x201] = 0x24;

    chip_8.run_cycle(&no_keys()).unwrap();

    assert_eq!(chip_8.v[1], 44); // (200 + 100) mod 256
    assert_eq!(chip_8.v[0xF], 1);
}

#[test]
fn add_registers_without_carry() {
    let mut chip_8 = Chip8::new();
    chip_8.v[1] = 20;
    chip_8.v[2] = 30;
    chip_8.v[0xF] = 7;
    chip_8.memory[0x200] = 0x81;
    chip_8.memory[0x201] = 0x24;

    chip_8.run_cycle(&no_keys()).unwrap();

    assert_eq!(chip_8.v[1], 50);
    assert_eq!(chip_8.v[0xF], 0);
}

#[test]
fn sub_registers_borrow_flags() {
    // 8XY5: vF is 0 when a borrow occurs, 1 when it does not.
    let mut chip_8 = Chip8::new();
    chip_8.v[1] = 10;
    chip_8.v[2] = 20;
    chip_8.memory[0x200] = 0x81;
    chip_8.memory[0x201] = 0x25;
    chip_8.run_cycle(&no_keys()).unwrap();
    assert_eq!(chip_8.v[1], 246); // 10 - 20 wrapped
    assert_eq!(chip_8.v[0xF], 0);

    let mut chip_8 = Chip8::new();
    chip_8.v[1] = 20;
    chip_8.v[2] = 10;
    chip_8.memory[0x200] = 0x81;
    chip_8.memory[0x201] = 0x25;
    chip_8.run_cycle(&no_keys()).unwrap();
    assert_eq!(chip_8.v[1], 10);
    assert_eq!(chip_8.v[0xF], 1);
}

#[test]
fn sub_registers_reversed() {
    // 8XY7 computes vY - vX.
    let mut chip_8 = Chip8::new();
    chip_8.v[1] = 10;
    chip_8.v[2] = 20;
    chip_8.memory[0x200] = 0x81;
    chip_8.memory[0x201] = 0x27;
    chip_8.run_cycle(&no_keys()).unwrap();
    assert_eq!(chip_8.v[1], 10);
    assert_eq!(chip_8.v[0xF], 1);
}

#[test]
fn logic_ops() {
    // 8XY1, 8XY2, 8XY3 in sequence, restoring vX between steps.
    let mut chip_8 = Chip8::new();
    chip_8.v[1] = 0b1100;
    chip_8.v[2] = 0b1010;
    chip_8.memory[0x200] = 0x81;
    chip_8.memory[0x201] = 0x21;
    chip_8.run_cycle(&no_keys()).unwrap();
    assert_eq!(chip_8.v[1], 0b1110);

    chip_8.v[1] = 0b1100;
    chip_8.memory[0x202] = 0x81;
    chip_8.memory[0x203] = 0x22;
    chip_8.run_cycle(&no_keys()).unwrap();
    assert_eq!(chip_8.v[1], 0b1000);

    chip_8.v[1] = 0b1100;
    chip_8.memory[0x204] = 0x81;
    chip_8.memory[0x205] = 0x23;
    chip_8.run_cycle(&no_keys()).unwrap();
    assert_eq!(chip_8.v[1], 0b0110);
}

#[test]
fn copy_register() {
    // 8XY0 copies vY into vX.
    let mut chip_8 = Chip8::new();
    chip_8.v[2] = 99;
    chip_8.memory[0x200] = 0x81;
    chip_8.memory[0x201] = 0x20;
    chip_8.run_cycle(&no_keys()).unwrap();
    assert_eq!(chip_8.v[1], 99);
    assert_eq!(chip_8.v[2], 99);
}

#[test]
fn shift_right_keeps_source() {
    // 8XY6: vX becomes vY >> 1, vF the shifted-out bit, vY unchanged.
    let mut chip_8 = Chip8::new();
    chip_8.v[2] = 5;
    chip_8.memory[0x200] = 0x81;
    chip_8.memory[0x201] = 0x26;
    chip_8.run_cycle(&no_keys()).unwrap();
    assert_eq!(chip_8.v[1], 2);
    assert_eq!(chip_8.v[2], 5);
    assert_eq!(chip_8.v[0xF], 1);
}

#[test]
fn shift_left_keeps_source() {
    // 8XYE: vX becomes vY << 1 (low byte), vF the shifted-out bit.
    let mut chip_8 = Chip8::new();
    chip_8.v[2] = 0x81;
    chip_8.memory[0x200] = 0x81;
    chip_8.memory[0x201] = 0x2E;
    chip_8.run_cycle(&no_keys()).unwrap();
    assert_eq!(chip_8.v[1], 0x02);
    assert_eq!(chip_8.v[2], 0x81);
    assert_eq!(chip_8.v[0xF], 1);
}

#[test]
fn jump_with_offset() {
    // BNNN jumps to NNN + v0.
    let mut chip_8 = Chip8::new();
    chip_8.v[0] = 5;
    chip_8.memory[0x200] = 0xB3;
    chip_8.memory[0x201] = 0x00;
    chip_8.run_cycle(&no_keys()).unwrap();
    assert_eq!(chip_8.pc, 0x305);
}

#[test]
fn subroutine_call_and_return() {
    // 2NNN pushes the advanced pc and jumps; 00EE pops it back.
    let mut chip_8 = Chip8::new();
    chip_8.memory[0x200] = 0x23;
    chip_8.memory[0x201] = 0x00;
    chip_8.memory[0x300] = 0x00;
    chip_8.memory[0x301] = 0xEE;

    chip_8.run_cycle(&no_keys()).unwrap();
    assert_eq!(chip_8.pc, 0x300);
    assert_eq!(chip_8.stack, vec![0x202]);

    chip_8.run_cycle(&no_keys()).unwrap();
    assert_eq!(chip_8.pc, 0x202);
    assert_eq!(chip_8.stack.len(), 0);
}

#[test]
fn return_with_empty_stack_faults() {
    // 00EE with an empty stack reports a fault and changes nothing.
    let mut chip_8 = Chip8::new();
    chip_8.memory[0x200] = 0x00;
    chip_8.memory[0x201] = 0xEE;

    let r = chip_8.run_cycle(&no_keys());
    assert_eq!(r, Err(Fault::StackUnderflow));
    assert_eq!(chip_8.pc, 0x200);
    assert_eq!(chip_8.stack.len(), 0);
}

#[test]
fn fetch_out_of_bounds_faults() {
    // A program counter past 4094 cannot fetch a whole instruction.
    let mut chip_8 = Chip8::new();
    chip_8.pc = 4095;
    let r = chip_8.run_cycle(&no_keys());
    assert_eq!(r, Err(Fault::MemoryOutOfBounds));
    assert_eq!(chip_8.pc, 4095);
}

#[test]
fn bcd_decomposition() {
    // FX33 stores the decimal digits of vX at I, I+1, I+2.
    let mut chip_8 = Chip8::new();
    chip_8.v[7] = 234;
    chip_8.i = 0x300;
    chip_8.memory[0x200] = 0xF7;
    chip_8.memory[0x201] = 0x33;
    chip_8.run_cycle(&no_keys()).unwrap();
    assert_eq!(chip_8.memory[0x300], 2);
    assert_eq!(chip_8.memory[0x301], 3);
    assert_eq!(chip_8.memory[0x302], 4);
    assert_eq!(chip_8.i, 0x300);
}

#[test]
fn bcd_out_of_bounds_faults() {
    let mut chip_8 = Chip8::new();
    chip_8.i = 4094;
    chip_8.memory[0x200] = 0xF0;
    chip_8.memory[0x201] = 0x33;
    let r = chip_8.run_cycle(&no_keys());
    assert_eq!(r, Err(Fault::MemoryOutOfBounds));
    assert_eq!(chip_8.pc, 0x200);
    assert_eq!(chip_8.memory[4094], 0);
}

#[test]
fn store_registers_round_trip() {
    // FX55 then FX65 with the same X and the same initial I restores
    // v0..=vX, and both leave I at its initial value plus X plus one.
    let mut chip_8 = Chip8::new();
    chip_8.v[0] = 11;
    chip_8.v[1] = 22;
    chip_8.v[2] = 33;
    chip_8.v[3] = 44;
    chip_8.i = 0x600;
    chip_8.memory[0x200] = 0xF3;
    chip_8.memory[0x201] = 0x55;
    chip_8.memory[0x202] = 0xF3;
    chip_8.memory[0x203] = 0x65;

    chip_8.run_cycle(&no_keys()).unwrap();
    assert_eq!(chip_8.memory[0x600], 11);
    assert_eq!(chip_8.memory[0x601], 22);
    assert_eq!(chip_8.memory[0x602], 33);
    assert_eq!(chip_8.memory[0x603], 44);
    assert_eq!(chip_8.i, 0x604);

    // Scramble the registers, restore the initial I, and load back.
    chip_8.v[0] = 0;
    chip_8.v[1] = 0;
    chip_8.v[2] = 0;
    chip_8.v[3] = 0;
    chip_8.i = 0x600;
    chip_8.run_cycle(&no_keys()).unwrap();
    assert_eq!(chip_8.v[0], 11);
    assert_eq!(chip_8.v[1], 22);
    assert_eq!(chip_8.v[2], 33);
    assert_eq!(chip_8.v[3], 44);
    assert_eq!(chip_8.i, 0x604);
}

#[test]
fn store_registers_out_of_bounds_faults() {
    let mut chip_8 = Chip8::new();
    chip_8.i = 4090;
    chip_8.memory[0x200] = 0xFF;
    chip_8.memory[0x201] = 0x55;
    let r = chip_8.run_cycle(&no_keys());
    assert_eq!(r, Err(Fault::MemoryOutOfBounds));
    assert_eq!(chip_8.pc, 0x200);
    assert_eq!(chip_8.i, 4090);
}

#[test]
fn index_add_overflow_flag() {
    // FX1E wraps at 16 bits and records the overflow in vF.
    let mut chip_8 = Chip8::new();
    chip_8.i = 0xFFFE;
    chip_8.v[3] = 5;
    chip_8.memory[0x200] = 0xF3;
    chip_8.memory[0x201] = 0x1E;
    chip_8.run_cycle(&no_keys()).unwrap();
    assert_eq!(chip_8.i, 3);
    assert_eq!(chip_8.v[0xF], 1);

    let mut chip_8 = Chip8::new();
    chip_8.i = 0x100;
    chip_8.v[3] = 5;
    chip_8.memory[0x200] = 0xF3;
    chip_8.memory[0x201] = 0x1E;
    chip_8.run_cycle(&no_keys()).unwrap();
    assert_eq!(chip_8.i, 0x105);
    assert_eq!(chip_8.v[0xF], 0);
}

#[test]
fn font_address_uses_low_nibble() {
    // FX29 points I at the font sprite of the low nibble of vX.
    let mut chip_8 = Chip8::new();
    chip_8.v[0] = 0x1B;
    chip_8.memory[0x200] = 0xF0;
    chip_8.memory[0x201] = 0x29;
    chip_8.run_cycle(&no_keys()).unwrap();
    assert_eq!(chip_8.i, 0x50 + 5 * 0xB);
}

#[test]
fn timer_opcodes() {
    // FX15 sets dt, FX07 reads it back, FX18 sets st.
    let mut chip_8 = Chip8::new();
    chip_8.v[1] = 42;
    chip_8.memory[0x200] = 0xF1;
    chip_8.memory[0x201] = 0x15;
    chip_8.memory[0x202] = 0xF2;
    chip_8.memory[0x203] = 0x07;
    chip_8.memory[0x204] = 0xF1;
    chip_8.memory[0x205] = 0x18;
    chip_8.run_cycle(&no_keys()).unwrap();
    assert_eq!(chip_8.dt, 42);
    chip_8.run_cycle(&no_keys()).unwrap();
    assert_eq!(chip_8.v[2], 42);
    chip_8.run_cycle(&no_keys()).unwrap();
    assert_eq!(chip_8.st, 42);
}

#[test]
fn decrement_counters_saturates() {
    let mut chip_8 = Chip8::new();
    chip_8.dt = 2;
    chip_8.st = 0;
    chip_8.decrement_counters();
    assert_eq!(chip_8.dt, 1);
    assert_eq!(chip_8.st, 0);
    chip_8.decrement_counters();
    chip_8.decrement_counters();
    assert_eq!(chip_8.dt, 0);
    assert_eq!(chip_8.st, 0);
}

#[test]
fn skip_on_key_state() {
    // EX9E skips when key vX is held; EXA1 when it is not.
    let mut keys = HashSet::new();
    keys.insert(3u8);

    let mut chip_8 = Chip8::new();
    chip_8.v[0] = 3;
    chip_8.memory[0x200] = 0xE0;
    chip_8.memory[0x201] = 0x9E;
    chip_8.run_cycle(&keys).unwrap();
    assert_eq!(chip_8.pc, 0x204);

    let mut chip_8 = Chip8::new();
    chip_8.v[0] = 3;
    chip_8.memory[0x200] = 0xE0;
    chip_8.memory[0x201] = 0x9E;
    chip_8.run_cycle(&no_keys()).unwrap();
    assert_eq!(chip_8.pc, 0x202);

    let mut chip_8 = Chip8::new();
    chip_8.v[0] = 3;
    chip_8.memory[0x200] = 0xE0;
    chip_8.memory[0x201] = 0xA1;
    chip_8.run_cycle(&keys).unwrap();
    assert_eq!(chip_8.pc, 0x202);

    let mut chip_8 = Chip8::new();
    chip_8.v[0] = 3;
    chip_8.memory[0x200] = 0xE0;
    chip_8.memory[0x201] = 0xA1;
    chip_8.run_cycle(&no_keys()).unwrap();
    assert_eq!(chip_8.pc, 0x204);
}

#[test]
fn key_wait_rewinds_until_pressed() {
    // FX0A reruns itself while no key is held, then stores the lowest
    // held key code.
    let mut chip_8 = Chip8::new();
    chip_8.memory[0x200] = 0xF5;
    chip_8.memory[0x201] = 0x0A;

    chip_8.run_cycle(&no_keys()).unwrap();
    assert_eq!(chip_8.pc, 0x200);
    chip_8.run_cycle(&no_keys()).unwrap();
    assert_eq!(chip_8.pc, 0x200);

    let mut keys = HashSet::new();
    keys.insert(7u8);
    keys.insert(3u8);
    chip_8.run_cycle(&keys).unwrap();
    assert_eq!(chip_8.pc, 0x202);
    assert_eq!(chip_8.v[5], 3);
}

#[test]
fn random_byte_is_masked() {
    // CXNN masks the injected random byte with NN.
    let mut chip_8 = Chip8::new();
    chip_8.memory[0x200] = 0xC6;
    chip_8.memory[0x201] = 0x0F;
    chip_8.run_cycle_with_random(&no_keys(), 0xAB).unwrap();
    assert_eq!(chip_8.v[6], 0x0B);

    // With a zero mask the result is zero whatever byte the
    // process-wide generator produced.
    let mut chip_8 = Chip8::new();
    chip_8.memory[0x200] = 0xC6;
    chip_8.memory[0x201] = 0x00;
    chip_8.run_cycle(&no_keys()).unwrap();
    assert_eq!(chip_8.v[6], 0x00);
}

#[test]
fn unknown_opcodes_are_ignored() {
    // Unrecognized patterns advance the program counter and nothing
    // else: 0NNN other than 00E0/00EE, 5XY1, 8XY8, EX00, FX99.
    for (hi, lo) in [(0x01u8, 0x23u8), (0x51, 0x21), (0x81, 0x28), (0xE1, 0x00), (0xF1, 0x99)] {
        let mut chip_8 = Chip8::new();
        chip_8.v[1] = 7;
        chip_8.v[2] = 7;
        chip_8.memory[0x200] = hi;
        chip_8.memory[0x201] = lo;
        chip_8.run_cycle(&no_keys()).unwrap();
        assert_eq!(chip_8.pc, 0x202);
        assert_eq!(chip_8.v[1], 7);
        assert_eq!(chip_8.i, 0);
    }
}

#[test]
fn load_rom_places_code_at_program_start() {
    let mut chip_8 = Chip8::new();
    chip_8.load_rom(&[0x1E, 0xEE, 0x42]);
    assert_eq!(chip_8.memory[0x200], 0x1E);
    assert_eq!(chip_8.memory[0x201], 0xEE);
    assert_eq!(chip_8.memory[0x202], 0x42);
    assert_eq!(chip_8.memory[0x203], 0x00);
    chip_8.run_cycle(&no_keys()).unwrap();
    assert_eq!(chip_8.pc, 0xEEE);
}
