use chip8::emulator::Chip8Error;
use chip8::emulator::Emulator;
use chip8::emulator::KeyState;
use chip8::emulator::Pixel;
use chip8::emulator::FONTSET_LOC;
use chip8::emulator::PROGRAM_LOC;
use chip8::emulator::TICK_NANOS;
use chip8::opcodes::addition_carry;
use chip8::opcodes::minus_carry;

#[test]
fn addition_carry_both_branches() {
    assert_eq!(addition_carry(0, 0), (0, 0));
    assert_eq!(addition_carry(200, 100), (44, 1));
    assert_eq!(addition_carry(255, 255), (254, 1));
    assert_eq!(addition_carry(128, 127), (255, 0));
}

#[test]
fn minus_carry_both_branches() {
    assert_eq!(minus_carry(5, 5), (0, 1));
    assert_eq!(minus_carry(3, 50), (209, 0));
    assert_eq!(minus_carry(255, 0), (255, 1));
    assert_eq!(minus_carry(0, 255), (1, 0));
}

#[test]
fn clear_screen_advances_pc() {
    let mut emu = Emulator::new();
    let pc = emu.program_counter;
    emu.graphics[100] = Pixel::ON;
    emu.memory[pc] = 0x00;
    emu.memory[pc + 1] = 0xE0;

    emu.emulate_cycle(None).unwrap();

    assert_eq!(pc + 2, emu.program_counter);
    assert!(emu.clear);
    for pixel in emu.graphics.iter() {
        assert_eq!(Pixel::OFF, *pixel);
    }
}

#[test]
fn fontset_installed() {
    let emu = Emulator::new();
    let base = FONTSET_LOC as usize;
    // Glyph 0 starts with 0xF0; the last byte of glyph F is 0x80.
    assert_eq!(0xF0, emu.memory[base]);
    assert_eq!(0x80, emu.memory[base + 79]);
    // Everything around the font is zero.
    assert_eq!(0, emu.memory[base - 1]);
    assert_eq!(0, emu.memory[base + 80]);
}

#[test]
fn load_program_copies_at_program_loc() {
    let mut emu = Emulator::new();
    emu.load_program(&[0xA2, 0x10, 0xFF]).unwrap();
    assert_eq!(0xA2, emu.memory[PROGRAM_LOC]);
    assert_eq!(0x10, emu.memory[PROGRAM_LOC + 1]);
    assert_eq!(0xFF, emu.memory[PROGRAM_LOC + 2]);
    // The font survives a load.
    assert_eq!(0xF0, emu.memory[FONTSET_LOC as usize]);
}

#[test]
fn load_program_too_large_fails() {
    let mut emu = Emulator::new();
    let image = vec![0u8; 3585];
    assert_eq!(Err(Chip8Error::LoadFailure), emu.load_program(&image));
    // A full-size image is accepted.
    let image = vec![0u8; 3584];
    assert_eq!(Ok(()), emu.load_program(&image));
}

/// A call then an immediate return lands two bytes past the call site with
/// the stack as it was.
#[test]
fn call_then_return_round_trips() {
    let mut emu = Emulator::new();
    let pc = emu.program_counter;

    // Call 0x400; at 0x400, return.
    emu.memory[pc] = 0x24;
    emu.memory[pc + 1] = 0x00;
    emu.memory[0x400] = 0x00;
    emu.memory[0x401] = 0xEE;

    emu.emulate_cycle(None).unwrap();
    assert_eq!(1, emu.stack.len());
    assert_eq!(0x400, emu.program_counter);

    emu.emulate_cycle(None).unwrap();
    assert_eq!(0, emu.stack.len());
    assert_eq!(pc + 2, emu.program_counter);
}

/// Seventeen nested calls on a sixteen-deep stack: the seventeenth raises a
/// stack overflow and moves nothing.
#[test]
fn seventeenth_nested_call_overflows() {
    let mut emu = Emulator::new();
    let pc = emu.program_counter;

    // An instruction that calls its own address nests forever.
    emu.memory[pc] = 0x22;
    emu.memory[pc + 1] = 0x00;

    for _ in 0..16 {
        assert_eq!(Ok(()), emu.emulate_cycle(None));
    }
    assert_eq!(16, emu.stack.len());
    assert_eq!(pc, emu.program_counter);

    assert_eq!(Err(Chip8Error::StackOverflow), emu.emulate_cycle(None));
    assert_eq!(16, emu.stack.len());
    assert_eq!(pc, emu.program_counter);
}

#[test]
fn return_on_empty_stack_underflows() {
    let mut emu = Emulator::new();
    let pc = emu.program_counter;
    emu.memory[pc] = 0x00;
    emu.memory[pc + 1] = 0xEE;

    assert_eq!(Err(Chip8Error::StackUnderflow), emu.emulate_cycle(None));
    assert_eq!(pc, emu.program_counter);
}

#[test]
fn unknown_opcodes_are_invalid() {
    // One unknown payload per family with a secondary dispatch.
    for (hi, lo) in [(0x01u8, 0x23u8), (0x82, 0x39), (0xE2, 0xFF), (0xF2, 0xFF)] {
        let mut emu = Emulator::new();
        let pc = emu.program_counter;
        emu.memory[pc] = hi;
        emu.memory[pc + 1] = lo;
        assert_eq!(Err(Chip8Error::InvalidOpcode), emu.emulate_cycle(None));
        assert_eq!(pc, emu.program_counter);
    }
}

#[test]
fn fetch_at_end_of_memory_is_out_of_bounds() {
    let mut emu = Emulator::new();
    emu.program_counter = 4095;
    assert_eq!(Err(Chip8Error::MemoryOutOfBounds), emu.emulate_cycle(None));
}

#[test]
fn draw_sets_pixels_and_collision_flag() {
    let mut emu = Emulator::new();
    let pc = emu.program_counter;

    emu.registers[0] = 4;  // x
    emu.registers[1] = 2;  // y
    emu.memory[pc] = 0xA3;  // index = 0x300
    emu.memory[pc + 1] = 0x00;
    emu.memory[pc + 2] = 0xD0;  // draw 1 row at (V0, V1)
    emu.memory[pc + 3] = 0x11;
    emu.memory[0x300] = 0b10100000;

    emu.emulate_cycle(None).unwrap();
    emu.emulate_cycle(None).unwrap();

    assert!(emu.draw);
    // Most significant bit first: columns 0 and 2 of the row light up.
    assert_eq!(Pixel::ON, emu.get_pixel(4, 2));
    assert_eq!(Pixel::OFF, emu.get_pixel(5, 2));
    assert_eq!(Pixel::ON, emu.get_pixel(6, 2));
    assert_eq!(Pixel::OFF, emu.get_pixel(7, 2));
    // Nothing was lit before, so nothing collided.
    assert_eq!(0, emu.registers[0xF]);
}

/// Drawing the same sprite twice restores the framebuffer, and the second
/// draw reports the collision with what the first draw lit.
#[test]
fn draw_twice_restores_screen() {
    let mut emu = Emulator::new();
    let pc = emu.program_counter;

    emu.registers[0] = 10;
    emu.registers[1] = 5;
    emu.graphics[5 * 64 + 10] = Pixel::ON;
    let before: Vec<Pixel> = emu.graphics.clone();

    emu.memory[pc] = 0xA3;
    emu.memory[pc + 1] = 0x00;
    emu.memory[pc + 2] = 0xD0;  // two rows
    emu.memory[pc + 3] = 0x12;
    emu.memory[pc + 4] = 0xD0;  // and the same sprite again
    emu.memory[pc + 5] = 0x12;
    emu.memory[0x300] = 0xFF;
    emu.memory[0x301] = 0x81;

    emu.emulate_cycle(None).unwrap();
    emu.emulate_cycle(None).unwrap();
    // The first draw toggled a lit pixel off: collision.
    assert_eq!(1, emu.registers[0xF]);

    emu.emulate_cycle(None).unwrap();
    // The second identical draw undoes the first.
    assert_eq!(before, emu.graphics);
    // It collided, because the first draw turned pixels on.
    assert_eq!(1, emu.registers[0xF]);
}

#[test]
fn draw_clips_at_screen_edges() {
    let mut emu = Emulator::new();
    let pc = emu.program_counter;

    emu.registers[0] = 60;  // only columns 60..63 fit
    emu.registers[1] = 31;  // only the first row fits
    emu.memory[pc] = 0xA3;
    emu.memory[pc + 1] = 0x00;
    emu.memory[pc + 2] = 0xD0;
    emu.memory[pc + 3] = 0x12;
    emu.memory[0x300] = 0xFF;
    emu.memory[0x301] = 0xFF;

    emu.emulate_cycle(None).unwrap();
    emu.emulate_cycle(None).unwrap();

    for x in 60..64 {
        assert_eq!(Pixel::ON, emu.get_pixel(x, 31));
    }
    // Nothing wrapped to the left column or the top row.
    for x in 0..4 {
        assert_eq!(Pixel::OFF, emu.get_pixel(x, 31));
        assert_eq!(Pixel::OFF, emu.get_pixel(x, 0));
    }
    let lit = emu.graphics.iter().filter(|p| **p == Pixel::ON).count();
    assert_eq!(4, lit);
}

#[test]
fn draw_past_memory_is_out_of_bounds() {
    let mut emu = Emulator::new();
    let pc = emu.program_counter;

    emu.memory[pc] = 0xAF;  // index = 0xFFF
    emu.memory[pc + 1] = 0xFF;
    emu.memory[pc + 2] = 0xD0;  // two rows: would read 0xFFF and 0x1000
    emu.memory[pc + 3] = 0x02;

    emu.emulate_cycle(None).unwrap();
    assert_eq!(Err(Chip8Error::MemoryOutOfBounds), emu.emulate_cycle(None));
    assert_eq!(pc + 2, emu.program_counter);
    assert_eq!(0xFFF, emu.index_register);
}

#[test]
fn delay_timer_read_and_write() {
    let mut emu = Emulator::new();
    let pc = emu.program_counter;

    emu.registers[4] = 42;
    emu.memory[pc] = 0xF4;  // delay = V4
    emu.memory[pc + 1] = 0x15;
    emu.memory[pc + 2] = 0xF7;  // V7 = delay
    emu.memory[pc + 3] = 0x07;

    emu.emulate_cycle(None).unwrap();
    assert_eq!(42, emu.delay_timer);
    emu.emulate_cycle(None).unwrap();
    assert_eq!(42, emu.registers[7]);
}

#[test]
fn timers_decay_once_per_period() {
    let mut emu = Emulator::new();
    let pc = emu.program_counter;
    emu.delay_timer = 3;
    emu.sound_timer = 2;
    // A run of jump-in-place instructions.
    emu.memory[pc] = 0x12;
    emu.memory[pc + 1] = 0x00;

    // Not enough time for a tick: nothing decays.
    emu.emulate_cycle(Some(TICK_NANOS / 2)).unwrap();
    assert_eq!(3, emu.delay_timer);
    assert_eq!(2, emu.sound_timer);
    assert!(!emu.tone);

    // The other half arrives: one tick, and the sound timer lands on 1.
    emu.emulate_cycle(Some(TICK_NANOS - TICK_NANOS / 2)).unwrap();
    assert_eq!(2, emu.delay_timer);
    assert_eq!(1, emu.sound_timer);
    assert!(emu.tone);

    // A whole period at once: another tick; the sound timer passes 1, so no
    // tone this time, and the flag from the previous step has been reset.
    emu.emulate_cycle(Some(TICK_NANOS)).unwrap();
    assert_eq!(1, emu.delay_timer);
    assert_eq!(0, emu.sound_timer);
    assert!(!emu.tone);

    // Timers floor at zero.
    emu.emulate_cycle(Some(TICK_NANOS)).unwrap();
    assert_eq!(0, emu.delay_timer);
    assert_eq!(0, emu.sound_timer);

    // No delta, no decay.
    emu.emulate_cycle(None).unwrap();
    assert_eq!(0, emu.delay_timer);
}

#[test]
fn sound_timer_set_by_opcode() {
    let mut emu = Emulator::new();
    let pc = emu.program_counter;
    emu.registers[2] = 9;
    emu.memory[pc] = 0xF2;  // sound = V2
    emu.memory[pc + 1] = 0x18;
    emu.emulate_cycle(None).unwrap();
    assert_eq!(9, emu.sound_timer);
}

#[test]
fn index_add_and_overflow() {
    let mut emu = Emulator::new();
    let pc = emu.program_counter;

    emu.registers[1] = 0xFF;
    emu.memory[pc] = 0xA0;  // index = 0x080
    emu.memory[pc + 1] = 0x80;
    emu.memory[pc + 2] = 0xF1;  // index += V1
    emu.memory[pc + 3] = 0x1E;

    emu.emulate_cycle(None).unwrap();
    emu.emulate_cycle(None).unwrap();
    assert_eq!(0x080 + 0xFF, emu.index_register);

    // An increment past the 4096-byte space is out of bounds.
    let mut emu = Emulator::new();
    let pc = emu.program_counter;
    emu.registers[1] = 0xFF;
    emu.memory[pc] = 0xAF;  // index = 0xF80
    emu.memory[pc + 1] = 0x80;
    emu.memory[pc + 2] = 0xF1;
    emu.memory[pc + 3] = 0x1E;
    emu.emulate_cycle(None).unwrap();
    assert_eq!(Err(Chip8Error::MemoryOutOfBounds), emu.emulate_cycle(None));
    assert_eq!(0xF80, emu.index_register);
}

#[test]
fn font_character_lookup() {
    let mut emu = Emulator::new();
    let pc = emu.program_counter;
    emu.registers[3] = 0xA;
    emu.memory[pc] = 0xF3;  // index = font glyph for VA's value
    emu.memory[pc + 1] = 0x29;
    emu.emulate_cycle(None).unwrap();
    assert_eq!(FONTSET_LOC + 5 * 0xA, emu.index_register);
    // The first byte of the glyph for 0xA.
    assert_eq!(0xF0, emu.memory[emu.index_register as usize]);
}

#[test]
fn bcd_store_writes_three_digits() {
    let mut emu = Emulator::new();
    let pc = emu.program_counter;
    emu.registers[5] = 254;
    emu.memory[pc] = 0xA3;  // index = 0x300
    emu.memory[pc + 1] = 0x00;
    emu.memory[pc + 2] = 0xF5;  // decimal digits of V5 at index
    emu.memory[pc + 3] = 0x33;

    emu.emulate_cycle(None).unwrap();
    emu.emulate_cycle(None).unwrap();
    assert_eq!(2, emu.memory[0x300]);
    assert_eq!(5, emu.memory[0x301]);
    assert_eq!(4, emu.memory[0x302]);

    // A store that would cross the end of memory is refused.
    let mut emu = Emulator::new();
    let pc = emu.program_counter;
    emu.memory[pc] = 0xAF;  // index = 0xFFE: bytes 0xFFE..0x1001
    emu.memory[pc + 1] = 0xFE;
    emu.memory[pc + 2] = 0xF5;
    emu.memory[pc + 3] = 0x33;
    emu.emulate_cycle(None).unwrap();
    assert_eq!(Err(Chip8Error::MemoryOutOfBounds), emu.emulate_cycle(None));
}

#[test]
fn register_dump_and_load_round_trip() {
    let mut emu = Emulator::new();
    let pc = emu.program_counter;
    for i in 0..4 {
        emu.registers[i] = (10 + i) as u8;
    }
    emu.registers[4] = 99;  // past X: not transferred

    emu.memory[pc] = 0xA3;  // index = 0x300
    emu.memory[pc + 1] = 0x00;
    emu.memory[pc + 2] = 0xF3;  // memory[index..=index+3] = V0..=V3
    emu.memory[pc + 3] = 0x55;
    emu.memory[pc + 4] = 0x63;  // V3 = 0
    emu.memory[pc + 5] = 0x00;
    emu.memory[pc + 6] = 0xF3;  // V0..=V3 = memory[index..=index+3]
    emu.memory[pc + 7] = 0x65;

    emu.emulate_cycle(None).unwrap();
    emu.emulate_cycle(None).unwrap();
    assert_eq!(vec![10, 11, 12, 13], emu.memory[0x300..0x304].to_vec());
    assert_eq!(0, emu.memory[0x304]);

    emu.emulate_cycle(None).unwrap();
    assert_eq!(0, emu.registers[3]);
    emu.emulate_cycle(None).unwrap();
    assert_eq!(13, emu.registers[3]);
    assert_eq!(10, emu.registers[0]);
    assert_eq!(99, emu.registers[4]);

    // A transfer that would cross the end of memory is refused.
    let mut emu = Emulator::new();
    let pc = emu.program_counter;
    emu.memory[pc] = 0xAF;  // index = 0xFFE
    emu.memory[pc + 1] = 0xFE;
    emu.memory[pc + 2] = 0xF3;  // four registers: bytes 0xFFE..0x1002
    emu.memory[pc + 3] = 0x55;
    emu.emulate_cycle(None).unwrap();
    assert_eq!(Err(Chip8Error::MemoryOutOfBounds), emu.emulate_cycle(None));
}

#[test]
fn keypad_tracks_state_and_counter() {
    let mut emu = Emulator::new();
    assert!(matches!(emu.get_key(7), KeyState::UP));

    emu.set_key(7, KeyState::DOWN);
    assert!(matches!(emu.get_key(7), KeyState::DOWN));
    assert_eq!(1, emu.number_of_keys_pressed);
    assert_eq!(7, emu.last_key_pressed);

    emu.set_key(7, KeyState::UP);
    assert!(matches!(emu.get_key(7), KeyState::UP));
    assert_eq!(0, emu.number_of_keys_pressed);

    // A release with nothing pressed floors the counter at zero.
    emu.set_key(3, KeyState::UP);
    assert_eq!(0, emu.number_of_keys_pressed);
}

#[test]
fn skip_if_key_pressed() {
    let mut emu = Emulator::new();
    let pc = emu.program_counter;
    emu.set_key(2, KeyState::DOWN);
    emu.memory[pc] = 0xE2;  // skip if key 2 pressed
    emu.memory[pc + 1] = 0x9E;
    emu.emulate_cycle(None).unwrap();
    assert_eq!(pc + 4, emu.program_counter);

    let mut emu = Emulator::new();
    let pc = emu.program_counter;
    emu.memory[pc] = 0xE2;
    emu.memory[pc + 1] = 0x9E;
    emu.emulate_cycle(None).unwrap();
    assert_eq!(pc + 2, emu.program_counter);
}

#[test]
fn skip_if_key_not_pressed() {
    let mut emu = Emulator::new();
    let pc = emu.program_counter;
    emu.memory[pc] = 0xE2;  // skip if key 2 not pressed
    emu.memory[pc + 1] = 0xA1;
    emu.emulate_cycle(None).unwrap();
    assert_eq!(pc + 4, emu.program_counter);

    let mut emu = Emulator::new();
    let pc = emu.program_counter;
    emu.set_key(2, KeyState::DOWN);
    emu.memory[pc] = 0xE2;
    emu.memory[pc + 1] = 0xA1;
    emu.emulate_cycle(None).unwrap();
    assert_eq!(pc + 2, emu.program_counter);
}

/// The keypress wait suspends stepping until a fresh key goes down, then
/// stores that key and resumes.
#[test]
fn wait_for_keypress_suspends_and_resumes() {
    let mut emu = Emulator::new();
    let pc = emu.program_counter;
    emu.memory[pc] = 0xF3;  // wait for a key, store it in V3
    emu.memory[pc + 1] = 0x0A;
    emu.memory[pc + 2] = 0x64;  // V4 = 0x55, once stepping resumes
    emu.memory[pc + 3] = 0x55;

    emu.emulate_cycle(None).unwrap();
    assert!(emu.key_wait.is_some());
    assert_eq!(pc + 2, emu.program_counter);

    // Nothing pressed: the machine stays suspended, pc does not move.
    for _ in 0..3 {
        emu.emulate_cycle(None).unwrap();
        assert!(emu.key_wait.is_some());
        assert_eq!(pc + 2, emu.program_counter);
    }

    // A key goes down between steps; the next step consumes it.
    emu.set_key(0xC, KeyState::DOWN);
    emu.emulate_cycle(None).unwrap();
    assert!(emu.key_wait.is_none());
    assert_eq!(0xC, emu.registers[3]);
    assert_eq!(pc + 2, emu.program_counter);

    // Stepping resumes with the following instruction.
    emu.emulate_cycle(None).unwrap();
    assert_eq!(0x55, emu.registers[4]);
    assert_eq!(pc + 4, emu.program_counter);
}

/// A key released and re-pressed while waiting still counts as a fresh press.
#[test]
fn wait_for_keypress_tracks_falling_counter() {
    let mut emu = Emulator::new();
    let pc = emu.program_counter;
    emu.set_key(5, KeyState::DOWN);
    emu.memory[pc] = 0xF0;  // wait for a key, store it in V0
    emu.memory[pc + 1] = 0x0A;

    emu.emulate_cycle(None).unwrap();
    assert!(emu.key_wait.is_some());

    // Releasing the held key lowers the baseline, but is no press.
    emu.set_key(5, KeyState::UP);
    emu.emulate_cycle(None).unwrap();
    assert!(emu.key_wait.is_some());

    // Pressing again is a fresh press.
    emu.set_key(5, KeyState::DOWN);
    emu.emulate_cycle(None).unwrap();
    assert!(emu.key_wait.is_none());
    assert_eq!(5, emu.registers[0]);
}

#[test]
fn random_byte_is_masked() {
    for _ in 0..20 {
        let mut emu = Emulator::new();
        let pc = emu.program_counter;
        emu.memory[pc] = 0xC1;  // V1 = random & 0x07
        emu.memory[pc + 1] = 0x07;
        emu.emulate_cycle(None).unwrap();
        assert!(emu.registers[1] <= 0x07);
        assert_eq!(pc + 2, emu.program_counter);
    }
}

#[test]
fn get_and_set_pixel() {
    let mut emu = Emulator::new();
    assert_eq!(Pixel::OFF, emu.get_pixel(63, 31));
    let flipped = emu.set_pixel(63, 31, Pixel::ON);
    assert!(!flipped);
    assert_eq!(Pixel::ON, emu.get_pixel(63, 31));
    // Toggling a lit pixel reports the collision and turns it off.
    let flipped = emu.set_pixel(63, 31, Pixel::ON);
    assert!(flipped);
    assert_eq!(Pixel::OFF, emu.get_pixel(63, 31));
    // An OFF blit changes nothing.
    let flipped = emu.set_pixel(63, 31, Pixel::OFF);
    assert!(!flipped);
    assert_eq!(Pixel::OFF, emu.get_pixel(63, 31));
}
