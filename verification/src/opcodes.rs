//! The instruction handlers, one per opcode family, plus the arithmetic
//! helpers they share.
//!
//! Every handler takes the machine and the 12-bit payload of the fetched
//! instruction word, and its contract equates the whole machine afterwards
//! with a spec-level transition function on [`EmuView`]. A handler whose
//! family has failure conditions returns them as [`Chip8Error`]; an error
//! leaves the machine exactly as it was.

use vstd::prelude::*;

use crate::emulator::Chip8Error;
use crate::emulator::EmuView;
use crate::emulator::Emulator;
use crate::emulator::KeyState;
use crate::emulator::KeyWait;
use crate::emulator::MEMORY_SIZE;
use crate::emulator::NUM_REGISTERS;
use crate::emulator::Pixel;
use crate::emulator::FONTSET_LOC;
use crate::emulator::SCREEN_HEIGHT;
use crate::emulator::SCREEN_SIZE;
use crate::emulator::SCREEN_WIDTH;
use crate::emulator::STACK_DEPTH;

verus! {

/// First register operand of a payload: its top nibble.
pub open spec fn op_x(value: u16) -> int {
    (value >> 8u16) as int
}

/// Second register operand of a payload: its middle nibble.
pub open spec fn op_y(value: u16) -> int {
    ((value >> 4u16) & 0xF) as int
}

/// Immediate byte operand of a payload: its low byte.
pub open spec fn op_nn(value: u16) -> u8 {
    (value & 0xFF) as u8
}

/// Nibble operand of a payload: its low nibble.
pub open spec fn op_n(value: u16) -> int {
    (value & 0xF) as int
}

/// The operand fields of a 12-bit payload are in range: register indices
/// below 16, the immediate byte below 256.
proof fn lemma_payload_fields(value: u16)
    by (bit_vector)
    requires
        value < 0x1000,
    ensures
        0 <= value >> 8u16 < 16,
        0 <= (value >> 4u16) & 0xF < 16,
        value & 0xFF < 256,
        0 <= value & 0xF < 16,
{
}

/// Eight-bit sum with its carry: the sum modulo 256, and 1 exactly when the
/// true sum goes past 255.
pub open spec fn spec_add_carry(x: u8, y: u8) -> (u8, u8) {
    (((x + y) % 256) as u8, if x + y > 255 {
        1u8
    } else {
        0u8
    })
}

/// Eight-bit difference with its borrow flag: the difference modulo 256, and
/// 1 exactly when no borrow happens (x at least y).
pub open spec fn spec_sub_borrow(x: u8, y: u8) -> (u8, u8) {
    (((x - y + 256) % 256) as u8, if x >= y {
        1u8
    } else {
        0u8
    })
}

/// Add `y` to `x` in eight bits. The result is the sum modulo 256; the second
/// component is the carry, 1 exactly when the sum exceeds 255.
pub fn addition_carry(x: u8, y: u8) -> (r: (u8, u8))
    ensures
        r == spec_add_carry(x, y),
        r.0 == (x + y) % 256,
        r.1 == (if x + y > 255 {
            1u8
        } else {
            0u8
        }),
{
    let result: i16 = (x as i16) + (y as i16);
    if result > 255 {
        return ((result - 256) as u8, 1);
    }
    (result as u8, 0)
}

/// Subtract `y` from `x` in eight bits. The result is the difference modulo
/// 256; the second component is 1 exactly when x is at least y (no borrow),
/// 0 when a borrow happens.
pub fn minus_carry(x: u8, y: u8) -> (r: (u8, u8))
    ensures
        r == spec_sub_borrow(x, y),
        r.0 == (x - y + 256) % 256,
        r.1 == (if x >= y {
            1u8
        } else {
            0u8
        }),
{
    let result: i16 = (x as i16) - (y as i16);
    if result < 0 {
        return ((256 + result) as u8, 0);
    }
    (result as u8, 1)
}

/// The machine after a jump: the program counter is the payload.
pub open spec fn spec_goto(m: EmuView, value: u16) -> EmuView {
    EmuView { program_counter: value as int, ..m }
}

/// Jump: point the program counter at the payload address.
pub fn goto(emu: &mut Emulator, value: u16)
    requires
        old(emu)@.wf(),
        value < 0x1000,
    ensures
        final(emu)@.wf(),
        final(emu)@ == spec_goto(old(emu)@, value),
{
    emu.program_counter = value as usize;
    proof {
        assert(emu@ =~= spec_goto(old(emu)@, value));
    }
}

/// The machine after a call, or a stack overflow if all 16 entries are in
/// use: the call site goes on the stack and the payload becomes the program
/// counter.
pub open spec fn spec_call(m: EmuView, value: u16) -> Result<EmuView, Chip8Error> {
    if m.stack.len() >= STACK_DEPTH {
        Err(Chip8Error::StackOverflow)
    } else {
        Ok(
            EmuView {
                stack: m.stack.push(m.program_counter as u16),
                program_counter: value as int,
                ..m
            },
        )
    }
}

/// Call a subroutine: push the call site, jump to the payload address. A call
/// past the stack's 16 entries fails and moves nothing.
pub fn call_subroutine(emu: &mut Emulator, value: u16) -> (r: Result<(), Chip8Error>)
    requires
        old(emu)@.wf(),
        value < 0x1000,
        old(emu)@.program_counter + 2 <= MEMORY_SIZE,
    ensures
        final(emu)@.wf(),
        match r {
            Ok(()) => spec_call(old(emu)@, value) == Ok::<EmuView, Chip8Error>(final(emu)@),
            Err(e) => spec_call(old(emu)@, value) == Err::<EmuView, Chip8Error>(e) && final(emu)@
                == old(emu)@,
        },
{
    if emu.stack.len() >= STACK_DEPTH {
        return Err(Chip8Error::StackOverflow);
    }
    emu.stack.push(emu.program_counter as u16);
    emu.program_counter = value as usize;
    proof {
        assert(emu@ =~= spec_call(old(emu)@, value)->Ok_0);
    }
    Ok(())
}

/// The machine after a return, or a stack underflow if no call is in
/// progress: the program counter lands two bytes past the popped call site.
pub open spec fn spec_return(m: EmuView) -> Result<EmuView, Chip8Error> {
    if m.stack.len() == 0 {
        Err(Chip8Error::StackUnderflow)
    } else {
        Ok(
            EmuView {
                stack: m.stack.drop_last(),
                program_counter: m.stack.last() + 2,
                ..m
            },
        )
    }
}

/// Return from a subroutine: pop the call site and resume at the instruction
/// after it. A return with an empty stack fails and moves nothing.
pub fn return_from_subroutine(emu: &mut Emulator, _value: u16) -> (r: Result<(), Chip8Error>)
    requires
        old(emu)@.wf(),
    ensures
        final(emu)@.wf(),
        match r {
            Ok(()) => spec_return(old(emu)@) == Ok::<EmuView, Chip8Error>(final(emu)@),
            Err(e) => spec_return(old(emu)@) == Err::<EmuView, Chip8Error>(e) && final(emu)@ == old(
                emu,
            )@,
        },
{
    match emu.stack.pop() {
        None => Err(Chip8Error::StackUnderflow),
        Some(return_address) => {
            emu.program_counter = return_address as usize + 2;
            proof {
                assert(emu@ =~= spec_return(old(emu)@)->Ok_0);
            }
            Ok(())
        },
    }
}

/// The machine after the screen clears: every pixel off, the `clear` flag
/// raised, the program counter moved past the instruction.
pub open spec fn spec_clear_screen(m: EmuView) -> EmuView {
    EmuView {
        graphics: Seq::new(SCREEN_SIZE as nat, |i: int| Pixel::OFF),
        clear: true,
        program_counter: m.program_counter + 2,
        ..m
    }
}

/// The machine after an instruction of the system family: payload 0x0E0
/// clears the screen, payload 0x0EE returns from a subroutine, and any other
/// payload is not an instruction of this machine.
pub open spec fn spec_system(m: EmuView, value: u16) -> Result<EmuView, Chip8Error> {
    if value == 0x0E0 {
        Ok(spec_clear_screen(m))
    } else if value == 0x0EE {
        spec_return(m)
    } else {
        Err(Chip8Error::InvalidOpcode)
    }
}

/// The system family: clear the screen (payload 0x0E0) or return from a
/// subroutine (payload 0x0EE). Clearing turns every framebuffer pixel off and
/// advances the program counter by two.
pub fn system(emu: &mut Emulator, value: u16) -> (r: Result<(), Chip8Error>)
    requires
        old(emu)@.wf(),
        value < 0x1000,
        old(emu)@.program_counter + 2 <= MEMORY_SIZE,
    ensures
        final(emu)@.wf(),
        match r {
            Ok(()) => spec_system(old(emu)@, value) == Ok::<EmuView, Chip8Error>(final(emu)@),
            Err(e) => spec_system(old(emu)@, value) == Err::<EmuView, Chip8Error>(e) && final(emu)@
                == old(emu)@,
        },
{
    if value == 0x0E0 {
        let mut i: usize = 0;
        while i < SCREEN_SIZE
            invariant
                old(emu)@.wf(),
                i <= SCREEN_SIZE,
                emu@ == (EmuView { graphics: emu@.graphics, ..old(emu)@ }),
                emu@.graphics.len() == SCREEN_SIZE,
                forall|k: int| 0 <= k < i ==> emu@.graphics[k] == Pixel::OFF,
            decreases SCREEN_SIZE - i,
        {
            emu.graphics[i] = Pixel::OFF;
            i += 1;
        }
        emu.program_counter = emu.program_counter + 2;
        emu.clear = true;
        proof {
            assert(emu@ =~= spec_clear_screen(old(emu)@));
        }
        Ok(())
    } else if value == 0x0EE {
        return_from_subroutine(emu, value)
    } else {
        Err(Chip8Error::InvalidOpcode)
    }
}

/// The machine after a conditional skip: the program counter moves by four
/// when the condition held, by two otherwise.
pub open spec fn spec_skip(m: EmuView, skip: bool) -> EmuView {
    EmuView {
        program_counter: m.program_counter + (if skip {
            4int
        } else {
            2int
        }),
        ..m
    }
}

/// Advance the program counter past the instruction, skipping one further
/// instruction when `should_skip` holds.
pub fn skip_condition(emu: &mut Emulator, should_skip: bool)
    requires
        old(emu)@.wf(),
        old(emu)@.program_counter + 2 <= MEMORY_SIZE,
    ensures
        final(emu)@.wf(),
        final(emu)@ == spec_skip(old(emu)@, should_skip),
{
    let pc_inc: usize = if should_skip {
        4
    } else {
        2
    };
    emu.program_counter = emu.program_counter + pc_inc;
    proof {
        assert(emu@ =~= spec_skip(old(emu)@, should_skip));
    }
}

/// The machine after "skip if register X equals the immediate byte".
pub open spec fn spec_skip_true(m: EmuView, value: u16) -> EmuView {
    spec_skip(m, m.registers[op_x(value)] == op_nn(value))
}

/// Skip the next instruction if register X equals the immediate byte.
pub fn skip_true(emu: &mut Emulator, value: u16)
    requires
        old(emu)@.wf(),
        value < 0x1000,
        old(emu)@.program_counter + 2 <= MEMORY_SIZE,
    ensures
        final(emu)@.wf(),
        final(emu)@ == spec_skip_true(old(emu)@, value),
{
    proof {
        lemma_payload_fields(value);
    }
    let reg_loc = (value >> 8u16) as usize;
    let expected = (value & 0x0FF) as u8;
    let should_skip = emu.registers[reg_loc] == expected;
    skip_condition(emu, should_skip);
}

/// The machine after "skip if register X differs from the immediate byte".
pub open spec fn spec_skip_false(m: EmuView, value: u16) -> EmuView {
    spec_skip(m, m.registers[op_x(value)] != op_nn(value))
}

/// Skip the next instruction if register X does not equal the immediate byte.
pub fn skip_false(emu: &mut Emulator, value: u16)
    requires
        old(emu)@.wf(),
        value < 0x1000,
        old(emu)@.program_counter + 2 <= MEMORY_SIZE,
    ensures
        final(emu)@.wf(),
        final(emu)@ == spec_skip_false(old(emu)@, value),
{
    proof {
        lemma_payload_fields(value);
    }
    let reg_loc = (value >> 8u16) as usize;
    let expected = (value & 0x0FF) as u8;
    let should_skip = emu.registers[reg_loc] != expected;
    skip_condition(emu, should_skip);
}

/// The machine after "skip if register X equals register Y".
pub open spec fn spec_skip_equals(m: EmuView, value: u16) -> EmuView {
    spec_skip(m, m.registers[op_x(value)] == m.registers[op_y(value)])
}

/// Skip the next instruction if register X equals register Y.
pub fn skip_equals(emu: &mut Emulator, value: u16)
    requires
        old(emu)@.wf(),
        value < 0x1000,
        old(emu)@.program_counter + 2 <= MEMORY_SIZE,
    ensures
        final(emu)@.wf(),
        final(emu)@ == spec_skip_equals(old(emu)@, value),
{
    proof {
        lemma_payload_fields(value);
    }
    let x = (value >> 8u16) as usize;
    let y = ((value >> 4u16) & 0xF) as usize;
    let should_skip = emu.registers[x] == emu.registers[y];
    skip_condition(emu, should_skip);
}

/// The machine after "skip if register X differs from register Y".
pub open spec fn spec_skip_not_equals(m: EmuView, value: u16) -> EmuView {
    spec_skip(m, m.registers[op_x(value)] != m.registers[op_y(value)])
}

/// Skip the next instruction if register X does not equal register Y.
pub fn skip_not_equals(emu: &mut Emulator, value: u16)
    requires
        old(emu)@.wf(),
        value < 0x1000,
        old(emu)@.program_counter + 2 <= MEMORY_SIZE,
    ensures
        final(emu)@.wf(),
        final(emu)@ == spec_skip_not_equals(old(emu)@, value),
{
    proof {
        lemma_payload_fields(value);
    }
    let x = (value >> 8u16) as usize;
    let y = ((value >> 4u16) & 0xF) as usize;
    let should_skip = emu.registers[x] != emu.registers[y];
    skip_condition(emu, should_skip);
}

/// The machine after "register X = immediate byte".
pub open spec fn spec_set_register(m: EmuView, value: u16) -> EmuView {
    EmuView {
        registers: m.registers.update(op_x(value), op_nn(value)),
        program_counter: m.program_counter + 2,
        ..m
    }
}

/// Store the immediate byte in register X.
pub fn set_register(emu: &mut Emulator, value: u16)
    requires
        old(emu)@.wf(),
        value < 0x1000,
        old(emu)@.program_counter + 2 <= MEMORY_SIZE,
    ensures
        final(emu)@.wf(),
        final(emu)@ == spec_set_register(old(emu)@, value),
{
    proof {
        lemma_payload_fields(value);
    }
    let reg_loc = (value >> 8u16) as usize;
    let new_reg_value = (value & 0x0FF) as u8;
    emu.registers[reg_loc] = new_reg_value;
    emu.program_counter = emu.program_counter + 2;
    proof {
        assert(emu@ =~= spec_set_register(old(emu)@, value));
    }
}

/// The machine after "register X += immediate byte", wrapping without a flag.
pub open spec fn spec_add_to_register(m: EmuView, value: u16) -> EmuView {
    EmuView {
        registers: m.registers.update(
            op_x(value),
            spec_add_carry(m.registers[op_x(value)], op_nn(value)).0,
        ),
        program_counter: m.program_counter + 2,
        ..m
    }
}

/// Add the immediate byte to register X, wrapping modulo 256. The flag
/// register is not touched.
pub fn add_to_register(emu: &mut Emulator, value: u16)
    requires
        old(emu)@.wf(),
        value < 0x1000,
        old(emu)@.program_counter + 2 <= MEMORY_SIZE,
    ensures
        final(emu)@.wf(),
        final(emu)@ == spec_add_to_register(old(emu)@, value),
{
    proof {
        lemma_payload_fields(value);
    }
    let reg_loc = (value >> 8u16) as usize;
    let reg_inc = (value & 0x0FF) as u8;
    emu.registers[reg_loc] = addition_carry(emu.registers[reg_loc], reg_inc).0;
    emu.program_counter = emu.program_counter + 2;
    proof {
        assert(emu@ =~= spec_add_to_register(old(emu)@, value));
    }
}

/// The machine after "index register = payload".
pub open spec fn spec_set_index_register(m: EmuView, value: u16) -> EmuView {
    EmuView { index_register: value, program_counter: m.program_counter + 2, ..m }
}

/// Point the index register at the payload address.
pub fn set_index_register(emu: &mut Emulator, value: u16)
    requires
        old(emu)@.wf(),
        value < 0x1000,
        old(emu)@.program_counter + 2 <= MEMORY_SIZE,
    ensures
        final(emu)@.wf(),
        final(emu)@ == spec_set_index_register(old(emu)@, value),
{
    emu.index_register = value;
    emu.program_counter = emu.program_counter + 2;
    proof {
        assert(emu@ =~= spec_set_index_register(old(emu)@, value));
    }
}

/// The machine after "jump to payload plus register 0".
pub open spec fn spec_goto_plus_register(m: EmuView, value: u16) -> EmuView {
    EmuView { program_counter: value + m.registers[0], ..m }
}

/// Jump to the payload address displaced by register 0.
pub fn goto_plus_register(emu: &mut Emulator, value: u16)
    requires
        old(emu)@.wf(),
        value < 0x1000,
    ensures
        final(emu)@.wf(),
        final(emu)@ == spec_goto_plus_register(old(emu)@, value),
{
    emu.program_counter = value as usize + emu.registers[0] as usize;
    proof {
        assert(emu@ =~= spec_goto_plus_register(old(emu)@, value));
    }
}

/// Result of one ALU operation, selected by the low nibble of the payload:
/// the new values of register X and of the flag register, or nothing when the
/// nibble selects no operation.
pub open spec fn spec_alu(sub: int, x: u8, y: u8, f: u8) -> Option<(u8, u8)> {
    if sub == 0x0 {
        Some((y, f))
    } else if sub == 0x1 {
        Some((x | y, f))
    } else if sub == 0x2 {
        Some((x & y, f))
    } else if sub == 0x3 {
        Some((x ^ y, f))
    } else if sub == 0x4 {
        Some(spec_add_carry(x, y))
    } else if sub == 0x5 {
        Some(spec_sub_borrow(x, y))
    } else if sub == 0x6 {
        Some(((x >> 1u8), (x & 1)))
    } else if sub == 0x7 {
        Some(spec_sub_borrow(y, x))
    } else if sub == 0xE {
        Some(((x << 1u8), (x >> 7u8)))
    } else {
        None
    }
}

/// The machine after an ALU instruction: register X first, then the flag
/// register, receive the operation's two outputs (so with X = 0xF the flag
/// value wins), and the program counter moves past the instruction.
pub open spec fn spec_maths_ops(m: EmuView, value: u16) -> Result<EmuView, Chip8Error> {
    match spec_alu(op_n(value), m.registers[op_x(value)], m.registers[op_y(value)], m.registers[15]) {
        Some(xf) => Ok(
            EmuView {
                registers: m.registers.update(op_x(value), xf.0).update(15, xf.1),
                program_counter: m.program_counter + 2,
                ..m
            },
        ),
        None => Err(Chip8Error::InvalidOpcode),
    }
}

/// The ALU family: assignment, bitwise or/and/xor, add with carry, the two
/// subtractions with borrow flag, and the two shifts that save the shifted-out
/// bit in the flag register.
pub fn maths_ops(emu: &mut Emulator, value: u16) -> (r: Result<(), Chip8Error>)
    requires
        old(emu)@.wf(),
        value < 0x1000,
        old(emu)@.program_counter + 2 <= MEMORY_SIZE,
    ensures
        final(emu)@.wf(),
        match r {
            Ok(()) => spec_maths_ops(old(emu)@, value) == Ok::<EmuView, Chip8Error>(final(emu)@),
            Err(e) => spec_maths_ops(old(emu)@, value) == Err::<EmuView, Chip8Error>(e) && final(emu)@ == old(emu)@,
        },
{
    proof {
        lemma_payload_fields(value);
    }
    let secondary_instruction = (value & 0x00F) as u8;
    let ix = (value >> 8u16) as usize;
    let iy = ((value >> 4u16) & 0xF) as usize;

    let x = emu.registers[ix];
    let f = emu.registers[0xF];
    let y = emu.registers[iy];

    let xf: (u8, u8) = match secondary_instruction {
        0x0 => (y, f),
        0x1 => (x | y, f),
        0x2 => (x & y, f),
        0x3 => (x ^ y, f),
        0x4 => addition_carry(x, y),
        0x5 => minus_carry(x, y),
        0x6 => (x >> 1u8, x & 1),
        0x7 => minus_carry(y, x),
        0xE => (x << 1u8, x >> 7u8),
        _ => {
            return Err(Chip8Error::InvalidOpcode);
        },
    };

    emu.registers[ix] = xf.0;
    emu.registers[0xF] = xf.1;
    emu.program_counter = emu.program_counter + 2;
    proof {
        assert(emu@ =~= spec_maths_ops(old(emu)@, value)->Ok_0);
    }
    Ok(())
}

/// Relies on `rand::random`: one byte from the thread-local generator.
/// Nothing is assumed of its value; every caller must hold for every byte.
#[verifier::external_body]
fn random_byte() -> u8 {
    rand::random::<u8>()
}

/// The machine after the random instruction, given the byte `b` the generator
/// produced: register X holds `b` masked by the immediate byte.
pub open spec fn spec_rand(m: EmuView, value: u16, b: u8) -> EmuView {
    EmuView {
        registers: m.registers.update(op_x(value), b & op_nn(value)),
        program_counter: m.program_counter + 2,
        ..m
    }
}

/// Store a random byte, masked by the immediate byte, in register X. The
/// contract holds whatever byte the generator produces.
pub fn rand(emu: &mut Emulator, value: u16)
    requires
        old(emu)@.wf(),
        value < 0x1000,
        old(emu)@.program_counter + 2 <= MEMORY_SIZE,
    ensures
        final(emu)@.wf(),
        exists|b: u8| final(emu)@ == spec_rand(old(emu)@, value, b),
{
    proof {
        lemma_payload_fields(value);
    }
    let ix = (value >> 8u16) as usize;
    let nn = (value & 0x0FF) as u8;
    let b = random_byte();
    emu.registers[ix] = b & nn;
    emu.program_counter = emu.program_counter + 2;
    proof {
        assert(emu@ =~= spec_rand(old(emu)@, value, b));
    }
}

/// The machine after "skip if key X is pressed".
pub open spec fn spec_skip_if_pressed(m: EmuView, value: u16) -> EmuView {
    spec_skip(m, m.keys[op_x(value)] == KeyState::DOWN)
}

/// Skip the next instruction if the key named by register index X is down.
pub fn skip_if_pressed(emu: &mut Emulator, value: u16)
    requires
        old(emu)@.wf(),
        value < 0x1000,
        old(emu)@.program_counter + 2 <= MEMORY_SIZE,
    ensures
        final(emu)@.wf(),
        final(emu)@ == spec_skip_if_pressed(old(emu)@, value),
{
    proof {
        lemma_payload_fields(value);
    }
    let x = (value >> 8u16) as usize;
    let should_skip = match emu.keys[x] {
        KeyState::DOWN => true,
        KeyState::UP => false,
    };
    skip_condition(emu, should_skip);
}

/// The machine after "skip if key X is not pressed".
pub open spec fn spec_skip_if_not_pressed(m: EmuView, value: u16) -> EmuView {
    spec_skip(m, m.keys[op_x(value)] == KeyState::UP)
}

/// Skip the next instruction if the key named by register index X is up.
pub fn skip_if_not_pressed(emu: &mut Emulator, value: u16)
    requires
        old(emu)@.wf(),
        value < 0x1000,
        old(emu)@.program_counter + 2 <= MEMORY_SIZE,
    ensures
        final(emu)@.wf(),
        final(emu)@ == spec_skip_if_not_pressed(old(emu)@, value),
{
    proof {
        lemma_payload_fields(value);
    }
    let x = (value >> 8u16) as usize;
    let should_skip = match emu.keys[x] {
        KeyState::UP => true,
        KeyState::DOWN => false,
    };
    skip_condition(emu, should_skip);
}

/// The machine after an instruction of the key-skip family: low byte 0x9E
/// skips on a pressed key, 0xA1 on a released one; any other low byte is not
/// an instruction of this machine.
pub open spec fn spec_skip_pressed(m: EmuView, value: u16) -> Result<EmuView, Chip8Error> {
    if op_nn(value) == 0x9E {
        Ok(spec_skip_if_pressed(m, value))
    } else if op_nn(value) == 0xA1 {
        Ok(spec_skip_if_not_pressed(m, value))
    } else {
        Err(Chip8Error::InvalidOpcode)
    }
}

/// The key-skip family: skip on key X pressed (low byte 0x9E) or on key X not
/// pressed (low byte 0xA1).
pub fn skip_pressed(emu: &mut Emulator, value: u16) -> (r: Result<(), Chip8Error>)
    requires
        old(emu)@.wf(),
        value < 0x1000,
        old(emu)@.program_counter + 2 <= MEMORY_SIZE,
    ensures
        final(emu)@.wf(),
        match r {
            Ok(()) => spec_skip_pressed(old(emu)@, value) == Ok::<EmuView, Chip8Error>(
                final(emu)@,
            ),
            Err(e) => spec_skip_pressed(old(emu)@, value) == Err::<EmuView, Chip8Error>(e) && final(emu)@ == old(emu)@,
        },
{
    let sub = (value & 0x0FF) as u8;
    if sub == 0x9E {
        skip_if_pressed(emu, value);
        Ok(())
    } else if sub == 0xA1 {
        skip_if_not_pressed(emu, value);
        Ok(())
    } else {
        Err(Chip8Error::InvalidOpcode)
    }
}

/// Bit `k` of byte `b`, counting bit 0 as least significant.
pub open spec fn byte_bit(b: u8, k: u8) -> bool {
    (b >> k) & 1 == 1
}

/// Sprite cell (row `r`, column `c`) of the draw instruction `value` on
/// machine `m` is a lit sprite bit that lands, unclipped, on framebuffer cell
/// `i`. The sprite starts at the coordinates in registers X and Y, is 8 wide
/// with the most significant bit of each sprite byte drawn first, and is
/// `op_n(value)` tall, reading one byte per row at the index register.
pub open spec fn sprite_hit(m: EmuView, value: u16, r: int, c: int, i: int) -> bool {
    let x = m.registers[op_x(value)] as int;
    let y = m.registers[op_y(value)] as int;
    &&& 0 <= r < op_n(value)
    &&& 0 <= c < 8
    &&& x + c < SCREEN_WIDTH
    &&& y + r < SCREEN_HEIGHT
    &&& byte_bit(m.memory[m.index_register + r], (7 - c) as u8)
    &&& i == (y + r) * SCREEN_WIDTH + (x + c)
}

/// Framebuffer cell `i` is toggled by the sprite of draw instruction `value`.
pub open spec fn sprite_covers(m: EmuView, value: u16, i: int) -> bool {
    exists|r: int, c: int| sprite_hit(m, value, r, c, i)
}

/// Cell `i` is toggled by a sprite cell strictly before (row, col) in drawing
/// order (row-major, columns within a row): the part of the sprite already
/// blitted when the draw loop stands at (row, col).
pub open spec fn sprite_covers_before(m: EmuView, value: u16, row: int, col: int, i: int) -> bool {
    exists|r: int, c: int|
        sprite_hit(m, value, r, c, i) && (r < row || (r == row && c < col))
}

/// The draw collides: some cell the sprite toggles is currently lit, so the
/// toggle turns it off.
pub open spec fn spec_draw_collision(m: EmuView, value: u16) -> bool {
    exists|i: int|
        0 <= i < SCREEN_SIZE && sprite_covers(m, value, i) && m.graphics[i] == Pixel::ON
}

/// The machine after a draw, or a memory fault if a sprite row would be read
/// past the end of memory: every covered framebuffer cell is toggled, cells
/// off the screen are dropped, the flag register reports a collision, the
/// `draw` flag is raised, and the program counter moves past the instruction.
pub open spec fn spec_draw(m: EmuView, value: u16) -> Result<EmuView, Chip8Error> {
    if op_n(value) > 0 && m.index_register + op_n(value) > MEMORY_SIZE {
        Err(Chip8Error::MemoryOutOfBounds)
    } else {
        Ok(
            EmuView {
                graphics: Seq::new(SCREEN_SIZE as nat, |i: int| if sprite_covers(m, value, i) {
                    m.graphics[i].spec_not()
                } else {
                    m.graphics[i]
                }),
                registers: m.registers.update(15, if spec_draw_collision(m, value) {
                    1u8
                } else {
                    0u8
                }),
                draw: true,
                program_counter: m.program_counter + 2,
                ..m
            },
        )
    }
}

/// Distinct sprite cells land on distinct framebuffer cells: a cell `i` is
/// toggled by at most one (row, column) pair of the sprite.
proof fn lemma_sprite_hit_unique(m: EmuView, value: u16, r1: int, c1: int, r2: int, c2: int, i: int)
    requires
        sprite_hit(m, value, r1, c1, i),
        sprite_hit(m, value, r2, c2, i),
    ensures
        r1 == r2,
        c1 == c2,
{
    let x = m.registers[op_x(value)] as int;
    let y = m.registers[op_y(value)] as int;
    assert((y + r1) * SCREEN_WIDTH + (x + c1) == (y + r2) * SCREEN_WIDTH + (x + c2));
    assert(SCREEN_WIDTH * (r1 - r2) == (x + c2) - (x + c1)) by (nonlinear_arith)
        requires
            (y + r1) * SCREEN_WIDTH + (x + c1) == (y + r2) * SCREEN_WIDTH + (x + c2),
    ;
    assert(-8 < (x + c2) - (x + c1) < 8);
    assert(r1 == r2) by (nonlinear_arith)
        requires
            SCREEN_WIDTH * (r1 - r2) == (x + c2) - (x + c1),
            -8 < (x + c2) - (x + c1) < 8,
    ;
}

/// Draw a sprite: XOR-blit the `op_n(value)`-row sprite at the index register
/// onto the framebuffer at the coordinates held in registers X and Y, clipping
/// at the screen edges, and set the flag register to 1 exactly when a lit
/// pixel was turned off. A sprite row that would be read past the end of
/// memory fails the instruction before anything moves.
pub fn draw(emu: &mut Emulator, value: u16) -> (r: Result<(), Chip8Error>)
    requires
        old(emu)@.wf(),
        value < 0x1000,
        old(emu)@.program_counter + 2 <= MEMORY_SIZE,
    ensures
        final(emu)@.wf(),
        match r {
            Ok(()) => spec_draw(old(emu)@, value) == Ok::<EmuView, Chip8Error>(final(emu)@),
            Err(e) => spec_draw(old(emu)@, value) == Err::<EmuView, Chip8Error>(e) && final(emu)@
                == old(emu)@,
        },
{
    proof {
        lemma_payload_fields(value);
    }
    let h = (value & 0x00F) as usize;
    if h > 0 && emu.index_register as usize + h > MEMORY_SIZE {
        return Err(Chip8Error::MemoryOutOfBounds);
    }

    let ghost m0 = emu@;
    let xr = (value >> 8u16) as usize;
    let yr = ((value >> 4u16) & 0xF) as usize;
    let x: u16 = emu.registers[xr] as u16;
    let y: u16 = emu.registers[yr] as u16;

    emu.program_counter = emu.program_counter + 2;
    emu.draw = true;
    let ghost m1 = emu@;

    let mut flipped: bool = false;
    let mut row: usize = 0;
    while row < h
        invariant
            m0.wf(),
            value < 0x1000,
            h == op_n(value),
            h > 0 ==> m0.index_register + h <= MEMORY_SIZE,
            x == m0.registers[op_x(value)],
            y == m0.registers[op_y(value)],
            m1 == (EmuView { program_counter: m0.program_counter + 2, draw: true, ..m0 }),
            row <= h,
            emu@ == (EmuView { graphics: emu@.graphics, ..m1 }),
            emu@.graphics.len() == SCREEN_SIZE,
            forall|i: int| 0 <= i < SCREEN_SIZE ==> emu@.graphics[i] == (if sprite_covers_before(
                m0,
                value,
                row as int,
                0,
                i,
            ) {
                m0.graphics[i].spec_not()
            } else {
                m0.graphics[i]
            }),
            flipped <==> exists|i: int|
                0 <= i < SCREEN_SIZE && sprite_covers_before(m0, value, row as int, 0, i)
                    && m0.graphics[i] == Pixel::ON,
        decreases h - row,
    {
        let line = emu.memory[emu.index_register as usize + row];
        let mut col: usize = 0;
        while col < 8
            invariant
                m0.wf(),
                value < 0x1000,
                h == op_n(value),
                h > 0 ==> m0.index_register + h <= MEMORY_SIZE,
                x == m0.registers[op_x(value)],
                y == m0.registers[op_y(value)],
                m1 == (EmuView { program_counter: m0.program_counter + 2, draw: true, ..m0 }),
                row < h,
                col <= 8,
                line == m0.memory[m0.index_register + row],
                emu@ == (EmuView { graphics: emu@.graphics, ..m1 }),
                emu@.graphics.len() == SCREEN_SIZE,
                forall|i: int| 0 <= i < SCREEN_SIZE ==> emu@.graphics[i] == (
                if sprite_covers_before(m0, value, row as int, col as int, i) {
                    m0.graphics[i].spec_not()
                } else {
                    m0.graphics[i]
                }),
                flipped <==> exists|i: int|
                    0 <= i < SCREEN_SIZE && sprite_covers_before(
                        m0,
                        value,
                        row as int,
                        col as int,
                        i,
                    ) && m0.graphics[i] == Pixel::ON,
            decreases 8 - col,
        {
            let ghost g_before = emu@.graphics;
            let shift = (7 - col) as u8;
            let bit_set = ((line >> shift) & 1) == 1;
            let pixel = if bit_set {
                Pixel::ON
            } else {
                Pixel::OFF
            };
            let did_flip = emu.set_pixel(x + col as u16, y + row as u16, pixel);

            proof {
                let r = row as int;
                let c = col as int;
                let xi = x as int;
                let yi = y as int;
                if bit_set && xi + c < SCREEN_WIDTH && yi + r < SCREEN_HEIGHT {
                    // This sprite cell toggles exactly cell j.
                    let j = (yi + r) * SCREEN_WIDTH + (xi + c);
                    assert(sprite_hit(m0, value, r, c, j));
                    assert(0 <= j < SCREEN_SIZE) by (nonlinear_arith)
                        requires
                            j == (yi + r) * SCREEN_WIDTH + (xi + c),
                            0 <= yi + r < SCREEN_HEIGHT,
                            0 <= xi + c < SCREEN_WIDTH,
                    ;
                    // Cell j was not yet toggled: any earlier hit on j would
                    // be this very cell.
                    assert(!sprite_covers_before(m0, value, r, c, j)) by {
                        if sprite_covers_before(m0, value, r, c, j) {
                            let (r2, c2) = choose|r2: int, c2: int|
                                sprite_hit(m0, value, r2, c2, j) && (r2 < r || (r2 == r && c2
                                    < c));
                            lemma_sprite_hit_unique(m0, value, r2, c2, r, c, j);
                        }
                    };
                    assert(g_before[j] == m0.graphics[j]);
                    // The blit of this cell extends the toggled region by j.
                    assert(forall|i: int| 0 <= i < SCREEN_SIZE ==> (sprite_covers_before(
                        m0,
                        value,
                        r,
                        c + 1,
                        i,
                    ) <==> (sprite_covers_before(m0, value, r, c, i) || i == j))) by {
                        assert forall|i: int|
                            0 <= i < SCREEN_SIZE && sprite_covers_before(
                                m0,
                                value,
                                r,
                                c + 1,
                                i,
                            ) && i != j implies sprite_covers_before(m0, value, r, c, i) by {
                            let (r2, c2) = choose|r2: int, c2: int|
                                sprite_hit(m0, value, r2, c2, i) && (r2 < r || (r2 == r && c2 < c
                                    + 1));
                            if r2 == r && c2 == c {
                                assert(i == j);
                            }
                            assert(sprite_hit(m0, value, r2, c2, i) && (r2 < r || (r2 == r && c2
                                < c)));
                        };
                        assert(sprite_hit(m0, value, r, c, j) && (r < r || (r == r && c < c + 1)));
                    };
                } else {
                    // Clipped or dark sprite cell: nothing is toggled.
                    assert(forall|i: int| !sprite_hit(m0, value, r, c, i));
                    assert(forall|i: int| 0 <= i < SCREEN_SIZE ==> (sprite_covers_before(
                        m0,
                        value,
                        r,
                        c + 1,
                        i,
                    ) <==> sprite_covers_before(m0, value, r, c, i))) by {
                        assert forall|i: int|
                            0 <= i < SCREEN_SIZE && sprite_covers_before(
                                m0,
                                value,
                                r,
                                c + 1,
                                i,
                            ) implies sprite_covers_before(m0, value, r, c, i) by {
                            let (r2, c2) = choose|r2: int, c2: int|
                                sprite_hit(m0, value, r2, c2, i) && (r2 < r || (r2 == r && c2 < c
                                    + 1));
                            assert(!(r2 == r && c2 == c));
                            assert(sprite_hit(m0, value, r2, c2, i) && (r2 < r || (r2 == r && c2
                                < c)));
                        };
                    };
                }
            }
            flipped = flipped || did_flip;
            col += 1;
        }
        proof {
            // Standing past the last column is standing at the next row.
            let r = row as int;
            assert(forall|i: int| 0 <= i < SCREEN_SIZE ==> (sprite_covers_before(
                m0,
                value,
                r,
                8,
                i,
            ) <==> sprite_covers_before(m0, value, r + 1, 0, i))) by {
                assert forall|i: int|
                    0 <= i < SCREEN_SIZE && sprite_covers_before(
                        m0,
                        value,
                        r,
                        8,
                        i,
                    ) implies sprite_covers_before(m0, value, r + 1, 0, i) by {
                    let (r2, c2) = choose|r2: int, c2: int|
                        sprite_hit(m0, value, r2, c2, i) && (r2 < r || (r2 == r && c2 < 8));
                    assert(sprite_hit(m0, value, r2, c2, i) && r2 < r + 1);
                };
                assert forall|i: int|
                    0 <= i < SCREEN_SIZE && sprite_covers_before(
                        m0,
                        value,
                        r + 1,
                        0,
                        i,
                    ) implies sprite_covers_before(m0, value, r, 8, i) by {
                    let (r2, c2) = choose|r2: int, c2: int|
                        sprite_hit(m0, value, r2, c2, i) && r2 < r + 1;
                    assert(sprite_hit(m0, value, r2, c2, i) && (r2 < r || (r2 == r && c2 < 8)));
                };
            };
        }
        row += 1;
    }

    let vf: u8 = if flipped {
        1
    } else {
        0
    };
    emu.registers[15] = vf;

    proof {
        // Having blitted every row is having blitted the whole sprite.
        assert(forall|i: int| 0 <= i < SCREEN_SIZE ==> (sprite_covers_before(
            m0,
            value,
            h as int,
            0,
            i,
        ) <==> sprite_covers(m0, value, i))) by {
            assert forall|i: int|
                0 <= i < SCREEN_SIZE && sprite_covers(m0, value, i) implies sprite_covers_before(
                m0,
                value,
                h as int,
                0,
                i,
            ) by {
                let (r2, c2) = choose|r2: int, c2: int| sprite_hit(m0, value, r2, c2, i);
                assert(sprite_hit(m0, value, r2, c2, i) && (r2 < h as int || (r2 == h as int && c2
                    < 0)));
            };
        };
        assert(emu@ =~= spec_draw(old(emu)@, value)->Ok_0);
    }
    Ok(())
}

/// Law: a call followed at once by a return restores the stack to its
/// pre-call state and leaves the program counter two bytes past the call
/// site; nothing else of the machine moves.
pub proof fn lemma_call_return_round_trip(m: EmuView, value: u16)
    requires
        m.wf(),
        value < 0x1000,
        m.stack.len() < STACK_DEPTH,
        m.program_counter + 2 <= MEMORY_SIZE,
    ensures
        spec_call(m, value) is Ok,
        spec_return(spec_call(m, value)->Ok_0) is Ok,
        spec_return(spec_call(m, value)->Ok_0)->Ok_0 == (EmuView {
            program_counter: m.program_counter + 2,
            ..m
        }),
{
    let m1 = spec_call(m, value)->Ok_0;
    assert(m1.stack.last() == m.program_counter as u16);
    assert(m1.stack.drop_last() =~= m.stack);
    assert(spec_return(m1)->Ok_0 =~= (EmuView { program_counter: m.program_counter + 2, ..m }));
}

/// Law: drawing the same sprite twice at the same coordinates restores the
/// prior framebuffer (the XOR blit is its own inverse), and the second draw
/// collides exactly when the first draw turned some pixel on. The coordinate
/// registers must not be the flag register, which the first draw overwrites.
pub proof fn lemma_draw_twice(m: EmuView, value: u16)
    requires
        m.wf(),
        value < 0x1000,
        op_x(value) != 15,
        op_y(value) != 15,
        spec_draw(m, value) is Ok,
    ensures
        spec_draw(spec_draw(m, value)->Ok_0, value) is Ok,
        spec_draw(spec_draw(m, value)->Ok_0, value)->Ok_0.graphics =~= m.graphics,
        spec_draw(spec_draw(m, value)->Ok_0, value)->Ok_0.registers[15] == 1 <==> exists|i: int|
            0 <= i < SCREEN_SIZE && sprite_covers(m, value, i) && m.graphics[i] == Pixel::OFF,
{
    lemma_payload_fields(value);
    let m1 = spec_draw(m, value)->Ok_0;
    let m2 = spec_draw(m1, value)->Ok_0;

    // The first draw moves neither the sprite bytes nor the coordinate
    // registers, so both draws toggle the same cells.
    assert(m1.memory == m.memory);
    assert(m1.index_register == m.index_register);
    assert(m1.registers[op_x(value)] == m.registers[op_x(value)]);
    assert(m1.registers[op_y(value)] == m.registers[op_y(value)]);
    assert(forall|i: int| sprite_covers(m1, value, i) <==> sprite_covers(m, value, i)) by {
        assert forall|i: int| sprite_covers(m1, value, i) implies sprite_covers(
            m,
            value,
            i,
        ) by {
            let (r, c) = choose|r: int, c: int| sprite_hit(m1, value, r, c, i);
            assert(sprite_hit(m, value, r, c, i));
        };
        assert forall|i: int| sprite_covers(m, value, i) implies sprite_covers(
            m1,
            value,
            i,
        ) by {
            let (r, c) = choose|r: int, c: int| sprite_hit(m, value, r, c, i);
            assert(sprite_hit(m1, value, r, c, i));
        };
    };

    // Toggling a cell twice restores it; an untoggled cell never moved.
    assert(m2.graphics =~= m.graphics);

    // On a covered cell the first draw left the opposite state, so the second
    // draw collides exactly on the cells the first draw lit.
    assert(m2.registers[15] == 1 <==> spec_draw_collision(m1, value));
    assert(spec_draw_collision(m1, value) <==> exists|i: int|
        0 <= i < SCREEN_SIZE && sprite_covers(m, value, i) && m.graphics[i] == Pixel::OFF) by {
        if spec_draw_collision(m1, value) {
            let i = choose|i: int|
                0 <= i < SCREEN_SIZE && sprite_covers(m1, value, i) && m1.graphics[i]
                    == Pixel::ON;
            assert(m1.graphics[i] == m.graphics[i].spec_not());
            assert(sprite_covers(m, value, i) && m.graphics[i] == Pixel::OFF);
        }
        if exists|i: int|
            0 <= i < SCREEN_SIZE && sprite_covers(m, value, i) && m.graphics[i] == Pixel::OFF {
            let i = choose|i: int|
                0 <= i < SCREEN_SIZE && sprite_covers(m, value, i) && m.graphics[i]
                    == Pixel::OFF;
            assert(sprite_covers(m1, value, i) && m1.graphics[i] == Pixel::ON);
        }
    };
}

/// The machine after an instruction of the misc family, selected by the low
/// byte of the payload:
/// - 0x07: register X receives the delay timer.
/// - 0x0A: the machine suspends until a fresh keypress, which will land in
///   register X; the current pressed-key count is the baseline.
/// - 0x15 / 0x18: the delay / sound timer receives register X.
/// - 0x1E: the index register grows by register X; an address past memory is
///   out of bounds.
/// - 0x29: the index register points at the font glyph for register X.
/// - 0x33: the three decimal digits of register X go to memory at the index
///   register; a write past memory is out of bounds.
/// - 0x55 / 0x65: registers 0 through X are copied to / loaded from memory at
///   the index register; a transfer past memory is out of bounds.
/// - any other low byte is not an instruction of this machine.
pub open spec fn spec_misc_opcodes(m: EmuView, value: u16) -> Result<EmuView, Chip8Error> {
    let x = op_x(value);
    let sub = op_nn(value);
    let index = m.index_register as int;
    if sub == 0x07 {
        Ok(
            EmuView {
                registers: m.registers.update(x, m.delay_timer),
                program_counter: m.program_counter + 2,
                ..m
            },
        )
    } else if sub == 0x0A {
        Ok(
            EmuView {
                key_wait: Some(
                    KeyWait { target: x as u8, baseline: m.number_of_keys_pressed },
                ),
                program_counter: m.program_counter + 2,
                ..m
            },
        )
    } else if sub == 0x15 {
        Ok(
            EmuView {
                delay_timer: m.registers[x],
                program_counter: m.program_counter + 2,
                ..m
            },
        )
    } else if sub == 0x18 {
        Ok(
            EmuView {
                sound_timer: m.registers[x],
                program_counter: m.program_counter + 2,
                ..m
            },
        )
    } else if sub == 0x1E {
        if index + m.registers[x] >= MEMORY_SIZE {
            Err(Chip8Error::MemoryOutOfBounds)
        } else {
            Ok(
                EmuView {
                    index_register: (index + m.registers[x]) as u16,
                    program_counter: m.program_counter + 2,
                    ..m
                },
            )
        }
    } else if sub == 0x29 {
        Ok(
            EmuView {
                index_register: (FONTSET_LOC + 5 * m.registers[x]) as u16,
                program_counter: m.program_counter + 2,
                ..m
            },
        )
    } else if sub == 0x33 {
        if index + 3 > MEMORY_SIZE {
            Err(Chip8Error::MemoryOutOfBounds)
        } else {
            Ok(
                EmuView {
                    memory: m.memory.update(index, (m.registers[x] / 100) as u8).update(
                        index + 1,
                        ((m.registers[x] / 10) % 10) as u8,
                    ).update(index + 2, (m.registers[x] % 10) as u8),
                    program_counter: m.program_counter + 2,
                    ..m
                },
            )
        }
    } else if sub == 0x55 {
        if index + x + 1 > MEMORY_SIZE {
            Err(Chip8Error::MemoryOutOfBounds)
        } else {
            Ok(
                EmuView {
                    memory: Seq::new(MEMORY_SIZE as nat, |i: int| if index <= i <= index + x {
                        m.registers[i - index]
                    } else {
                        m.memory[i]
                    }),
                    program_counter: m.program_counter + 2,
                    ..m
                },
            )
        }
    } else if sub == 0x65 {
        if index + x + 1 > MEMORY_SIZE {
            Err(Chip8Error::MemoryOutOfBounds)
        } else {
            Ok(
                EmuView {
                    registers: Seq::new(NUM_REGISTERS as nat, |i: int| if 0 <= i <= x {
                        m.memory[index + i]
                    } else {
                        m.registers[i]
                    }),
                    program_counter: m.program_counter + 2,
                    ..m
                },
            )
        }
    } else {
        Err(Chip8Error::InvalidOpcode)
    }
}

/// The misc family: timer reads and writes, the keypress wait, index
/// arithmetic, font lookup, decimal store and the register block transfers.
/// See [`spec_misc_opcodes`] for the meaning of each low byte.
pub fn misc_opcodes(emu: &mut Emulator, value: u16) -> (r: Result<(), Chip8Error>)
    requires
        old(emu)@.wf(),
        value < 0x1000,
        old(emu)@.program_counter + 2 <= MEMORY_SIZE,
    ensures
        final(emu)@.wf(),
        match r {
            Ok(()) => spec_misc_opcodes(old(emu)@, value) == Ok::<EmuView, Chip8Error>(
                final(emu)@,
            ),
            Err(e) => spec_misc_opcodes(old(emu)@, value) == Err::<EmuView, Chip8Error>(e)
                && final(emu)@ == old(emu)@,
        },
{
    proof {
        lemma_payload_fields(value);
    }
    let xi = (value >> 8u16) as usize;
    let instruction = (value & 0x0FF) as u8;

    match instruction {
        0x07 => {
            emu.registers[xi] = emu.delay_timer;
        },
        0x0A => {
            emu.key_wait = Some(
                KeyWait { target: xi as u8, baseline: emu.number_of_keys_pressed },
            );
        },
        0x15 => {
            emu.delay_timer = emu.registers[xi];
        },
        0x18 => {
            emu.sound_timer = emu.registers[xi];
        },
        0x1E => {
            let new_index = emu.index_register as u32 + emu.registers[xi] as u32;
            if new_index >= MEMORY_SIZE as u32 {
                return Err(Chip8Error::MemoryOutOfBounds);
            }
            emu.index_register = new_index as u16;
        },
        0x29 => {
            emu.index_register = FONTSET_LOC + 5 * (emu.registers[xi] as u16);
        },
        0x33 => {
            if emu.index_register as usize + 3 > MEMORY_SIZE {
                return Err(Chip8Error::MemoryOutOfBounds);
            }
            let base = emu.index_register as usize;
            let bcd = get_binary_coded_decimal(emu.registers[xi]);
            emu.memory[base] = bcd.0;
            emu.memory[base + 1] = bcd.1;
            emu.memory[base + 2] = bcd.2;
        },
        0x55 => {
            if emu.index_register as usize + xi + 1 > MEMORY_SIZE {
                return Err(Chip8Error::MemoryOutOfBounds);
            }
            let base = emu.index_register as usize;
            let mut i: usize = 0;
            while i < xi + 1
                invariant
                    old(emu)@.wf(),
                    xi < NUM_REGISTERS,
                    base == old(emu)@.index_register,
                    base + xi + 1 <= MEMORY_SIZE,
                    i <= xi + 1,
                    emu@ == (EmuView { memory: emu@.memory, ..old(emu)@ }),
                    emu@.memory.len() == MEMORY_SIZE,
                    forall|k: int| 0 <= k < MEMORY_SIZE ==> emu@.memory[k] == (if base <= k < base
                        + i {
                        old(emu)@.registers[k - base]
                    } else {
                        old(emu)@.memory[k]
                    }),
                decreases xi + 1 - i,
            {
                emu.memory[base + i] = emu.registers[i];
                i += 1;
            }
        },
        0x65 => {
            if emu.index_register as usize + xi + 1 > MEMORY_SIZE {
                return Err(Chip8Error::MemoryOutOfBounds);
            }
            let base = emu.index_register as usize;
            let mut i: usize = 0;
            while i < xi + 1
                invariant
                    old(emu)@.wf(),
                    xi < NUM_REGISTERS,
                    base == old(emu)@.index_register,
                    base + xi + 1 <= MEMORY_SIZE,
                    i <= xi + 1,
                    emu@ == (EmuView { registers: emu@.registers, ..old(emu)@ }),
                    emu@.registers.len() == NUM_REGISTERS,
                    forall|k: int| 0 <= k < NUM_REGISTERS ==> emu@.registers[k] == (if 0 <= k < i {
                        old(emu)@.memory[base + k]
                    } else {
                        old(emu)@.registers[k]
                    }),
                decreases xi + 1 - i,
            {
                emu.registers[i] = emu.memory[base + i];
                i += 1;
            }
        },
        _ => {
            return Err(Chip8Error::InvalidOpcode);
        },
    }

    emu.program_counter = emu.program_counter + 2;
    proof {
        assert(emu@ =~= spec_misc_opcodes(old(emu)@, value)->Ok_0);
    }
    Ok(())
}

/// Decompose an eight-bit value into its three decimal digits: hundreds,
/// tens, ones.
pub fn get_binary_coded_decimal(value: u8) -> (r: (u8, u8, u8))
    ensures
        r.0 == value / 100,
        r.1 == (value / 10) % 10,
        r.2 == value % 10,
{
    (value / 100, (value / 10) % 10, value % 10)
}

} // verus!
