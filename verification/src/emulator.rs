//! Machine state of the virtual machine and the per-step driver.
//!
//! [`Emulator`] is the authoritative mutable record: memory, registers, index
//! register, program counter, call stack, timers, keypad state, framebuffer
//! and the transient per-step flags. Its ghost abstraction is [`EmuView`],
//! over which every contract in this crate is stated.

use vstd::prelude::*;

use crate::opcodes;
use crate::opcodes::spec_add_to_register;
use crate::opcodes::spec_call;
use crate::opcodes::spec_draw;
use crate::opcodes::spec_goto;
use crate::opcodes::spec_goto_plus_register;
use crate::opcodes::spec_maths_ops;
use crate::opcodes::spec_misc_opcodes;
use crate::opcodes::spec_rand;
use crate::opcodes::spec_set_index_register;
use crate::opcodes::spec_set_register;
use crate::opcodes::spec_skip_equals;
use crate::opcodes::spec_skip_false;
use crate::opcodes::spec_skip_not_equals;
use crate::opcodes::spec_skip_pressed;
use crate::opcodes::spec_skip_true;
use crate::opcodes::spec_system;

verus! {

/// Width of the framebuffer in pixels.
pub const SCREEN_WIDTH: u16 = 64;

/// Height of the framebuffer in pixels.
pub const SCREEN_HEIGHT: u16 = 32;

/// Number of pixels in the framebuffer (row-major, index = y * 64 + x).
pub const SCREEN_SIZE: usize = 2048;

/// Size of the byte-addressable memory.
pub const MEMORY_SIZE: usize = 4096;

/// Number of general registers.
pub const NUM_REGISTERS: usize = 16;

/// Capacity of the call stack.
pub const STACK_DEPTH: usize = 16;

/// Number of keys on the pad.
pub const NUM_KEYS: usize = 16;

/// Offset at which a loaded program starts; the program counter's initial value.
pub const PROGRAM_LOC: usize = 0x200;

/// Offset at which the built-in font is installed.
pub const FONTSET_LOC: u16 = 0x050;

/// Largest loadable program image: memory from `PROGRAM_LOC` to the end.
pub const MAX_PROGRAM_SIZE: usize = 3584;

/// Length of the timer period, one sixtieth of a second, in nanoseconds
/// (rounded up, so that an accumulated `TICK_NANOS` is never under 1/60 s).
pub const TICK_NANOS: u64 = 16_666_667;

/// State of one framebuffer pixel.
#[derive(Copy, Clone, PartialEq, Eq, Structural, Debug)]
pub enum Pixel {
    ON,
    OFF,
}

/// State of one key of the pad.
#[derive(Copy, Clone, PartialEq, Eq, Structural, Debug)]
pub enum KeyState {
    DOWN,
    UP,
}

/// The failure conditions a step can signal. A step that returns one of these
/// has not executed its instruction; the caller should treat the machine as
/// halted rather than continue with corrupted state.
#[derive(Copy, Clone, PartialEq, Eq, Structural, Debug)]
pub enum Chip8Error {
    /// A program image larger than `MAX_PROGRAM_SIZE` was offered.
    LoadFailure,
    /// The fetched instruction word matches no opcode of the machine.
    InvalidOpcode,
    /// A call was made with the 16-entry stack already full.
    StackOverflow,
    /// A return was made with the stack empty.
    StackUnderflow,
    /// A computed address (instruction fetch, sprite read, decimal store,
    /// register dump or load, index increment) falls outside memory.
    MemoryOutOfBounds,
}

/// The suspended state of the "wait for a keypress" instruction: the machine
/// polls the pressed-key counter instead of fetching, until a fresh key-down
/// raises the counter above the recorded baseline.
#[derive(Copy, Clone, PartialEq, Eq, Structural, Debug)]
pub struct KeyWait {
    /// Register that receives the key once one is pressed.
    pub target: u8,
    /// Pressed-key count against which a new press is detected; lowered
    /// whenever the count falls below it.
    pub baseline: u32,
}

impl Pixel {
    /// The opposite pixel state.
    pub open spec fn spec_not(self) -> Pixel {
        match self {
            Pixel::ON => Pixel::OFF,
            Pixel::OFF => Pixel::ON,
        }
    }

    /// Toggle: the XOR of a pixel with an ON pixel.
    pub fn not(self) -> (r: Pixel)
        ensures
            r == self.spec_not(),
    {
        match self {
            Pixel::ON => Pixel::OFF,
            Pixel::OFF => Pixel::ON,
        }
    }
}

/// The machine state. All fields are public so that a driver can observe the
/// machine between steps; the verified methods require and preserve
/// [`EmuView::wf`].
pub struct Emulator {
    /// 4096 bytes: reserved area, font at `FONTSET_LOC`, program at `PROGRAM_LOC`.
    pub memory: Vec<u8>,
    /// The 16 general registers; register 0xF doubles as the flag register.
    pub registers: Vec<u8>,
    /// 16-bit memory base address used by draw, decimal store and block transfer.
    pub index_register: u16,
    /// Offset into memory of the next instruction word.
    pub program_counter: usize,
    /// 64x32 monochrome framebuffer, row-major.
    pub graphics: Vec<Pixel>,
    /// Countdown register decremented once per timer period.
    pub delay_timer: u8,
    /// Countdown register decremented once per timer period; drives the tone.
    pub sound_timer: u8,
    /// Return addresses of the calls in progress, deepest last; at most 16.
    pub stack: Vec<u16>,
    /// Current state of the 16 keys.
    pub keys: Vec<KeyState>,
    /// How many keys are currently held, floored at zero.
    pub number_of_keys_pressed: u32,
    /// The key most recently pressed down.
    pub last_key_pressed: u8,
    /// Transient: a sprite was drawn this step.
    pub draw: bool,
    /// Transient: the screen was cleared this step.
    pub clear: bool,
    /// Transient: the sound timer reached 1 on this step's timer tick.
    pub tone: bool,
    /// When set, the machine is suspended waiting for a keypress.
    pub key_wait: Option<KeyWait>,
    /// Elapsed time not yet folded into a timer tick, in nanoseconds.
    pub hz_counter: u64,
}

/// Ghost abstraction of the whole machine state, field for field.
#[verifier::ext_equal]
pub ghost struct EmuView {
    pub memory: Seq<u8>,
    pub registers: Seq<u8>,
    pub index_register: u16,
    pub program_counter: int,
    pub graphics: Seq<Pixel>,
    pub delay_timer: u8,
    pub sound_timer: u8,
    pub stack: Seq<u16>,
    pub keys: Seq<KeyState>,
    pub number_of_keys_pressed: u32,
    pub last_key_pressed: u8,
    pub draw: bool,
    pub clear: bool,
    pub tone: bool,
    pub key_wait: Option<KeyWait>,
    pub hz_counter: u64,
}

impl View for Emulator {
    type V = EmuView;

    open spec fn view(&self) -> EmuView {
        EmuView {
            memory: self.memory@,
            registers: self.registers@,
            index_register: self.index_register,
            program_counter: self.program_counter as int,
            graphics: self.graphics@,
            delay_timer: self.delay_timer,
            sound_timer: self.sound_timer,
            stack: self.stack@,
            keys: self.keys@,
            number_of_keys_pressed: self.number_of_keys_pressed,
            last_key_pressed: self.last_key_pressed,
            draw: self.draw,
            clear: self.clear,
            tone: self.tone,
            key_wait: self.key_wait,
            hz_counter: self.hz_counter,
        }
    }
}

impl EmuView {
    /// Well-formedness: the sizes of the fixed-size parts of the machine,
    /// the stack depth bound, a waiting target that is a register, and a
    /// timer accumulator strictly below one period.
    pub open spec fn wf(self) -> bool {
        &&& self.memory.len() == MEMORY_SIZE
        &&& self.registers.len() == NUM_REGISTERS
        &&& self.graphics.len() == SCREEN_SIZE
        &&& self.stack.len() <= STACK_DEPTH
        &&& self.keys.len() == NUM_KEYS
        &&& self.program_counter >= 0
        &&& match self.key_wait {
            Some(w) => w.target < 16,
            None => true,
        }
        &&& self.hz_counter < TICK_NANOS
    }
}

/// The built-in font: 16 glyphs (digits 0 through F), 5 bytes each.
pub open spec fn spec_fontset() -> Seq<u8> {
    seq![
        0xF0u8, 0x90, 0x90, 0x90, 0xF0, // 0
        0x20, 0x60, 0x20, 0x20, 0x70, // 1
        0xF0, 0x10, 0xF0, 0x80, 0xF0, // 2
        0xF0, 0x10, 0xF0, 0x10, 0xF0, // 3
        0x90, 0x90, 0xF0, 0x10, 0x10, // 4
        0xF0, 0x80, 0xF0, 0x10, 0xF0, // 5
        0xF0, 0x80, 0xF0, 0x90, 0xF0, // 6
        0xF0, 0x10, 0x20, 0x40, 0x40, // 7
        0xF0, 0x90, 0xF0, 0x90, 0xF0, // 8
        0xF0, 0x90, 0xF0, 0x10, 0xF0, // 9
        0xF0, 0x90, 0xF0, 0x90, 0x90, // A
        0xE0, 0x90, 0xE0, 0x90, 0xE0, // B
        0xF0, 0x80, 0x80, 0x80, 0xF0, // C
        0xE0, 0x90, 0x90, 0x90, 0xE0, // D
        0xF0, 0x80, 0xF0, 0x80, 0xF0, // E
        0xF0, 0x80, 0xF0, 0x80, 0x80, // F
    ]
}

/// The font as bytes, for installation into memory.
fn fontset() -> (v: Vec<u8>)
    ensures
        v@ == spec_fontset(),
{
    let v: Vec<u8> = vec![
        0xF0u8, 0x90, 0x90, 0x90, 0xF0, // 0
        0x20, 0x60, 0x20, 0x20, 0x70, // 1
        0xF0, 0x10, 0xF0, 0x80, 0xF0, // 2
        0xF0, 0x10, 0xF0, 0x10, 0xF0, // 3
        0x90, 0x90, 0xF0, 0x10, 0x10, // 4
        0xF0, 0x80, 0xF0, 0x10, 0xF0, // 5
        0xF0, 0x80, 0xF0, 0x90, 0xF0, // 6
        0xF0, 0x10, 0x20, 0x40, 0x40, // 7
        0xF0, 0x90, 0xF0, 0x90, 0xF0, // 8
        0xF0, 0x90, 0xF0, 0x10, 0xF0, // 9
        0xF0, 0x90, 0xF0, 0x90, 0x90, // A
        0xE0, 0x90, 0xE0, 0x90, 0xE0, // B
        0xF0, 0x80, 0x80, 0x80, 0xF0, // C
        0xE0, 0x90, 0x90, 0x90, 0xE0, // D
        0xF0, 0x80, 0xF0, 0x80, 0xF0, // E
        0xF0, 0x80, 0xF0, 0x80, 0x80, // F
    ];
    proof {
        assert(v@ =~= spec_fontset());
    }
    v
}

/// The machine as built at program load: font installed at `FONTSET_LOC`,
/// the rest of memory zero, the program counter at `PROGRAM_LOC`, and every
/// other part of the state zero, released or dark.
pub open spec fn spec_new() -> EmuView {
    EmuView {
        memory: Seq::new(MEMORY_SIZE as nat, |i: int| if FONTSET_LOC <= i < FONTSET_LOC + 80 {
            spec_fontset()[i - FONTSET_LOC]
        } else {
            0u8
        }),
        registers: Seq::new(NUM_REGISTERS as nat, |i: int| 0u8),
        index_register: 0,
        program_counter: PROGRAM_LOC as int,
        graphics: Seq::new(SCREEN_SIZE as nat, |i: int| Pixel::OFF),
        delay_timer: 0,
        sound_timer: 0,
        stack: Seq::empty(),
        keys: Seq::new(NUM_KEYS as nat, |i: int| KeyState::UP),
        number_of_keys_pressed: 0,
        last_key_pressed: 0,
        draw: false,
        clear: false,
        tone: false,
        key_wait: None,
        hz_counter: 0,
    }
}

/// The big-endian 16-bit instruction word at offset `pc` of `mem`.
pub open spec fn spec_opcode_at(mem: Seq<u8>, pc: int) -> u16 {
    ((mem[pc] as u16) << 8) | (mem[pc + 1] as u16)
}

/// The machine after an XOR-blit of `pixel` at `(x, y)`, paired with the
/// collision result: coordinates off the 64x32 frame are dropped, an ON pixel
/// toggles the framebuffer cell, and a collision is a toggle from ON to OFF.
pub open spec fn spec_set_pixel(m: EmuView, x: u16, y: u16, pixel: Pixel) -> (EmuView, bool) {
    if x < SCREEN_WIDTH && y < SCREEN_HEIGHT {
        let i = y * SCREEN_WIDTH + x;
        let before = m.graphics[i as int];
        let after = if pixel == Pixel::ON {
            before.spec_not()
        } else {
            before
        };
        (
            EmuView { graphics: m.graphics.update(i as int, after), ..m },
            pixel == Pixel::ON && before == Pixel::ON,
        )
    } else {
        (m, false)
    }
}

/// The machine after `delta` nanoseconds have elapsed: once the accumulator
/// reaches a full timer period it resets and both timers decay by one (floored
/// at zero), and the tone fires when the sound timer lands on exactly 1.
pub open spec fn spec_tick(m: EmuView, delta: u64) -> EmuView {
    if m.hz_counter + delta >= TICK_NANOS {
        EmuView {
            hz_counter: 0,
            delay_timer: if m.delay_timer > 0 {
                (m.delay_timer - 1) as u8
            } else {
                0
            },
            sound_timer: if m.sound_timer > 0 {
                (m.sound_timer - 1) as u8
            } else {
                0
            },
            tone: m.tone || m.sound_timer == 2,
            ..m
        }
    } else {
        EmuView { hz_counter: (m.hz_counter + delta) as u64, ..m }
    }
}

/// The machine after a key changes state: the key's entry is updated, the
/// pressed-key counter moves by one (floored at zero, saturated at the top),
/// and a key going down is recorded as the last key pressed.
pub open spec fn spec_set_key(m: EmuView, key: u8, state: KeyState) -> EmuView {
    EmuView {
        keys: m.keys.update(key as int, state),
        number_of_keys_pressed: match state {
            KeyState::UP => if m.number_of_keys_pressed > 0 {
                (m.number_of_keys_pressed - 1) as u32
            } else {
                0
            },
            KeyState::DOWN => if m.number_of_keys_pressed < u32::MAX {
                (m.number_of_keys_pressed + 1) as u32
            } else {
                u32::MAX
            },
        },
        last_key_pressed: if state == KeyState::DOWN {
            key
        } else {
            m.last_key_pressed
        },
        ..m
    }
}

/// The machine after a program image is copied in at `PROGRAM_LOC`; nothing
/// else moves.
pub open spec fn spec_load(m: EmuView, program: Seq<u8>) -> EmuView {
    EmuView {
        memory: Seq::new(MEMORY_SIZE as nat, |i: int| if PROGRAM_LOC <= i < PROGRAM_LOC
            + program.len() {
            program[i - PROGRAM_LOC]
        } else {
            m.memory[i]
        }),
        ..m
    }
}

/// The machine with its transient per-step flags lowered, as at the start of
/// every step.
pub open spec fn spec_clear_flags(m: EmuView) -> EmuView {
    EmuView { draw: false, clear: false, tone: false, ..m }
}

/// The machine after the timer subsystem sees the step's time delta, if one
/// was supplied.
pub open spec fn spec_tick_opt(m: EmuView, delta: Option<u64>) -> EmuView {
    match delta {
        Some(d) => spec_tick(m, d),
        None => m,
    }
}

/// One poll of a machine suspended on the keypress wait `w`: a pressed-key
/// count below the baseline lowers the baseline, a count above it means a
/// fresh press, which lands in the target register and ends the wait; an
/// unchanged count leaves the machine as it is.
pub open spec fn spec_poll_key(m: EmuView, w: KeyWait) -> EmuView {
    if m.number_of_keys_pressed < w.baseline {
        EmuView {
            key_wait: Some(KeyWait { target: w.target, baseline: m.number_of_keys_pressed }),
            ..m
        }
    } else if m.number_of_keys_pressed > w.baseline {
        EmuView {
            registers: m.registers.update(w.target as int, m.last_key_pressed),
            key_wait: None,
            ..m
        }
    } else {
        m
    }
}

/// The machine after the instruction word `opcode` executes, routed on the
/// word's top nibble to the handler of its family. The byte `b` stands for
/// whatever the random generator produced; only the random family reads it.
pub open spec fn spec_dispatch(m: EmuView, opcode: u16, b: u8) -> Result<EmuView, Chip8Error> {
    let family = opcode >> 12u16;
    let value = opcode & 0x0FFF;
    if family == 0x0 {
        spec_system(m, value)
    } else if family == 0x1 {
        Ok(spec_goto(m, value))
    } else if family == 0x2 {
        spec_call(m, value)
    } else if family == 0x3 {
        Ok(spec_skip_true(m, value))
    } else if family == 0x4 {
        Ok(spec_skip_false(m, value))
    } else if family == 0x5 {
        Ok(spec_skip_equals(m, value))
    } else if family == 0x6 {
        Ok(spec_set_register(m, value))
    } else if family == 0x7 {
        Ok(spec_add_to_register(m, value))
    } else if family == 0x8 {
        spec_maths_ops(m, value)
    } else if family == 0x9 {
        Ok(spec_skip_not_equals(m, value))
    } else if family == 0xA {
        Ok(spec_set_index_register(m, value))
    } else if family == 0xB {
        Ok(spec_goto_plus_register(m, value))
    } else if family == 0xC {
        Ok(spec_rand(m, value, b))
    } else if family == 0xD {
        spec_draw(m, value)
    } else if family == 0xE {
        spec_skip_pressed(m, value)
    } else {
        spec_misc_opcodes(m, value)
    }
}

/// The machine after one whole step, given the time delta the driver supplies
/// and the byte `b` the random generator would produce: the transient flags
/// drop, the timers advance, and then either the suspended keypress wait is
/// polled, or the instruction word at the program counter is fetched and
/// executed. A fetch with less than two bytes of memory left is out of
/// bounds.
pub open spec fn spec_step(m: EmuView, delta: Option<u64>, b: u8) -> Result<EmuView, Chip8Error> {
    let t = spec_tick_opt(spec_clear_flags(m), delta);
    match t.key_wait {
        Some(w) => Ok(spec_poll_key(t, w)),
        None => if t.program_counter + 2 <= MEMORY_SIZE {
            spec_dispatch(t, spec_opcode_at(t.memory, t.program_counter), b)
        } else {
            Err(Chip8Error::MemoryOutOfBounds)
        },
    }
}

impl Emulator {
    /// Build a fresh machine: all memory zero but for the font, the program
    /// counter at the program area, all keys up, the screen dark.
    pub fn new() -> (emu: Emulator)
        ensures
            emu@ == spec_new(),
            emu@.wf(),
    {
        let mut memory: Vec<u8> = vec![0u8; MEMORY_SIZE];
        let font = fontset();
        let mut i: usize = 0;
        while i < 80
            invariant
                memory@.len() == MEMORY_SIZE,
                font@ == spec_fontset(),
                i <= 80,
                forall|k: int| 0 <= k < MEMORY_SIZE ==> memory@[k] == (if FONTSET_LOC <= k
                    < FONTSET_LOC + i {
                    spec_fontset()[k - FONTSET_LOC]
                } else {
                    0u8
                }),
            decreases 80 - i,
        {
            memory[FONTSET_LOC as usize + i] = font[i];
            i += 1;
        }
        let emu = Emulator {
            memory,
            registers: vec![0u8; NUM_REGISTERS],
            index_register: 0,
            program_counter: PROGRAM_LOC,
            graphics: vec![Pixel::OFF; SCREEN_SIZE],
            delay_timer: 0,
            sound_timer: 0,
            stack: Vec::new(),
            keys: vec![KeyState::UP; NUM_KEYS],
            number_of_keys_pressed: 0,
            last_key_pressed: 0,
            draw: false,
            clear: false,
            tone: false,
            key_wait: None,
            hz_counter: 0,
        };
        proof {
            assert(emu@ =~= spec_new());
        }
        emu
    }

    /// Copy a program image into memory at `PROGRAM_LOC`. An image larger
    /// than the program area is refused whole, as a load failure.
    pub fn load_program(&mut self, program: &[u8]) -> (r: Result<(), Chip8Error>)
        requires
            old(self)@.wf(),
        ensures
            final(self)@.wf(),
            r is Ok <==> program@.len() <= MAX_PROGRAM_SIZE,
            match r {
                Ok(()) => final(self)@ == spec_load(old(self)@, program@),
                Err(e) => e == Chip8Error::LoadFailure && final(self)@ == old(self)@,
            },
    {
        if program.len() > MAX_PROGRAM_SIZE {
            return Err(Chip8Error::LoadFailure);
        }
        let mut i: usize = 0;
        while i < program.len()
            invariant
                old(self)@.wf(),
                program@.len() <= MAX_PROGRAM_SIZE,
                i <= program@.len(),
                self@ == (EmuView { memory: self@.memory, ..old(self)@ }),
                self@.memory.len() == MEMORY_SIZE,
                forall|k: int| 0 <= k < MEMORY_SIZE ==> self@.memory[k] == (if PROGRAM_LOC <= k
                    < PROGRAM_LOC + i {
                    program@[k - PROGRAM_LOC]
                } else {
                    old(self)@.memory[k]
                }),
            decreases program@.len() - i,
        {
            self.memory[PROGRAM_LOC + i] = program[i];
            i += 1;
        }
        proof {
            assert(self@ =~= spec_load(old(self)@, program@));
        }
        Ok(())
    }

    /// The pixel at `(x, y)`; coordinates must be on the 64x32 frame.
    pub fn get_pixel(&self, x: u16, y: u16) -> (r: Pixel)
        requires
            self@.wf(),
            x < SCREEN_WIDTH,
            y < SCREEN_HEIGHT,
        ensures
            r == self@.graphics[y * SCREEN_WIDTH + x],
    {
        self.graphics[(y * SCREEN_WIDTH + x) as usize]
    }

    /// XOR-blit one pixel at `(x, y)`, clipping at the screen edge, and
    /// report whether a lit pixel was turned off (a collision).
    pub fn set_pixel(&mut self, x: u16, y: u16, pixel: Pixel) -> (flipped: bool)
        requires
            old(self)@.wf(),
        ensures
            final(self)@.wf(),
            final(self)@ == spec_set_pixel(old(self)@, x, y, pixel).0,
            flipped == spec_set_pixel(old(self)@, x, y, pixel).1,
    {
        if x >= SCREEN_WIDTH || y >= SCREEN_HEIGHT {
            return false;
        }
        let i = (y * SCREEN_WIDTH + x) as usize;
        let previous = self.graphics[i];
        if pixel == Pixel::ON {
            self.graphics[i] = previous.not();
        }
        proof {
            assert(self@ =~= spec_set_pixel(old(self)@, x, y, pixel).0);
        }
        previous == Pixel::ON && pixel == Pixel::ON
    }

    /// Update one key of the pad.
    pub fn set_key(&mut self, key: u8, state: KeyState)
        requires
            old(self)@.wf(),
            key < NUM_KEYS as u8,
        ensures
            final(self)@.wf(),
            final(self)@ == spec_set_key(old(self)@, key, state),
    {
        match state {
            KeyState::UP => {
                if self.number_of_keys_pressed > 0 {
                    self.number_of_keys_pressed = self.number_of_keys_pressed - 1;
                }
            },
            KeyState::DOWN => {
                if self.number_of_keys_pressed < u32::MAX {
                    self.number_of_keys_pressed = self.number_of_keys_pressed + 1;
                }
                self.last_key_pressed = key;
            },
        }
        self.keys[key as usize] = state;
        proof {
            assert(self@ =~= spec_set_key(old(self)@, key, state));
        }
    }

    /// The current state of one key of the pad.
    pub fn get_key(&self, key: u8) -> (r: KeyState)
        requires
            self@.wf(),
            key < NUM_KEYS as u8,
        ensures
            r == self@.keys[key as int],
    {
        self.keys[key as usize]
    }

    /// Fetch the big-endian instruction word at the program counter.
    pub fn get_opcode(&self) -> (op: u16)
        requires
            self@.wf(),
            self@.program_counter + 2 <= MEMORY_SIZE,
        ensures
            op == spec_opcode_at(self@.memory, self@.program_counter),
    {
        ((self.memory[self.program_counter] as u16) << 8u16) | (self.memory[self.program_counter
            + 1] as u16)
    }

    /// Split an instruction word into its family (top 4 bits) and its 12-bit
    /// payload.
    pub fn deconstruct_opcode(opcode: u16) -> (r: (u8, u16))
        ensures
            r.0 == opcode >> 12u16,
            r.1 == opcode & 0x0FFF,
            r.0 < 16,
            r.1 < 0x1000,
    {
        let family = (opcode >> 12u16) as u8;
        let value = opcode & 0x0FFF;
        proof {
            assert(opcode >> 12u16 < 16 && opcode & 0x0FFF < 0x1000) by (bit_vector);
        }
        (family, value)
    }

    /// Run one step of the machine: lower the transient flags, advance the
    /// timers by `delta` nanoseconds (when one is supplied), then either poll
    /// a pending keypress wait or fetch, decode and execute the instruction
    /// at the program counter. See [`spec_step`].
    ///
    /// A failing step reports why and leaves the machine exactly as it stood
    /// after the flags and timers moved: the instruction did not execute, and
    /// the caller should treat the machine as halted.
    pub fn emulate_cycle(&mut self, delta: Option<u64>) -> (r: Result<(), Chip8Error>)
        requires
            old(self)@.wf(),
        ensures
            final(self)@.wf(),
            match r {
                Ok(()) => exists|b: u8|
                    spec_step(old(self)@, delta, b) == Ok::<EmuView, Chip8Error>(final(self)@),
                Err(e) => final(self)@ == spec_tick_opt(spec_clear_flags(old(self)@), delta)
                    && forall|b: u8|
                    spec_step(old(self)@, delta, b) == Err::<EmuView, Chip8Error>(e),
            },
    {
        // Reset the transient flags of the previous step.
        self.draw = false;
        self.clear = false;
        self.tone = false;
        proof {
            assert(self@ =~= spec_clear_flags(old(self)@));
        }
        match delta {
            Some(d) => self.handle_timers(d),
            None => (),
        }
        let ghost t = self@;
        assert(t == spec_tick_opt(spec_clear_flags(old(self)@), delta));

        // A machine suspended on the keypress wait polls instead of fetching.
        match self.key_wait {
            Some(w) => {
                if self.number_of_keys_pressed < w.baseline {
                    self.key_wait = Some(
                        KeyWait { target: w.target, baseline: self.number_of_keys_pressed },
                    );
                } else if self.number_of_keys_pressed > w.baseline {
                    let key = self.last_key_pressed;
                    self.registers[w.target as usize] = key;
                    self.key_wait = None;
                }
                proof {
                    assert(self@ =~= spec_poll_key(t, w));
                    assert(spec_step(old(self)@, delta, 0u8) == Ok::<EmuView, Chip8Error>(self@));
                }
                return Ok(());
            },
            None => (),
        }

        if self.program_counter > MEMORY_SIZE - 2 {
            return Err(Chip8Error::MemoryOutOfBounds);
        }

        let opcode = self.get_opcode();
        let (instruction, value) = Emulator::deconstruct_opcode(opcode);

        let result: Result<(), Chip8Error> = match instruction {
            0x0 => opcodes::system(self, value),
            0x1 => {
                opcodes::goto(self, value);
                Ok(())
            },
            0x2 => opcodes::call_subroutine(self, value),
            0x3 => {
                opcodes::skip_true(self, value);
                Ok(())
            },
            0x4 => {
                opcodes::skip_false(self, value);
                Ok(())
            },
            0x5 => {
                opcodes::skip_equals(self, value);
                Ok(())
            },
            0x6 => {
                opcodes::set_register(self, value);
                Ok(())
            },
            0x7 => {
                opcodes::add_to_register(self, value);
                Ok(())
            },
            0x8 => opcodes::maths_ops(self, value),
            0x9 => {
                opcodes::skip_not_equals(self, value);
                Ok(())
            },
            0xA => {
                opcodes::set_index_register(self, value);
                Ok(())
            },
            0xB => {
                opcodes::goto_plus_register(self, value);
                Ok(())
            },
            0xC => {
                opcodes::rand(self, value);
                Ok(())
            },
            0xD => opcodes::draw(self, value),
            0xE => opcodes::skip_pressed(self, value),
            _ => opcodes::misc_opcodes(self, value),
        };

        proof {
            assert(opcode == spec_opcode_at(t.memory, t.program_counter));
            match result {
                Ok(()) => {
                    if instruction == 0xC {
                        let b = choose|b: u8| self@ == opcodes::spec_rand(t, value, b);
                        assert(spec_step(old(self)@, delta, b) == Ok::<EmuView, Chip8Error>(
                            self@,
                        ));
                    } else {
                        assert(spec_step(old(self)@, delta, 0u8) == Ok::<EmuView, Chip8Error>(
                            self@,
                        ));
                    }
                },
                Err(e) => {
                    assert(forall|b: u8|
                        spec_step(old(self)@, delta, b) == Err::<EmuView, Chip8Error>(e));
                },
            }
        }
        result
    }

    /// Advance the timer subsystem by `delta` nanoseconds: see [`spec_tick`].
    /// The decay rate is one per `TICK_NANOS` however many instructions run.
    pub fn handle_timers(&mut self, delta: u64)
        requires
            old(self)@.wf(),
        ensures
            final(self)@.wf(),
            final(self)@ == spec_tick(old(self)@, delta),
    {
        let headroom = u64::MAX - self.hz_counter;
        if delta <= headroom && self.hz_counter + delta < TICK_NANOS {
            self.hz_counter = self.hz_counter + delta;
        } else {
            self.hz_counter = 0;
            if self.delay_timer > 0 {
                self.delay_timer = self.delay_timer - 1;
            }
            if self.sound_timer > 0 {
                self.sound_timer = self.sound_timer - 1;
                if self.sound_timer == 1 {
                    self.tone = true;
                }
            }
        }
        proof {
            assert(self@ =~= spec_tick(old(self)@, delta));
        }
    }
}

} // verus!
