//! The machine state: memory, registers, program counter, index
//! register, call stack, the two countdown timers and the display.
//!
//! The state is plain data; apart from construction, ROM loading and the
//! once-per-frame timer decrement, all mutation happens through the
//! instruction engine.

use vstd::prelude::*;

use crate::pixels::PixelSet;

verus! {

/// Total addressable memory in bytes.
pub const MEMORY_SIZE: usize = 4096;

/// First address of the 80-byte font sprite table.
pub const FONT_START_LOCATION: usize = 0x50;

/// First address of loaded program code, and the initial program counter.
pub const PROGRAM_START: u16 = 0x200;

/// The mathematical value of a machine state: every field as a sequence,
/// set or scalar that contracts can speak about directly.
pub ghost struct Chip8View {
    pub memory: Seq<u8>,
    pub display: Set<(int, int)>,
    pub v: Seq<u8>,
    pub pc: u16,
    pub i: u16,
    pub stack: Seq<u16>,
    pub dt: u8,
    pub st: u8,
}

impl Chip8View {
    /// The machine has its full memory and all sixteen registers.
    pub open spec fn wf(self) -> bool {
        self.memory.len() == MEMORY_SIZE && self.v.len() == 16
    }
}

/// The CHIP-8 machine state.
///
/// The fields are public: an external loader may copy ROM bytes into
/// `memory`, and a renderer reads `display` after each frame. The
/// verified operations require only [`Chip8::wf`], which direct field
/// access cannot break as long as `memory` keeps 4096 bytes and `v`
/// keeps 16.
pub struct Chip8 {
    /// Memory, 4096 bytes.
    pub memory: Vec<u8>,
    /// The lit pixels of the 64 x 32 black & white screen.
    pub display: PixelSet,
    /// Registers 0 through F.
    pub v: Vec<u8>,
    /// Program counter.
    pub pc: u16,
    /// Index register.
    pub i: u16,
    /// Stack of 16-bit return addresses.
    pub stack: Vec<u16>,
    /// Delay timer.
    pub dt: u8,
    /// Sound timer.
    pub st: u8,
}

impl View for Chip8 {
    type V = Chip8View;

    open spec fn view(&self) -> Chip8View {
        Chip8View {
            memory: self.memory@,
            display: self.display@,
            v: self.v@,
            pc: self.pc,
            i: self.i,
            stack: self.stack@,
            dt: self.dt,
            st: self.st,
        }
    }
}

/// The font sprite table: five bytes for each of the sixteen hex digits.
pub open spec fn font_seq() -> Seq<u8> {
    seq![
        0xF0u8, 0x90, 0x90, 0x90, 0xF0, // 0
        0x20, 0x60, 0x20, 0x20, 0x70, // 1
        0xF0, 0x10, 0xF0, 0x80, 0xF0, // 2
        0xF0, 0x10, 0xF0, 0x10, 0xF0, // 3
        0x90, 0x90, 0xF0, 0x10, 0x10, // 4
        0xF0, 0x80, 0xF0, 0x10, 0xF0, // 5
        0xF0, 0x80, 0xF0, 0x90, 0xF0, // 6
        0xF0, 0x10, 0x20, 0x40, 0x40, // 7
        0xF0, 0x90, 0xF0, 0x90, 0xF0, // 8
        0xF0, 0x90, 0xF0, 0x10, 0xF0, // 9
        0xF0, 0x90, 0xF0, 0x90, 0x90, // A
        0xE0, 0x90, 0xE0, 0x90, 0xE0, // B
        0xF0, 0x80, 0x80, 0x80, 0xF0, // C
        0xE0, 0x90, 0x90, 0x90, 0xE0, // D
        0xF0, 0x80, 0xF0, 0x80, 0xF0, // E
        0xF0, 0x80, 0xF0, 0x80, 0x80, // F
    ]
}

/// Memory at power-on: zero everywhere except the font table.
pub open spec fn initial_memory() -> Seq<u8> {
    Seq::new(
        MEMORY_SIZE as nat,
        |j: int|
            if FONT_START_LOCATION <= j < FONT_START_LOCATION + font_seq().len() {
                font_seq()[j - FONT_START_LOCATION]
            } else {
                0u8
            },
    )
}

/// The whole machine at power-on.
pub open spec fn initial_state() -> Chip8View {
    Chip8View {
        memory: initial_memory(),
        display: Set::empty(),
        v: Seq::new(16, |j: int| 0u8),
        pc: PROGRAM_START,
        i: 0,
        stack: Seq::empty(),
        dt: 0,
        st: 0,
    }
}

/// The font sprite table as bytes.
fn font_data() -> (f: Vec<u8>)
    ensures
        f@ == font_seq(),
{
    let f: Vec<u8> = vec![
        0xF0u8, 0x90, 0x90, 0x90, 0xF0, // 0
        0x20, 0x60, 0x20, 0x20, 0x70, // 1
        0xF0, 0x10, 0xF0, 0x80, 0xF0, // 2
        0xF0, 0x10, 0xF0, 0x10, 0xF0, // 3
        0x90, 0x90, 0xF0, 0x10, 0x10, // 4
        0xF0, 0x80, 0xF0, 0x10, 0xF0, // 5
        0xF0, 0x80, 0xF0, 0x90, 0xF0, // 6
        0xF0, 0x10, 0x20, 0x40, 0x40, // 7
        0xF0, 0x90, 0xF0, 0x90, 0xF0, // 8
        0xF0, 0x90, 0xF0, 0x10, 0xF0, // 9
        0xF0, 0x90, 0xF0, 0x90, 0x90, // A
        0xE0, 0x90, 0xE0, 0x90, 0xE0, // B
        0xF0, 0x80, 0x80, 0x80, 0xF0, // C
        0xE0, 0x90, 0x90, 0x90, 0xE0, // D
        0xF0, 0x80, 0xF0, 0x80, 0xF0, // E
        0xF0, 0x80, 0xF0, 0x80, 0x80, // F
    ];
    proof {
        assert(f@ =~= font_seq());
    }
    f
}

/// The saturating decrement applied to each timer once per frame.
pub open spec fn tick(t: u8) -> u8 {
    if t == 0 {
        0
    } else {
        (t - 1) as u8
    }
}

impl Chip8 {
    /// The machine carries its full memory and register file.
    pub open spec fn wf(&self) -> bool {
        self@.wf()
    }

    /// A machine at power-on: memory zeroed except for the font table,
    /// all registers and timers zero, an empty stack, an empty display,
    /// and the program counter at the first program address.
    pub fn new() -> (c: Chip8)
        ensures
            c.wf(),
            c@ == initial_state(),
    {
        let mut memory: Vec<u8> = Vec::new();
        while memory.len() < MEMORY_SIZE
            invariant
                memory@.len() <= MEMORY_SIZE,
                forall|j: int| 0 <= j < memory@.len() ==> memory@[j] == 0u8,
            decreases MEMORY_SIZE - memory@.len(),
        {
            memory.push(0);
        }
        // Read the sprite font into memory
        let font = font_data();
        let mut k: usize = 0;
        while k < 80
            invariant
                memory@.len() == MEMORY_SIZE,
                k <= 80,
                font@ == font_seq(),
                forall|j: int|
                    0 <= j < MEMORY_SIZE && !(FONT_START_LOCATION <= j < FONT_START_LOCATION + k)
                        ==> memory@[j] == 0u8,
                forall|j: int|
                    FONT_START_LOCATION <= j < FONT_START_LOCATION + k
                        ==> memory@[j] == font_seq()[j - FONT_START_LOCATION],
            decreases 80 - k,
        {
            memory[FONT_START_LOCATION + k] = font[k];
            k = k + 1;
        }
        let mut v: Vec<u8> = Vec::new();
        while v.len() < 16
            invariant
                v@.len() <= 16,
                forall|j: int| 0 <= j < v@.len() ==> v@[j] == 0u8,
            decreases 16 - v@.len(),
        {
            v.push(0);
        }
        let c = Chip8 {
            memory,
            display: PixelSet::new(),
            v,
            pc: PROGRAM_START,
            i: 0,
            stack: Vec::new(),
            dt: 0,
            st: 0,
        };
        proof {
            assert(c@.memory =~= initial_memory());
            assert(c@.v =~= Seq::new(16, |j: int| 0u8));
            assert(c@.stack =~= Seq::<u16>::empty());
        }
        c
    }

    /// Apply the once-per-frame saturating decrement to both timers;
    /// nothing else changes.
    pub fn decrement_counters(&mut self)
        ensures
            final(self)@ == (Chip8View {
                dt: tick(old(self)@.dt),
                st: tick(old(self)@.st),
                ..old(self)@
            }),
    {
        self.dt = self.dt.saturating_sub(1);
        self.st = self.st.saturating_sub(1);
    }

    /// Copy a ROM image into memory starting at the program start
    /// address; nothing else changes. The caller bounds the image so
    /// that it fits in memory.
    pub fn load_rom(&mut self, rom: &[u8])
        requires
            old(self).wf(),
            rom@.len() <= MEMORY_SIZE - PROGRAM_START,
        ensures
            final(self).wf(),
            final(self)@ == (Chip8View {
                memory: Seq::new(
                    MEMORY_SIZE as nat,
                    |j: int|
                        if PROGRAM_START <= j < PROGRAM_START + rom@.len() {
                            rom@[j - PROGRAM_START]
                        } else {
                            old(self)@.memory[j]
                        },
                ),
                ..old(self)@
            }),
    {
        let n = rom.len();
        let mut k: usize = 0;
        while k < n
            invariant
                self.wf(),
                n == rom@.len(),
                n <= MEMORY_SIZE - PROGRAM_START,
                k <= n,
                self.display == old(self).display,
                self.v == old(self).v,
                self.pc == old(self).pc,
                self.i == old(self).i,
                self.stack == old(self).stack,
                self.dt == old(self).dt,
                self.st == old(self).st,
                forall|j: int|
                    PROGRAM_START <= j < PROGRAM_START + k ==> self@.memory[j] == rom@[j
                        - PROGRAM_START],
                forall|j: int|
                    0 <= j < MEMORY_SIZE && !(PROGRAM_START <= j < PROGRAM_START + k)
                        ==> self@.memory[j] == old(self)@.memory[j],
            decreases n - k,
        {
            self.memory[PROGRAM_START as usize + k] = rom[k];
            k = k + 1;
        }
        proof {
            assert(final(self)@.memory =~= Seq::new(
                MEMORY_SIZE as nat,
                |j: int|
                    if PROGRAM_START <= j < PROGRAM_START + rom@.len() {
                        rom@[j - PROGRAM_START]
                    } else {
                        old(self)@.memory[j]
                    },
            ));
        }
    }
}

} // verus!
