//! The meaning of one instruction, as a function on machine values.
//!
//! [`cycle`] says what one fetch/decode/execute step does to a machine:
//! it is the specification that the executable engine is verified
//! against, and the laws in [`crate::laws`] are proved from it. A cycle
//! either yields the next machine value or reports a [`Fault`]; a fault
//! leaves the machine unchanged. Instructions that match no recognized
//! pattern are no-ops.

use vstd::prelude::*;

use crate::machine::Chip8View;
use crate::machine::FONT_START_LOCATION;

verus! {

/// A fault that aborts the current cycle with the machine unchanged.
#[derive(Clone, Copy, Debug, PartialEq, Eq, Structural)]
pub enum Fault {
    /// A return instruction found the call stack empty.
    StackUnderflow,
    /// A fetch or an index-register operation reached past the end of
    /// memory.
    MemoryOutOfBounds,
}

/// The opcode class: the top nibble of the instruction word.
pub open spec fn op_class(w: u16) -> u16 {
    w / 0x1000
}

/// The X register field: the second nibble.
pub open spec fn x_reg(w: u16) -> int {
    ((w / 0x100) % 0x10) as int
}

/// The Y register field: the third nibble.
pub open spec fn y_reg(w: u16) -> int {
    ((w / 0x10) % 0x10) as int
}

/// The N field: the bottom nibble.
pub open spec fn n_arg(w: u16) -> int {
    (w % 0x10) as int
}

/// The NN field: the bottom byte.
pub open spec fn nn_arg(w: u16) -> u8 {
    (w % 0x100) as u8
}

/// The NNN field: the bottom 12 bits.
pub open spec fn nnn_arg(w: u16) -> u16 {
    w % 0x1000
}

/// Addition of two bytes with 8-bit wraparound.
pub open spec fn wrap_add(a: u8, b: u8) -> u8 {
    ((a + b) % 256) as u8
}

/// Subtraction of two bytes with 8-bit wraparound.
pub open spec fn wrap_sub(a: u8, b: u8) -> u8 {
    (((a - b) + 256) % 256) as u8
}

/// The machine with the next instruction skipped.
pub open spec fn skip(m: Chip8View) -> Chip8View {
    Chip8View { pc: (m.pc + 2) as u16, ..m }
}

/// Whether bit `c` (most significant first) of sprite byte `b` is set.
pub open spec fn sprite_row_bit(b: u8, c: int) -> bool {
    (b >> ((7 - c) as u8)) & 1 == 1
}

/// The screen coordinates toggled by an `rows`-byte sprite drawn at
/// `(x0, y0)` from sprite data at `loc`: one pixel for every set bit,
/// except that columns past the right screen edge are clipped. Rows are
/// not clipped: y coordinates past the bottom edge stay in the set.
pub open spec fn sprite_toggle_set(
    mem: Seq<u8>,
    loc: int,
    rows: int,
    x0: int,
    y0: int,
) -> Set<(int, int)> {
    Set::new(
        |q: (int, int)|
            exists|r: int, c: int|
                0 <= r < rows && 0 <= c < 8 && x0 + c < 64 && #[trigger] sprite_row_bit(
                    mem[loc + r],
                    c,
                ) && q == (x0 + c, y0 + r),
    )
}

/// The display after the pixels in `t` are toggled: the symmetric
/// difference of the two sets.
pub open spec fn toggle(disp: Set<(int, int)>, t: Set<(int, int)>) -> Set<(int, int)> {
    disp.difference(t).union(t.difference(disp))
}

/// Whether toggling `t` turns some lit pixel off.
pub open spec fn collides(disp: Set<(int, int)>, t: Set<(int, int)>) -> bool {
    exists|q: (int, int)| disp.contains(q) && t.contains(q)
}

/// The lowest held key code below 16, starting the search at `k`.
pub open spec fn lowest_held_from(keys: Set<u8>, k: u8) -> Option<u8>
    decreases 16 - k,
{
    if k >= 16 {
        None
    } else if keys.contains(k) {
        Some(k)
    } else {
        lowest_held_from(keys, (k + 1) as u8)
    }
}

/// The key the key-wait instruction reads: the lowest held key code.
pub open spec fn lowest_held(keys: Set<u8>) -> Option<u8> {
    lowest_held_from(keys, 0)
}

/// Memory after registers `v[0]..v[x]` are stored at `i0..i0 + x`.
pub open spec fn store_regs(mem: Seq<u8>, v: Seq<u8>, i0: int, x: int) -> Seq<u8> {
    Seq::new(
        mem.len(),
        |j: int|
            if i0 <= j <= i0 + x {
                v[j - i0]
            } else {
                mem[j]
            },
    )
}

/// Registers after `v[0]..v[x]` are loaded from `mem[i0]..mem[i0 + x]`.
pub open spec fn load_regs(v: Seq<u8>, mem: Seq<u8>, i0: int, x: int) -> Seq<u8> {
    Seq::new(
        v.len(),
        |j: int|
            if 0 <= j <= x {
                mem[i0 + j]
            } else {
                v[j]
            },
    )
}

/// The effect of the arithmetic/logic class (top nibble 8), selected by
/// the bottom nibble `k`. Unrecognized selectors are no-ops.
pub open spec fn alu(m: Chip8View, x: int, y: int, k: int) -> Chip8View {
    let vx = m.v[x];
    let vy = m.v[y];
    if k == 0 {
        Chip8View { v: m.v.update(x, vy), ..m }
    } else if k == 1 {
        Chip8View { v: m.v.update(x, vx | vy), ..m }
    } else if k == 2 {
        Chip8View { v: m.v.update(x, vx & vy), ..m }
    } else if k == 3 {
        Chip8View { v: m.v.update(x, vx ^ vy), ..m }
    } else if k == 4 {
        Chip8View {
            v: m.v.update(x, wrap_add(vx, vy)).update(
                15,
                if vx + vy > 255 {
                    1u8
                } else {
                    0u8
                },
            ),
            ..m
        }
    } else if k == 5 {
        Chip8View {
            v: m.v.update(x, wrap_sub(vx, vy)).update(
                15,
                if vx >= vy {
                    1u8
                } else {
                    0u8
                },
            ),
            ..m
        }
    } else if k == 6 {
        Chip8View { v: m.v.update(x, vy / 2).update(15, vy % 2), ..m }
    } else if k == 7 {
        Chip8View {
            v: m.v.update(x, wrap_sub(vy, vx)).update(
                15,
                if vy >= vx {
                    1u8
                } else {
                    0u8
                },
            ),
            ..m
        }
    } else if k == 0xE {
        Chip8View {
            v: m.v.update(x, ((vy * 2) % 256) as u8).update(15, vy / 128),
            ..m
        }
    } else {
        m
    }
}

/// The effect of the draw instruction: toggle the sprite's pixels and
/// record in `v[0xF]` whether any lit pixel went off. Reading sprite
/// data past the end of memory is a fault.
pub open spec fn draw_step(m: Chip8View, x: int, y: int, rows: int) -> Result<Chip8View, Fault> {
    if m.i + rows > m.memory.len() {
        Err(Fault::MemoryOutOfBounds)
    } else {
        let t = sprite_toggle_set(
            m.memory,
            m.i as int,
            rows,
            (m.v[x] % 64) as int,
            (m.v[y] % 32) as int,
        );
        Ok(
            Chip8View {
                display: toggle(m.display, t),
                v: m.v.update(
                    15,
                    if collides(m.display, t) {
                        1u8
                    } else {
                        0u8
                    },
                ),
                ..m
            },
        )
    }
}

/// The effect of the timer/memory/input class (top nibble F), selected
/// by the bottom byte `nn`. Unrecognized selectors are no-ops.
pub open spec fn misc_step(m: Chip8View, x: int, nn: u8, keys: Set<u8>) -> Result<
    Chip8View,
    Fault,
> {
    if nn == 0x0A {
        match lowest_held(keys) {
            Some(k) => Ok(Chip8View { v: m.v.update(x, k), ..m }),
            None => Ok(Chip8View { pc: (m.pc - 2) as u16, ..m }),
        }
    } else if nn == 0x07 {
        Ok(Chip8View { v: m.v.update(x, m.dt), ..m })
    } else if nn == 0x15 {
        Ok(Chip8View { dt: m.v[x], ..m })
    } else if nn == 0x18 {
        Ok(Chip8View { st: m.v[x], ..m })
    } else if nn == 0x1E {
        Ok(
            Chip8View {
                i: ((m.i + m.v[x]) % 0x10000) as u16,
                v: m.v.update(
                    15,
                    if m.i + m.v[x] > 0xFFFF {
                        1u8
                    } else {
                        0u8
                    },
                ),
                ..m
            },
        )
    } else if nn == 0x29 {
        Ok(Chip8View { i: (FONT_START_LOCATION + 5 * (m.v[x] % 16)) as u16, ..m })
    } else if nn == 0x33 {
        if m.i + 2 >= m.memory.len() {
            Err(Fault::MemoryOutOfBounds)
        } else {
            Ok(
                Chip8View {
                    memory: m.memory.update(m.i as int, m.v[x] / 100).update(
                        m.i as int + 1,
                        (m.v[x] / 10) % 10,
                    ).update(m.i as int + 2, m.v[x] % 10),
                    ..m
                },
            )
        }
    } else if nn == 0x55 {
        if m.i + x >= m.memory.len() {
            Err(Fault::MemoryOutOfBounds)
        } else {
            Ok(
                Chip8View {
                    memory: store_regs(m.memory, m.v, m.i as int, x),
                    i: (m.i + x + 1) as u16,
                    ..m
                },
            )
        }
    } else if nn == 0x65 {
        if m.i + x >= m.memory.len() {
            Err(Fault::MemoryOutOfBounds)
        } else {
            Ok(
                Chip8View {
                    v: load_regs(m.v, m.memory, m.i as int, x),
                    i: (m.i + x + 1) as u16,
                    ..m
                },
            )
        }
    } else {
        Ok(m)
    }
}

/// The effect of instruction `w` on machine `m`, after the fetch has
/// already advanced the program counter past `w`. `keys` is the set of
/// held key codes and `rnd` the byte the random instruction consumes.
pub open spec fn apply_instr(m: Chip8View, w: u16, keys: Set<u8>, rnd: u8) -> Result<
    Chip8View,
    Fault,
> {
    let x = x_reg(w);
    let y = y_reg(w);
    let c = op_class(w);
    if w == 0x00E0 {
        Ok(Chip8View { display: Set::empty(), ..m })
    } else if w == 0x00EE {
        if m.stack.len() == 0 {
            Err(Fault::StackUnderflow)
        } else {
            Ok(Chip8View { pc: m.stack.last(), stack: m.stack.drop_last(), ..m })
        }
    } else if c == 0x1 {
        Ok(Chip8View { pc: nnn_arg(w), ..m })
    } else if c == 0x2 {
        Ok(Chip8View { stack: m.stack.push(m.pc), pc: nnn_arg(w), ..m })
    } else if c == 0x3 {
        Ok(
            if m.v[x] == nn_arg(w) {
                skip(m)
            } else {
                m
            },
        )
    } else if c == 0x4 {
        Ok(
            if m.v[x] != nn_arg(w) {
                skip(m)
            } else {
                m
            },
        )
    } else if c == 0x5 && n_arg(w) == 0 {
        Ok(
            if m.v[x] == m.v[y] {
                skip(m)
            } else {
                m
            },
        )
    } else if c == 0x6 {
        Ok(Chip8View { v: m.v.update(x, nn_arg(w)), ..m })
    } else if c == 0x7 {
        Ok(Chip8View { v: m.v.update(x, wrap_add(m.v[x], nn_arg(w))), ..m })
    } else if c == 0x8 {
        Ok(alu(m, x, y, n_arg(w)))
    } else if c == 0x9 && n_arg(w) == 0 {
        Ok(
            if m.v[x] != m.v[y] {
                skip(m)
            } else {
                m
            },
        )
    } else if c == 0xA {
        Ok(Chip8View { i: nnn_arg(w), ..m })
    } else if c == 0xB {
        Ok(Chip8View { pc: (nnn_arg(w) + m.v[0]) as u16, ..m })
    } else if c == 0xC {
        Ok(Chip8View { v: m.v.update(x, rnd & nn_arg(w)), ..m })
    } else if c == 0xD {
        draw_step(m, x, y, n_arg(w))
    } else if c == 0xE && nn_arg(w) == 0x9E {
        Ok(
            if keys.contains(m.v[x]) {
                skip(m)
            } else {
                m
            },
        )
    } else if c == 0xE && nn_arg(w) == 0xA1 {
        Ok(
            if !keys.contains(m.v[x]) {
                skip(m)
            } else {
                m
            },
        )
    } else if c == 0xF {
        misc_step(m, x, nn_arg(w), keys)
    } else {
        Ok(m)
    }
}

/// The instruction word with nibble fields `a`, `x`, `y`, `n`.
pub open spec fn encode(a: u16, x: u16, y: u16, n: u16) -> u16 {
    (a * 0x1000 + x * 0x100 + y * 0x10 + n) as u16
}

/// The instruction word with top nibble `a`, register field `x` and
/// bottom byte `nn`.
pub open spec fn encode_xnn(a: u16, x: u16, nn: u8) -> u16 {
    (a * 0x1000 + x * 0x100 + nn) as u16
}

/// The big-endian instruction word at `pc`.
pub open spec fn fetch_word(mem: Seq<u8>, pc: int) -> u16 {
    (mem[pc] * 0x100 + mem[pc + 1]) as u16
}

/// One whole cycle on machine `m`: fetch the word at the program
/// counter, advance the counter by two, then apply the instruction.
/// Fetching past the end of memory is a fault; a fault leaves the
/// machine unchanged.
pub open spec fn cycle(m: Chip8View, keys: Set<u8>, rnd: u8) -> Result<Chip8View, Fault> {
    if m.pc + 1 >= m.memory.len() {
        Err(Fault::MemoryOutOfBounds)
    } else {
        apply_instr(
            Chip8View { pc: (m.pc + 2) as u16, ..m },
            fetch_word(m.memory, m.pc as int),
            keys,
            rnd,
        )
    }
}

/// How one executed cycle relates the machine `m` before it to the
/// machine `m2` after it, given the cycle's result `r`: success yields
/// exactly the specified next machine; a fault is the specified fault
/// and leaves the machine unchanged.
pub open spec fn cycle_outcome(
    m: Chip8View,
    keys: Set<u8>,
    rnd: u8,
    m2: Chip8View,
    r: Result<(), Fault>,
) -> bool {
    match r {
        Ok(()) => cycle(m, keys, rnd) == Ok::<Chip8View, Fault>(m2),
        Err(f) => m2 == m && cycle(m, keys, rnd) == Err::<Chip8View, Fault>(f),
    }
}

} // verus!
