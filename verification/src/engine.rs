//! The instruction engine: fetch, decode and execute one instruction
//! per cycle, verified against the semantics in [`crate::semantics`].

use vstd::prelude::*;

use crate::machine::Chip8;
use crate::machine::Chip8View;
use crate::machine::FONT_START_LOCATION;
use crate::machine::MEMORY_SIZE;
use crate::semantics::alu;
use crate::semantics::collides;
use crate::semantics::cycle;
use crate::semantics::cycle_outcome;
use crate::semantics::fetch_word;
use crate::semantics::load_regs;
use crate::semantics::lowest_held;
use crate::semantics::lowest_held_from;
use crate::semantics::misc_step;
use crate::semantics::n_arg;
use crate::semantics::nn_arg;
use crate::semantics::nnn_arg;
use crate::semantics::op_class;
use crate::semantics::sprite_row_bit;
use crate::semantics::sprite_toggle_set;
use crate::semantics::store_regs;
use crate::semantics::toggle;
use crate::semantics::x_reg;
use crate::semantics::y_reg;
use crate::semantics::Fault;
use std::collections::HashSet;

verus! {

broadcast use vstd::std_specs::hash::group_hash_axioms;

/// Relies on byteorder's `BigEndian::read_u16`: the first two bytes of
/// the given slice combined big-endian, the first byte high.
#[verifier::external_body]
fn read_word_be(memory: &Vec<u8>, idx: usize) -> (w: u16)
    requires
        idx + 1 < memory@.len(),
    ensures
        w == memory@[idx as int] * 0x100 + memory@[idx as int + 1],
{
    <byteorder::BigEndian as byteorder::ByteOrder>::read_u16(&memory[idx..idx + 2])
}

/// Relies on rand's `random`: a byte from the process-wide generator.
/// Nothing is promised of the value.
#[verifier::external_body]
fn thread_random_byte() -> u8 {
    rand::random()
}

/// The lowest held key code below 16, if any is held.
fn lowest_key(held_keys: &HashSet<u8>) -> (r: Option<u8>)
    ensures
        r == lowest_held(held_keys@),
{
    let mut k: u8 = 0;
    while k < 16
        invariant
            k <= 16,
            lowest_held(held_keys@) == lowest_held_from(held_keys@, k),
        decreases 16 - k,
    {
        if held_keys.contains(&k) {
            return Some(k);
        }
        k = k + 1;
    }
    None
}

/// The pixels toggled by the first rows of a sprite, up to row `r0`,
/// and within row `r0` by the first `c0` columns: the part of
/// [`sprite_toggle_set`] a partially drawn sprite has applied.
spec fn sprite_toggle_prefix(
    mem: Seq<u8>,
    loc: int,
    x0: int,
    y0: int,
    r0: int,
    c0: int,
) -> Set<(int, int)> {
    Set::new(
        |q: (int, int)|
            exists|r: int, c: int|
                0 <= r && 0 <= c < 8 && (r < r0 || (r == r0 && c < c0)) && x0 + c < 64
                    && #[trigger] sprite_row_bit(mem[loc + r], c) && q == (x0 + c, y0 + r),
    )
}

/// Toggling one more fresh pixel extends the toggle set by that pixel.
proof fn lemma_prefix_extend_hit(mem: Seq<u8>, loc: int, x0: int, y0: int, r0: int, c0: int)
    requires
        0 <= r0,
        0 <= c0 < 8,
        x0 + c0 < 64,
        sprite_row_bit(mem[loc + r0], c0),
    ensures
        sprite_toggle_prefix(mem, loc, x0, y0, r0, c0 + 1) =~= sprite_toggle_prefix(
            mem,
            loc,
            x0,
            y0,
            r0,
            c0,
        ).insert((x0 + c0, y0 + r0)),
{
    let p = sprite_toggle_prefix(mem, loc, x0, y0, r0, c0);
    let p1 = sprite_toggle_prefix(mem, loc, x0, y0, r0, c0 + 1);
    let q0 = (x0 + c0, y0 + r0);
    assert forall|q: (int, int)| p1.contains(q) implies p.insert(q0).contains(q) by {
        let (r, c) = choose|r: int, c: int|
            0 <= r && 0 <= c < 8 && (r < r0 || (r == r0 && c < c0 + 1)) && x0 + c < 64
                && #[trigger] sprite_row_bit(mem[loc + r], c) && q == (x0 + c, y0 + r);
        if r == r0 && c == c0 {
            assert(q == q0);
        } else {
            assert(p.contains(q));
        }
    }
    assert forall|q: (int, int)| p.insert(q0).contains(q) implies p1.contains(q) by {
        if q == q0 {
            assert(p1.contains(q));
        } else {
            let (r, c) = choose|r: int, c: int|
                0 <= r && 0 <= c < 8 && (r < r0 || (r == r0 && c < c0)) && x0 + c < 64
                    && #[trigger] sprite_row_bit(mem[loc + r], c) && q == (x0 + c, y0 + r);
            assert(p1.contains(q));
        }
    }
}

/// A column whose bit is clear or that lies off screen toggles nothing.
proof fn lemma_prefix_extend_miss(mem: Seq<u8>, loc: int, x0: int, y0: int, r0: int, c0: int)
    requires
        0 <= r0,
        0 <= c0 < 8,
        !(x0 + c0 < 64 && sprite_row_bit(mem[loc + r0], c0)),
    ensures
        sprite_toggle_prefix(mem, loc, x0, y0, r0, c0 + 1) =~= sprite_toggle_prefix(
            mem,
            loc,
            x0,
            y0,
            r0,
            c0,
        ),
{
    let p = sprite_toggle_prefix(mem, loc, x0, y0, r0, c0);
    let p1 = sprite_toggle_prefix(mem, loc, x0, y0, r0, c0 + 1);
    assert forall|q: (int, int)| p1.contains(q) implies p.contains(q) by {
        let (r, c) = choose|r: int, c: int|
            0 <= r && 0 <= c < 8 && (r < r0 || (r == r0 && c < c0 + 1)) && x0 + c < 64
                && #[trigger] sprite_row_bit(mem[loc + r], c) && q == (x0 + c, y0 + r);
        assert(!(r == r0 && c == c0));
        assert(p.contains(q));
    }
    assert forall|q: (int, int)| p.contains(q) implies p1.contains(q) by {
        let (r, c) = choose|r: int, c: int|
            0 <= r && 0 <= c < 8 && (r < r0 || (r == r0 && c < c0)) && x0 + c < 64
                && #[trigger] sprite_row_bit(mem[loc + r], c) && q == (x0 + c, y0 + r);
        assert(p1.contains(q));
    }
}

/// Once the rest of a row is clipped or exhausted, moving to the next
/// row leaves the toggle set unchanged.
proof fn lemma_prefix_row_done(mem: Seq<u8>, loc: int, x0: int, y0: int, r0: int, c0: int)
    requires
        0 <= r0,
        0 <= c0,
        forall|c: int|
            c0 <= c < 8 ==> x0 + c >= 64 || !(#[trigger] sprite_row_bit(mem[loc + r0], c)),
    ensures
        sprite_toggle_prefix(mem, loc, x0, y0, r0 + 1, 0) =~= sprite_toggle_prefix(
            mem,
            loc,
            x0,
            y0,
            r0,
            c0,
        ),
{
    let p = sprite_toggle_prefix(mem, loc, x0, y0, r0, c0);
    let p1 = sprite_toggle_prefix(mem, loc, x0, y0, r0 + 1, 0);
    assert forall|q: (int, int)| p1.contains(q) implies p.contains(q) by {
        let (r, c) = choose|r: int, c: int|
            0 <= r && 0 <= c < 8 && (r < r0 + 1 || (r == r0 + 1 && c < 0)) && x0 + c < 64
                && #[trigger] sprite_row_bit(mem[loc + r], c) && q == (x0 + c, y0 + r);
        if r == r0 {
            assert(c < c0);
        }
        assert(p.contains(q));
    }
    assert forall|q: (int, int)| p.contains(q) implies p1.contains(q) by {
        let (r, c) = choose|r: int, c: int|
            0 <= r && 0 <= c < 8 && (r < r0 || (r == r0 && c < c0)) && x0 + c < 64
                && #[trigger] sprite_row_bit(mem[loc + r], c) && q == (x0 + c, y0 + r);
        assert(p1.contains(q));
    }
}

/// After the last row the toggled prefix is the whole toggle set.
proof fn lemma_prefix_complete(mem: Seq<u8>, loc: int, x0: int, y0: int, rows: int)
    ensures
        sprite_toggle_prefix(mem, loc, x0, y0, rows, 0) =~= sprite_toggle_set(
            mem,
            loc,
            rows,
            x0,
            y0,
        ),
{
    let p = sprite_toggle_prefix(mem, loc, x0, y0, rows, 0);
    let t = sprite_toggle_set(mem, loc, rows, x0, y0);
    assert forall|q: (int, int)| p.contains(q) implies t.contains(q) by {
        let (r, c) = choose|r: int, c: int|
            0 <= r && 0 <= c < 8 && (r < rows || (r == rows && c < 0)) && x0 + c < 64
                && #[trigger] sprite_row_bit(mem[loc + r], c) && q == (x0 + c, y0 + r);
        assert(t.contains(q));
    }
    assert forall|q: (int, int)| t.contains(q) implies p.contains(q) by {
        let (r, c) = choose|r: int, c: int|
            0 <= r < rows && 0 <= c < 8 && x0 + c < 64 && #[trigger] sprite_row_bit(
                mem[loc + r],
                c,
            ) && q == (x0 + c, y0 + r);
        assert(p.contains(q));
    }
}

/// A pixel of row `r0`, column `c0` was not toggled by any earlier row
/// or column: rows have distinct y coordinates and columns distinct x.
proof fn lemma_pixel_fresh(mem: Seq<u8>, loc: int, x0: int, y0: int, r0: int, c0: int)
    requires
        0 <= r0,
        0 <= c0 < 8,
    ensures
        !sprite_toggle_prefix(mem, loc, x0, y0, r0, c0).contains((x0 + c0, y0 + r0)),
{
    let p = sprite_toggle_prefix(mem, loc, x0, y0, r0, c0);
    let q0 = (x0 + c0, y0 + r0);
    if p.contains(q0) {
        let (r, c) = choose|r: int, c: int|
            0 <= r && 0 <= c < 8 && (r < r0 || (r == r0 && c < c0)) && x0 + c < 64
                && #[trigger] sprite_row_bit(mem[loc + r], c) && q0 == (x0 + c, y0 + r);
        assert(y0 + r == y0 + r0);
        assert(r == r0);
        assert(x0 + c == x0 + c0);
        assert(false);
    }
}

/// How toggling one fresh pixel changes the display and the collision
/// condition.
proof fn lemma_toggle_step(disp: Set<(int, int)>, t: Set<(int, int)>, q: (int, int))
    requires
        !t.contains(q),
    ensures
        toggle(disp, t).contains(q) == disp.contains(q),
        disp.contains(q) ==> toggle(disp, t.insert(q)) =~= toggle(disp, t).remove(q),
        !disp.contains(q) ==> toggle(disp, t.insert(q)) =~= toggle(disp, t).insert(q),
        collides(disp, t.insert(q)) == (collides(disp, t) || disp.contains(q)),
{
    if collides(disp, t) {
        let w = choose|w: (int, int)| disp.contains(w) && t.contains(w);
        assert(disp.contains(w) && t.insert(q).contains(w));
    }
    if disp.contains(q) {
        assert(disp.contains(q) && t.insert(q).contains(q));
    }
    if collides(disp, t.insert(q)) && !disp.contains(q) {
        let w = choose|w: (int, int)| disp.contains(w) && t.insert(q).contains(w);
        assert(t.contains(w));
    }
}

impl Chip8 {
    /// Draw a sprite of `length` rows read from `sprite_location` at
    /// screen position `(x_start, y_start)`: every set bit toggles its
    /// pixel, columns past the right screen edge are clipped while
    /// later rows are still drawn, and rows are not clipped at the
    /// bottom edge. Returns whether any lit pixel was turned off. Only
    /// the display changes; `v[0xF]` is left to the caller.
    pub fn draw_sprite(
        &mut self,
        x_start: i32,
        y_start: i32,
        length: usize,
        sprite_location: usize,
    ) -> (turned_off: bool)
        requires
            old(self).wf(),
            0 <= x_start < 64,
            0 <= y_start < 32,
            length <= 15,
            sprite_location + length <= MEMORY_SIZE,
        ensures
            final(self).wf(),
            final(self)@ == (Chip8View {
                display: toggle(
                    old(self)@.display,
                    sprite_toggle_set(
                        old(self)@.memory,
                        sprite_location as int,
                        length as int,
                        x_start as int,
                        y_start as int,
                    ),
                ),
                ..old(self)@
            }),
            turned_off == collides(
                old(self)@.display,
                sprite_toggle_set(
                    old(self)@.memory,
                    sprite_location as int,
                    length as int,
                    x_start as int,
                    y_start as int,
                ),
            ),
    {
        let ghost m0 = self@;
        let ghost loc = sprite_location as int;
        let ghost x0 = x_start as int;
        let ghost y0 = y_start as int;

        let mut cells_turned_off = false;
        let mut y_offset: usize = 0;
        while y_offset < length
            invariant
                self.wf(),
                0 <= x_start < 64,
                0 <= y_start < 32,
                length <= 15,
                sprite_location + length <= MEMORY_SIZE,
                y_offset <= length,
                loc == sprite_location as int,
                x0 == x_start as int,
                y0 == y_start as int,
                self.memory@ == m0.memory,
                self.v@ == m0.v,
                self.pc == m0.pc,
                self.i == m0.i,
                self.stack@ == m0.stack,
                self.dt == m0.dt,
                self.st == m0.st,
                self.display@ == toggle(
                    m0.display,
                    sprite_toggle_prefix(m0.memory, loc, x0, y0, y_offset as int, 0),
                ),
                cells_turned_off == collides(
                    m0.display,
                    sprite_toggle_prefix(m0.memory, loc, x0, y0, y_offset as int, 0),
                ),
            decreases length - y_offset,
        {
            let byte = self.memory[sprite_location + y_offset];
            let mut x_offset: usize = 0;
            while x_offset < 8
                invariant
                    self.wf(),
                    0 <= x_start < 64,
                    0 <= y_start < 32,
                    length <= 15,
                    sprite_location + length <= MEMORY_SIZE,
                    y_offset < length,
                    x_offset <= 8,
                    loc == sprite_location as int,
                    x0 == x_start as int,
                    y0 == y_start as int,
                    byte == m0.memory[loc + y_offset],
                    self.memory@ == m0.memory,
                    self.v@ == m0.v,
                    self.pc == m0.pc,
                    self.i == m0.i,
                    self.stack@ == m0.stack,
                    self.dt == m0.dt,
                    self.st == m0.st,
                    self.display@ == toggle(
                        m0.display,
                        sprite_toggle_prefix(
                            m0.memory,
                            loc,
                            x0,
                            y0,
                            y_offset as int,
                            x_offset as int,
                        ),
                    ),
                    cells_turned_off == collides(
                        m0.display,
                        sprite_toggle_prefix(
                            m0.memory,
                            loc,
                            x0,
                            y0,
                            y_offset as int,
                            x_offset as int,
                        ),
                    ),
                ensures
                    self.wf(),
                    byte == m0.memory[loc + y_offset],
                    self.memory@ == m0.memory,
                    self.v@ == m0.v,
                    self.pc == m0.pc,
                    self.i == m0.i,
                    self.stack@ == m0.stack,
                    self.dt == m0.dt,
                    self.st == m0.st,
                    self.display@ == toggle(
                        m0.display,
                        sprite_toggle_prefix(m0.memory, loc, x0, y0, y_offset as int + 1, 0),
                    ),
                    cells_turned_off == collides(
                        m0.display,
                        sprite_toggle_prefix(m0.memory, loc, x0, y0, y_offset as int + 1, 0),
                    ),
                decreases 8 - x_offset,
            {
                if x_start + (x_offset as i32) >= 64 {
                    proof {
                        lemma_prefix_row_done(
                            m0.memory,
                            loc,
                            x0,
                            y0,
                            y_offset as int,
                            x_offset as int,
                        );
                    }
                    break ;
                }
                let sh: u8 = (7 - x_offset) as u8;
                let bit = (byte >> sh) & 1;
                let ghost pre = sprite_toggle_prefix(
                    m0.memory,
                    loc,
                    x0,
                    y0,
                    y_offset as int,
                    x_offset as int,
                );
                if bit == 1 {
                    let x = x_start + (x_offset as i32);
                    let y = y_start + (y_offset as i32);
                    let ghost gq = (x as int, y as int);
                    proof {
                        assert(sprite_row_bit(m0.memory[loc + y_offset], x_offset as int));
                        lemma_pixel_fresh(m0.memory, loc, x0, y0, y_offset as int, x_offset as int);
                        lemma_toggle_step(m0.display, pre, gq);
                        lemma_prefix_extend_hit(
                            m0.memory,
                            loc,
                            x0,
                            y0,
                            y_offset as int,
                            x_offset as int,
                        );
                    }
                    let current_cell = self.display.contains((x, y));
                    if current_cell {
                        cells_turned_off = true;
                        self.display.remove((x, y));
                    } else {
                        self.display.insert((x, y));
                    }
                } else {
                    proof {
                        assert(!sprite_row_bit(m0.memory[loc + y_offset], x_offset as int));
                        lemma_prefix_extend_miss(
                            m0.memory,
                            loc,
                            x0,
                            y0,
                            y_offset as int,
                            x_offset as int,
                        );
                    }
                }
                x_offset = x_offset + 1;
            }
            y_offset = y_offset + 1;
        }
        proof {
            lemma_prefix_complete(m0.memory, loc, x0, y0, length as int);
            assert(self@ == (Chip8View {
                display: toggle(
                    m0.display,
                    sprite_toggle_set(m0.memory, loc, length as int, x0, y0),
                ),
                ..m0
            }));
        }
        cells_turned_off
    }

    /// Apply one instruction of the arithmetic/logic class (top nibble
    /// 8) with register fields `x` and `y` and selector `k`.
    fn op_alu(&mut self, x: usize, y: usize, k: u16)
        requires
            old(self).wf(),
            x < 16,
            y < 16,
        ensures
            final(self).wf(),
            final(self)@ == alu(old(self)@, x as int, y as int, k as int),
    {
        let vx = self.v[x];
        let vy = self.v[y];
        if k == 0 {
            self.v[x] = vy;
        } else if k == 1 {
            self.v[x] = vx | vy;
        } else if k == 2 {
            self.v[x] = vx & vy;
        } else if k == 3 {
            self.v[x] = vx ^ vy;
        } else if k == 4 {
            let sum: u16 = vx as u16 + vy as u16;
            self.v[x] = (sum % 256) as u8;
            self.v[15] = if sum > 255 {
                1
            } else {
                0
            };
        } else if k == 5 {
            let diff: u16 = (vx as u16 + 256) - vy as u16;
            self.v[x] = (diff % 256) as u8;
            self.v[15] = if vx >= vy {
                1
            } else {
                0
            };
        } else if k == 6 {
            self.v[x] = vy / 2;
            self.v[15] = vy % 2;
        } else if k == 7 {
            let diff: u16 = (vy as u16 + 256) - vx as u16;
            self.v[x] = (diff % 256) as u8;
            self.v[15] = if vy >= vx {
                1
            } else {
                0
            };
        } else if k == 0xE {
            self.v[x] = ((vy as u16 * 2) % 256) as u8;
            self.v[15] = vy / 128;
        }
    }

    /// Apply one instruction of the timer/memory/input class (top
    /// nibble F) with register field `x` and selector `nn`.
    fn op_misc(&mut self, x: usize, nn: u8, held_keys: &HashSet<u8>) -> (r: Result<(), Fault>)
        requires
            old(self).wf(),
            x < 16,
            old(self).pc >= 2,
        ensures
            final(self).wf(),
            match r {
                Ok(()) => misc_step(old(self)@, x as int, nn, held_keys@) == Ok::<
                    Chip8View,
                    Fault,
                >(final(self)@),
                Err(f) => final(self)@ == old(self)@ && misc_step(
                    old(self)@,
                    x as int,
                    nn,
                    held_keys@,
                ) == Err::<Chip8View, Fault>(f),
            },
    {
        let ghost m0 = self@;
        if nn == 0x0A {
            match lowest_key(held_keys) {
                Some(key) => self.v[x] = key,
                None => self.pc = self.pc - 2,
            }
            Ok(())
        } else if nn == 0x07 {
            self.v[x] = self.dt;
            Ok(())
        } else if nn == 0x15 {
            self.dt = self.v[x];
            Ok(())
        } else if nn == 0x18 {
            self.st = self.v[x];
            Ok(())
        } else if nn == 0x1E {
            let sum: u32 = self.i as u32 + self.v[x] as u32;
            self.i = (sum % 0x10000) as u16;
            self.v[15] = if sum > 0xFFFF {
                1
            } else {
                0
            };
            Ok(())
        } else if nn == 0x29 {
            self.i = FONT_START_LOCATION as u16 + 5 * (self.v[x] % 16) as u16;
            Ok(())
        } else if nn == 0x33 {
            if self.i as usize + 2 >= MEMORY_SIZE {
                return Err(Fault::MemoryOutOfBounds);
            }
            let idx = self.i as usize;
            let val = self.v[x];
            self.memory[idx] = val / 100;
            self.memory[idx + 1] = (val / 10) % 10;
            self.memory[idx + 2] = val % 10;
            Ok(())
        } else if nn == 0x55 {
            if self.i as usize + x >= MEMORY_SIZE {
                return Err(Fault::MemoryOutOfBounds);
            }
            let i0 = self.i as usize;
            let mut reg: usize = 0;
            while reg <= x
                invariant
                    self.wf(),
                    x < 16,
                    i0 == m0.i,
                    i0 + x < MEMORY_SIZE,
                    reg <= x + 1,
                    self.display@ == m0.display,
                    self.v@ == m0.v,
                    self.pc == m0.pc,
                    self.i == m0.i,
                    self.stack@ == m0.stack,
                    self.dt == m0.dt,
                    self.st == m0.st,
                    forall|j: int| i0 <= j < i0 + reg ==> self.memory@[j] == m0.v[j - i0],
                    forall|j: int|
                        0 <= j < MEMORY_SIZE && !(i0 <= j < i0 + reg) ==> self.memory@[j]
                            == m0.memory[j],
                decreases x + 1 - reg,
            {
                self.memory[i0 + reg] = self.v[reg];
                reg = reg + 1;
            }
            self.i = self.i + x as u16 + 1;
            proof {
                assert(self.memory@ =~= store_regs(m0.memory, m0.v, i0 as int, x as int));
            }
            Ok(())
        } else if nn == 0x65 {
            if self.i as usize + x >= MEMORY_SIZE {
                return Err(Fault::MemoryOutOfBounds);
            }
            let i0 = self.i as usize;
            let mut reg: usize = 0;
            while reg <= x
                invariant
                    self.wf(),
                    x < 16,
                    i0 == m0.i,
                    i0 + x < MEMORY_SIZE,
                    reg <= x + 1,
                    self.display@ == m0.display,
                    self.memory@ == m0.memory,
                    self.pc == m0.pc,
                    self.i == m0.i,
                    self.stack@ == m0.stack,
                    self.dt == m0.dt,
                    self.st == m0.st,
                    forall|j: int| 0 <= j < reg ==> self.v@[j] == m0.memory[i0 + j],
                    forall|j: int| reg <= j < 16 ==> self.v@[j] == m0.v[j],
                decreases x + 1 - reg,
            {
                self.v[reg] = self.memory[i0 + reg];
                reg = reg + 1;
            }
            self.i = self.i + x as u16 + 1;
            proof {
                assert(self.v@ =~= load_regs(m0.v, m0.memory, i0 as int, x as int));
            }
            Ok(())
        } else {
            Ok(())
        }
    }

    /// Run one fetch/decode/execute cycle with the given held keys,
    /// consuming `random_byte` if the instruction is the random one.
    /// On success the machine steps exactly as [`cycle`] specifies; on
    /// a fault the machine is unchanged.
    pub fn run_cycle_with_random(
        &mut self,
        held_keys: &HashSet<u8>,
        random_byte: u8,
    ) -> (r: Result<(), Fault>)
        requires
            old(self).wf(),
        ensures
            final(self).wf(),
            cycle_outcome(old(self)@, held_keys@, random_byte, final(self)@, r),
    {
        // Read instruction
        if self.pc as usize + 1 >= MEMORY_SIZE {
            return Err(Fault::MemoryOutOfBounds);
        }
        let w = read_word_be(&self.memory, self.pc as usize);
        proof {
            assert(w == fetch_word(old(self)@.memory, old(self)@.pc as int));
        }

        // Increment pc
        self.pc = self.pc + 2;
        let ghost m = self@;

        // Get instruction nibble values
        let x = ((w / 0x100) % 0x10) as usize;
        let y = ((w / 0x10) % 0x10) as usize;
        let n = w % 0x10;
        let nn = (w % 0x100) as u8;
        let nnn = w % 0x1000;
        let c = w / 0x1000;
        proof {
            assert(c == op_class(w));
            assert(x as int == x_reg(w));
            assert(y as int == y_reg(w));
            assert(n as int == n_arg(w));
            assert(nn == nn_arg(w));
            assert(nnn == nnn_arg(w));
        }

        // 00E0 -- Clear screen
        if w == 0x00E0 {
            self.display.clear();
            Ok(())
        } else if w == 0x00EE {
            // 00EE -- End subroutine; an empty stack is a fault
            match self.stack.pop() {
                Some(addr) => {
                    self.pc = addr;
                    Ok(())
                },
                None => {
                    self.pc = self.pc - 2;
                    Err(Fault::StackUnderflow)
                },
            }
        } else if c == 0x1 {
            // 1NNN -- Jump to NNN
            self.pc = nnn;
            Ok(())
        } else if c == 0x2 {
            // 2NNN -- Subroutine: push pc to stack, jump to NNN
            self.stack.push(self.pc);
            self.pc = nnn;
            Ok(())
        } else if c == 0x3 {
            // 3XNN -- Skip the following instruction if vX == NN
            if self.v[x] == nn {
                self.pc = self.pc + 2;
            }
            Ok(())
        } else if c == 0x4 {
            // 4XNN -- Skip the following instruction if vX != NN
            if self.v[x] != nn {
                self.pc = self.pc + 2;
            }
            Ok(())
        } else if c == 0x5 && n == 0 {
            // 5XY0 -- Skip the following instruction if vX == vY
            if self.v[x] == self.v[y] {
                self.pc = self.pc + 2;
            }
            Ok(())
        } else if c == 0x6 {
            // 6XNN -- Store NN in register vX
            self.v[x] = nn;
            Ok(())
        } else if c == 0x7 {
            // 7XNN -- Add NN to register vX with 8-bit wraparound
            let sum: u16 = self.v[x] as u16 + nn as u16;
            self.v[x] = (sum % 256) as u8;
            Ok(())
        } else if c == 0x8 {
            // 8XYk -- Arithmetic and logic
            self.op_alu(x, y, n);
            Ok(())
        } else if c == 0x9 && n == 0 {
            // 9XY0 -- Skip the following instruction if vX != vY
            if self.v[x] != self.v[y] {
                self.pc = self.pc + 2;
            }
            Ok(())
        } else if c == 0xA {
            // ANNN -- Store NNN in register I
            self.i = nnn;
            Ok(())
        } else if c == 0xB {
            // BNNN -- Jump to NNN + v0
            self.pc = nnn + self.v[0] as u16;
            Ok(())
        } else if c == 0xC {
            // CXNN -- Mask the random byte with NN and store it in vX
            self.v[x] = random_byte & nn;
            Ok(())
        } else if c == 0xD {
            // DXYN -- Draw an N-byte sprite at (vX mod 64, vY mod 32);
            // vF records whether a lit pixel went off
            let rows = n as usize;
            if self.i as usize + rows > MEMORY_SIZE {
                self.pc = self.pc - 2;
                return Err(Fault::MemoryOutOfBounds);
            }
            let xs = (self.v[x] % 64) as i32;
            let ys = (self.v[y] % 32) as i32;
            let turned_off = self.draw_sprite(xs, ys, rows, self.i as usize);
            self.v[15] = if turned_off {
                1
            } else {
                0
            };
            Ok(())
        } else if c == 0xE && nn == 0x9E {
            // EX9E -- Skip the next instruction if key vX is held
            if held_keys.contains(&self.v[x]) {
                self.pc = self.pc + 2;
            }
            Ok(())
        } else if c == 0xE && nn == 0xA1 {
            // EXA1 -- Skip the next instruction if key vX is not held
            if !held_keys.contains(&self.v[x]) {
                self.pc = self.pc + 2;
            }
            Ok(())
        } else if c == 0xF {
            // FXnn -- Timers, memory and input
            match self.op_misc(x, nn, held_keys) {
                Ok(()) => Ok(()),
                Err(f) => {
                    self.pc = self.pc - 2;
                    Err(f)
                },
            }
        } else {
            // Unrecognized instructions are ignored
            Ok(())
        }
    }

    /// Run one cycle, drawing the byte for the random instruction from
    /// the process-wide generator: the step is [`cycle`] for some byte.
    pub fn run_cycle(&mut self, held_keys: &HashSet<u8>) -> (r: Result<(), Fault>)
        requires
            old(self).wf(),
        ensures
            final(self).wf(),
            exists|b: u8| cycle_outcome(old(self)@, held_keys@, b, final(self)@, r),
    {
        let b = thread_random_byte();
        self.run_cycle_with_random(held_keys, b)
    }
}

} // verus!
