//! General laws of the instruction semantics, each proved for every
//! machine state and every choice of fields that the law names.

use vstd::prelude::*;

use crate::machine::Chip8View;
use crate::semantics::apply_instr;
use crate::semantics::encode;
use crate::semantics::encode_xnn;
use crate::semantics::n_arg;
use crate::semantics::nn_arg;
use crate::semantics::nnn_arg;
use crate::semantics::op_class;
use crate::semantics::sprite_row_bit;
use crate::semantics::sprite_toggle_set;
use crate::semantics::toggle;
use crate::semantics::x_reg;
use crate::semantics::y_reg;

verus! {

/// Field extraction undoes four-nibble encoding.
proof fn lemma_decode_parts(w: u16, a: u16, x: u16, y: u16, n: u16)
    by (bit_vector)
    requires
        a < 16,
        x < 16,
        y < 16,
        n < 16,
        w == a * 0x1000 + x * 0x100 + y * 0x10 + n,
    ensures
        w / 0x1000 == a,
        (w / 0x100) % 0x10 == x,
        (w / 0x10) % 0x10 == y,
        w % 0x10 == n,
        w % 0x100 == y * 0x10 + n,
        w % 0x1000 == x * 0x100 + y * 0x10 + n,
{
}

/// The decoded fields of `encode(a, x, y, n)`.
proof fn lemma_decode(a: u16, x: u16, y: u16, n: u16)
    requires
        a < 16,
        x < 16,
        y < 16,
        n < 16,
    ensures
        op_class(encode(a, x, y, n)) == a,
        x_reg(encode(a, x, y, n)) == x,
        y_reg(encode(a, x, y, n)) == y,
        n_arg(encode(a, x, y, n)) == n,
        nn_arg(encode(a, x, y, n)) == y * 0x10 + n,
        nnn_arg(encode(a, x, y, n)) == x * 0x100 + y * 0x10 + n,
{
    lemma_decode_parts(encode(a, x, y, n), a, x, y, n);
}

/// The decoded fields of `encode_xnn(a, x, nn)`.
proof fn lemma_decode_xnn(a: u16, x: u16, nn: u8)
    requires
        a < 16,
        x < 16,
    ensures
        op_class(encode_xnn(a, x, nn)) == a,
        x_reg(encode_xnn(a, x, nn)) == x,
        nn_arg(encode_xnn(a, x, nn)) == nn,
        n_arg(encode_xnn(a, x, nn)) == nn % 0x10,
        nnn_arg(encode_xnn(a, x, nn)) == x * 0x100 + nn,
{
    lemma_decode_parts(encode_xnn(a, x, nn), a, x, (nn / 0x10) as u16, (nn % 0x10) as u16);
}

/// Law: executing `6XNN` and then `7XNN` twice leaves register X
/// holding `(NN + NN + NN) mod 256`: the add wraps around at 8 bits.
#[verifier::rlimit(60)]
pub proof fn lemma_store_then_add_twice(m: Chip8View, x: u16, nn: u8, keys: Set<u8>, rnd: u8)
    requires
        m.wf(),
        x < 16,
    ensures
        ({
            let r1 = apply_instr(m, encode_xnn(0x6, x, nn), keys, rnd);
            let r2 = apply_instr(r1->Ok_0, encode_xnn(0x7, x, nn), keys, rnd);
            let r3 = apply_instr(r2->Ok_0, encode_xnn(0x7, x, nn), keys, rnd);
            &&& r1 is Ok
            &&& r2 is Ok
            &&& r3 is Ok
            &&& r3->Ok_0.v[x as int] == (nn + nn + nn) % 256
        }),
{
    lemma_decode_xnn(0x6, x, nn);
    lemma_decode_xnn(0x7, x, nn);
    let w6 = encode_xnn(0x6, x, nn);
    let w7 = encode_xnn(0x7, x, nn);
    let r1 = apply_instr(m, w6, keys, rnd);
    assert(r1 is Ok);
    let m1 = r1->Ok_0;
    assert(m1.v[x as int] == nn);
    let r2 = apply_instr(m1, w7, keys, rnd);
    assert(r2 is Ok);
    let m2 = r2->Ok_0;
    assert(m2.v[x as int] == (nn + nn) % 256);
    let r3 = apply_instr(m2, w7, keys, rnd);
    assert(r3 is Ok);
    assert(r3->Ok_0.v[x as int] == ((nn + nn) % 256 + nn) % 256);
    vstd::arithmetic::div_mod::lemma_add_mod_noop(nn + nn, nn as int, 256);
}

/// Law: when the registers overflow, `8XY4` stores the wrapped sum in
/// register X and sets the carry flag. Register X must not itself be
/// the flag register, which the carry overwrites.
pub proof fn lemma_add_sets_carry(m: Chip8View, x: u16, y: u16, keys: Set<u8>, rnd: u8)
    requires
        m.wf(),
        x < 16,
        y < 16,
        x != 0xF,
        m.v[x as int] + m.v[y as int] > 255,
    ensures
        ({
            let r = apply_instr(m, encode(0x8, x, y, 0x4), keys, rnd);
            &&& r is Ok
            &&& r->Ok_0.v[0xF] == 1
            &&& r->Ok_0.v[x as int] == (m.v[x as int] + m.v[y as int]) % 256
        }),
{
    lemma_decode(0x8, x, y, 0x4);
}

/// Law: `00E0` empties the lit-pixel set, whatever the display held.
pub proof fn lemma_clear_screen(m: Chip8View, keys: Set<u8>, rnd: u8)
    ensures
        apply_instr(m, 0x00E0, keys, rnd) is Ok,
        apply_instr(m, 0x00E0, keys, rnd)->Ok_0.display == Set::<(int, int)>::empty(),
{
}

/// Law: `FX55` followed by `FX65` with the same X and the same initial
/// index register restores registers 0 through X, and each leaves the
/// index register at its initial value plus X plus one.
pub proof fn lemma_store_load_round_trip(m: Chip8View, x: u16, keys: Set<u8>, rnd: u8)
    requires
        m.wf(),
        x < 16,
        m.i + x < m.memory.len(),
    ensures
        ({
            let r1 = apply_instr(m, encode_xnn(0xF, x, 0x55), keys, rnd);
            let m1 = Chip8View { i: m.i, ..r1->Ok_0 };
            let r2 = apply_instr(m1, encode_xnn(0xF, x, 0x65), keys, rnd);
            &&& r1 is Ok
            &&& r1->Ok_0.i == m.i + x + 1
            &&& r2 is Ok
            &&& r2->Ok_0.v == m.v
            &&& r2->Ok_0.i == m.i + x + 1
        }),
{
    lemma_decode_xnn(0xF, x, 0x55);
    lemma_decode_xnn(0xF, x, 0x65);
    let r1 = apply_instr(m, encode_xnn(0xF, x, 0x55), keys, rnd);
    let m1 = Chip8View { i: m.i, ..r1->Ok_0 };
    let r2 = apply_instr(m1, encode_xnn(0xF, x, 0x65), keys, rnd);
    assert(r2->Ok_0.v =~= m.v);
}

/// Law: toggling the same pixel set twice restores the display.
pub proof fn lemma_toggle_involution(d: Set<(int, int)>, t: Set<(int, int)>)
    ensures
        toggle(toggle(d, t), t) =~= d,
{
}

/// Law: drawing the same sprite twice at the same position restores
/// the display to its pre-draw state. Register fields X and Y must not
/// name the flag register, which the first draw overwrites.
pub proof fn lemma_draw_twice_restores(
    m: Chip8View,
    x: u16,
    y: u16,
    n: u16,
    keys: Set<u8>,
    rnd: u8,
)
    requires
        m.wf(),
        x < 16,
        y < 16,
        n < 16,
        x != 0xF,
        y != 0xF,
        m.i + n <= m.memory.len(),
    ensures
        ({
            let r1 = apply_instr(m, encode(0xD, x, y, n), keys, rnd);
            let r2 = apply_instr(r1->Ok_0, encode(0xD, x, y, n), keys, rnd);
            &&& r1 is Ok
            &&& r2 is Ok
            &&& r2->Ok_0.display == m.display
        }),
{
    lemma_decode(0xD, x, y, n);
    let r1 = apply_instr(m, encode(0xD, x, y, n), keys, rnd);
    let m1 = r1->Ok_0;
    let t = sprite_toggle_set(
        m.memory,
        m.i as int,
        n as int,
        (m.v[x as int] % 64) as int,
        (m.v[y as int] % 32) as int,
    );
    assert(m1.v[x as int] == m.v[x as int]);
    assert(m1.v[y as int] == m.v[y as int]);
    lemma_toggle_involution(m.display, t);
}

/// Law: a sprite never lights a column at or past the right screen
/// edge, and every set bit whose column is on screen is toggled, in
/// every row: one clipped row does not end the sprite.
pub proof fn lemma_sprite_clipping(mem: Seq<u8>, loc: int, rows: int, x0: int, y0: int)
    ensures
        forall|q: (int, int)|
            #[trigger] sprite_toggle_set(mem, loc, rows, x0, y0).contains(q) ==> q.0 < 64,
        forall|r: int, c: int|
            0 <= r < rows && 0 <= c < 8 && x0 + c < 64 && #[trigger] sprite_row_bit(
                mem[loc + r],
                c,
            ) ==> sprite_toggle_set(mem, loc, rows, x0, y0).contains((x0 + c, y0 + r)),
{
    let t = sprite_toggle_set(mem, loc, rows, x0, y0);
    assert forall|q: (int, int)| #[trigger] t.contains(q) implies q.0 < 64 by {
        let (r, c) = choose|r: int, c: int|
            0 <= r < rows && 0 <= c < 8 && x0 + c < 64 && #[trigger] sprite_row_bit(
                mem[loc + r],
                c,
            ) && q == (x0 + c, y0 + r);
    }
}

} // verus!
