use vstd::prelude::*;

use crate::bus::BusView;
use crate::cpu::{
    cycle, draw_rows, exec_instr, instr_at, lemma_decode_bounds, op_family, op_n, op_nn, op_nnn,
    op_x, op_y, wrap_add, CpuView, Fault,
};
use crate::display::{blank_grid, draw_bits, draw_byte_spec, pixel_index, sprite_bit};

verus! {

/// Law: executing `6xnn` sets register x to exactly `nn`, advances the
/// program counter by two, and changes nothing else.
pub proof fn lemma_set_register(c: CpuView, b: BusView, rnd: u8, instr: u16)
    requires
        c.vx.len() == 16,
        b.ram.len() == 4096,
        c.pc + 1 < 4096,
        instr_at(b.ram, c.pc) == instr,
        op_family(instr) == 0x6,
    ensures
        cycle(c, b, rnd) == Ok::<(CpuView, BusView), Fault>(
            (
                CpuView {
                    vx: c.vx.update(op_x(instr) as int, op_nn(instr)),
                    pc: (c.pc + 2) as u16,
                    ..c
                },
                b,
            ),
        ),
{
}

/// Law: `8xy4` adds Vy into Vx with wraparound; VF becomes 1 exactly when
/// the unwrapped sum exceeds 255 and keeps its prior value otherwise: the
/// flag is left alone on the no-carry path. Stated for x other than 15,
/// where the flag write would land on the sum register itself.
pub proof fn lemma_add_carry_flag(c: CpuView, b: BusView, rnd: u8, instr: u16)
    requires
        c.vx.len() == 16,
        b.ram.len() == 4096,
        c.pc + 1 < 4096,
        instr_at(b.ram, c.pc) == instr,
        op_family(instr) == 0x8,
        op_n(instr) == 0x4,
        op_x(instr) != 15,
    ensures
        cycle(c, b, rnd) is Ok,
        ({
            let (c2, b2) = cycle(c, b, rnd)->Ok_0;
            let x = op_x(instr) as int;
            let y = op_y(instr) as int;
            &&& c2.vx[x] == wrap_add(c.vx[x], c.vx[y])
            &&& c2.vx[15] == (if c.vx[x] + c.vx[y] > 255 {
                1u8
            } else {
                c.vx[15]
            })
            &&& c2.pc == c.pc + 2
            &&& b2 == b
        }),
{
    lemma_decode_bounds(instr);
}

/// Law: after `00E0`, every pixel of the buffer reads off, whatever was
/// drawn before; the program counter advances by two.
pub proof fn lemma_clear_screen(c: CpuView, b: BusView, rnd: u8)
    requires
        c.vx.len() == 16,
        b.ram.len() == 4096,
        c.pc + 1 < 4096,
        instr_at(b.ram, c.pc) == 0x00E0,
    ensures
        cycle(c, b, rnd) == Ok::<(CpuView, BusView), Fault>(
            (CpuView { pc: (c.pc + 2) as u16, ..c }, BusView { disp: blank_grid(), ..b }),
        ),
        forall|j: int| 0 <= j < 2048 ==> !(cycle(c, b, rnd)->Ok_0.1.disp[j]),
{
    assert((0x00E0u16 & 0xF000) >> 12 == 0) by (bit_vector);
    assert((0x00E0u16 & 0x00FF) as u8 == 0xE0) by (bit_vector);
}

/// Law: a `2nnn` call followed by the `00EE` return sitting at the call
/// target brings the program counter to the instruction immediately after
/// the call, and hands the call stack back unchanged.
pub proof fn lemma_call_return(c: CpuView, b: BusView, r1: u8, r2: u8, instr: u16)
    requires
        c.vx.len() == 16,
        b.ram.len() == 4096,
        c.pc + 1 < 4096,
        instr_at(b.ram, c.pc) == instr,
        op_family(instr) == 0x2,
        op_nnn(instr) + 1 < 4096,
        instr_at(b.ram, op_nnn(instr)) == 0x00EE,
    ensures
        cycle(c, b, r1) is Ok,
        ({
            let (c1, b1) = cycle(c, b, r1)->Ok_0;
            &&& cycle(c1, b1, r2) is Ok
            &&& cycle(c1, b1, r2)->Ok_0.0.pc == c.pc + 2
            &&& cycle(c1, b1, r2)->Ok_0.0.ret_stack == c.ret_stack
        }),
{
    lemma_decode_bounds(instr);
    assert((0x00EEu16 & 0xF000) >> 12 == 0) by (bit_vector);
    assert((0x00EEu16 & 0x00FF) as u8 == 0xEE) by (bit_vector);
    assert(c.ret_stack.push((c.pc + 2) as u16).drop_last() =~= c.ret_stack);
}

/// Law: dumping V0..Vx with `Fx55` and then reloading them with `Fx65`
/// from the same x and base address hands every register its prior value
/// back.
pub proof fn lemma_dump_load_round_trip(c: CpuView, b: BusView, rnd: u8, dump: u16, load: u16)
    requires
        c.vx.len() == 16,
        b.ram.len() == 4096,
        op_family(dump) == 0xF,
        op_nn(dump) == 0x55,
        op_family(load) == 0xF,
        op_nn(load) == 0x65,
        op_x(load) == op_x(dump),
        c.i + op_x(dump) <= 4095,
    ensures
        exec_instr(c, b, dump, rnd) is Ok,
        ({
            let (c1, b1) = exec_instr(c, b, dump, rnd)->Ok_0;
            let back = CpuView { i: c.i, ..c1 };
            &&& exec_instr(back, b1, load, rnd) is Ok
            &&& exec_instr(back, b1, load, rnd)->Ok_0.0.vx == c.vx
        }),
{
    lemma_decode_bounds(dump);
    let (c1, b1) = exec_instr(c, b, dump, rnd)->Ok_0;
    let back = CpuView { i: c.i, ..c1 };
    let (c2, b2) = exec_instr(back, b1, load, rnd)->Ok_0;
    assert(c2.vx =~= c.vx);
}

/// The grid index that bit `b` of a sprite row at column `x`, row `row`
/// lands on.
pub open spec fn row_col_index(x: u8, row: int, b: int) -> int {
    pixel_index((x + b) % 64, row)
}

/// Two distinct bits of one sprite row land on distinct columns.
proof fn lemma_col_distinct(x: u8, b1: int, b2: int)
    requires
        0 <= b1 < b2 < 8,
    ensures
        (x + b1) % 64 != (x + b2) % 64,
{
    let a1 = x + b1;
    let a2 = x + b2;
    vstd::arithmetic::div_mod::lemma_fundamental_div_mod(a1, 64);
    vstd::arithmetic::div_mod::lemma_fundamental_div_mod(a2, 64);
    if a1 % 64 == a2 % 64 {
        let k = (a2 / 64) - (a1 / 64);
        assert(a2 - a1 == 64 * k);
        assert(false);
    }
}

/// What drawing one sprite row does to each pixel: a touched pixel is
/// XORed with its sprite bit, every other pixel keeps its value, and the
/// collision flag reports exactly whether some set bit met a lit pixel.
proof fn lemma_draw_bits_pointwise(grid: Seq<bool>, byte: u8, x: u8, row: int, nbits: nat)
    requires
        grid.len() == 2048,
        0 <= row < 32,
        nbits <= 8,
    ensures
        ({
            let r = draw_bits(grid, byte, x, row, nbits);
            &&& r.0.len() == 2048
            &&& forall|b: int|
                0 <= b < nbits ==> #[trigger] r.0[row_col_index(x, row, b)] == (if sprite_bit(
                    byte,
                    b,
                ) {
                    !grid[row_col_index(x, row, b)]
                } else {
                    grid[row_col_index(x, row, b)]
                })
            &&& forall|j: int|
                0 <= j < 2048 && (forall|b: int| 0 <= b < nbits ==> j != row_col_index(x, row, b))
                    ==> #[trigger] r.0[j] == grid[j]
            &&& r.1 == exists|b: int|
                0 <= b < nbits && #[trigger] sprite_bit(byte, b) && grid[row_col_index(x, row, b)]
        }),
    decreases nbits,
{
    if nbits == 0 {
        let r = draw_bits(grid, byte, x, row, nbits);
        assert(!(exists|b: int|
            0 <= b < nbits && #[trigger] sprite_bit(byte, b) && grid[row_col_index(x, row, b)]));
    } else {
        lemma_draw_bits_pointwise(grid, byte, x, row, (nbits - 1) as nat);
        let prior = draw_bits(grid, byte, x, row, (nbits - 1) as nat);
        let r = draw_bits(grid, byte, x, row, nbits);
        let bb = nbits - 1;
        let idx = row_col_index(x, row, bb);
        assert(0 <= (x + bb) % 64 < 64);
        assert(0 <= idx < 2048);
        assert forall|b: int| 0 <= b < bb implies row_col_index(x, row, b) != idx by {
            lemma_col_distinct(x, b, bb);
        }
        // The pixel bit bb lands on was untouched by the earlier bits.
        assert(prior.0[idx] == grid[idx]);
        if sprite_bit(byte, bb) {
            assert(r.0 == prior.0.update(idx, !prior.0[idx]));
            assert(r.1 == (prior.1 || prior.0[idx]));
            if prior.1 {
                let w = choose|b: int|
                    0 <= b < nbits - 1 && #[trigger] sprite_bit(byte, b) && grid[row_col_index(
                        x,
                        row,
                        b,
                    )];
                assert(0 <= w < nbits && sprite_bit(byte, w) && grid[row_col_index(x, row, w)]);
            } else if grid[idx] {
                assert(0 <= bb < nbits && sprite_bit(byte, bb) && grid[row_col_index(x, row, bb)]);
            } else {
                assert forall|b: int|
                    0 <= b < nbits && #[trigger] sprite_bit(byte, b) implies !grid[row_col_index(
                    x,
                    row,
                    b,
                )] by {}
            }
        } else {
            assert(r.0 == prior.0);
            assert(r.1 == prior.1);
            if prior.1 {
                let w = choose|b: int|
                    0 <= b < nbits - 1 && #[trigger] sprite_bit(byte, b) && grid[row_col_index(
                        x,
                        row,
                        b,
                    )];
                assert(0 <= w < nbits && sprite_bit(byte, w) && grid[row_col_index(x, row, w)]);
            }
        }
    }
}

/// Law: drawing the same sprite row twice at the same spot restores every
/// pixel to its prior state.
pub proof fn lemma_draw_byte_twice(grid: Seq<bool>, byte: u8, x: u8, y: u8)
    requires
        grid.len() == 2048,
    ensures
        draw_byte_spec(draw_byte_spec(grid, byte, x, y).0, byte, x, y).0 == grid,
{
    let row = (y % 32) as int;
    lemma_draw_bits_pointwise(grid, byte, x, row, 8);
    let first = draw_bits(grid, byte, x, row, 8);
    lemma_draw_bits_pointwise(first.0, byte, x, row, 8);
    let second = draw_bits(first.0, byte, x, row, 8);
    assert forall|j: int| 0 <= j < 2048 implies second.0[j] == grid[j] by {
        if exists|b: int| 0 <= b < 8 && j == row_col_index(x, row, b) {
            let b = choose|b: int| 0 <= b < 8 && j == row_col_index(x, row, b);
            assert(first.0[row_col_index(x, row, b)] == (if sprite_bit(byte, b) {
                !grid[row_col_index(x, row, b)]
            } else {
                grid[row_col_index(x, row, b)]
            }));
            assert(second.0[row_col_index(x, row, b)] == (if sprite_bit(byte, b) {
                !first.0[row_col_index(x, row, b)]
            } else {
                first.0[row_col_index(x, row, b)]
            }));
        } else {
            assert(forall|b: int| 0 <= b < 8 ==> j != row_col_index(x, row, b));
            assert(first.0[j] == grid[j]);
            assert(second.0[j] == first.0[j]);
        }
    }
    assert(second.0 =~= grid);
}

/// Law: on a fully off grid, drawing a sprite row reports no collision,
/// and drawing the same row again collides exactly when the row has some
/// set bit.
pub proof fn lemma_draw_byte_blank_collision(grid: Seq<bool>, byte: u8, x: u8, y: u8)
    requires
        grid.len() == 2048,
        forall|j: int| 0 <= j < 2048 ==> !grid[j],
    ensures
        draw_byte_spec(grid, byte, x, y).1 == false,
        draw_byte_spec(draw_byte_spec(grid, byte, x, y).0, byte, x, y).1 == (byte != 0),
{
    let row = (y % 32) as int;
    lemma_draw_bits_pointwise(grid, byte, x, row, 8);
    let first = draw_bits(grid, byte, x, row, 8);
    lemma_draw_bits_pointwise(first.0, byte, x, row, 8);
    let second = draw_bits(first.0, byte, x, row, 8);
    assert forall|b: int| 0 <= b < 8 && #[trigger] sprite_bit(byte, b) implies first.0[row_col_index(
        x,
        row,
        b,
    )] by {}
    if byte != 0 {
        assert(((byte >> 7) & 1 == 1) || ((byte >> 6) & 1 == 1) || ((byte >> 5) & 1 == 1) || ((byte
            >> 4) & 1 == 1) || ((byte >> 3) & 1 == 1) || ((byte >> 2) & 1 == 1) || ((byte >> 1) & 1
            == 1) || ((byte >> 0) & 1 == 1)) by (bit_vector)
            requires
                byte != 0,
        ;
        if (byte >> 7) & 1 == 1 {
            assert(sprite_bit(byte, 0));
            assert(first.0[row_col_index(x, row, 0)]);
        } else if (byte >> 6) & 1 == 1 {
            assert(sprite_bit(byte, 1));
            assert(first.0[row_col_index(x, row, 1)]);
        } else if (byte >> 5) & 1 == 1 {
            assert(sprite_bit(byte, 2));
            assert(first.0[row_col_index(x, row, 2)]);
        } else if (byte >> 4) & 1 == 1 {
            assert(sprite_bit(byte, 3));
            assert(first.0[row_col_index(x, row, 3)]);
        } else if (byte >> 3) & 1 == 1 {
            assert(sprite_bit(byte, 4));
            assert(first.0[row_col_index(x, row, 4)]);
        } else if (byte >> 2) & 1 == 1 {
            assert(sprite_bit(byte, 5));
            assert(first.0[row_col_index(x, row, 5)]);
        } else if (byte >> 1) & 1 == 1 {
            assert(sprite_bit(byte, 6));
            assert(first.0[row_col_index(x, row, 6)]);
        } else {
            assert(sprite_bit(byte, 7));
            assert(first.0[row_col_index(x, row, 7)]);
        }
        assert(second.1);
    } else {
        assert forall|b: int| 0 <= b < 8 implies !sprite_bit(byte, b) by {
            let sa = (7 - b) as u8;
            assert((0u8 >> sa) & 1 != 1) by (bit_vector);
        }
        assert(!second.1);
    }
}

/// Whether drawing a sprite row byte starting at column `x` flips the
/// pixel in column `cc`.
pub open spec fn row_bit(byte: u8, x: u8, cc: int) -> bool {
    exists|b: int| 0 <= b < 8 && (x + b) % 64 == cc && sprite_bit(byte, b)
}

/// Two distinct rows of one sprite land on distinct grid rows, as long as
/// the sprite is no taller than the grid.
proof fn lemma_row_distinct(y: u8, k1: int, k2: int)
    requires
        0 <= k1 < k2 < 32,
    ensures
        (y + k1) % 32 != (y + k2) % 32,
{
    let a1 = y + k1;
    let a2 = y + k2;
    vstd::arithmetic::div_mod::lemma_fundamental_div_mod(a1, 32);
    vstd::arithmetic::div_mod::lemma_fundamental_div_mod(a2, 32);
    if a1 % 32 == a2 % 32 {
        let k = (a2 / 32) - (a1 / 32);
        assert(a2 - a1 == 32 * k);
        assert(false);
    }
}

/// Drawing one sprite row, seen per column: each pixel of the target row
/// is XORed with `row_bit`, and every pixel of every other row keeps its
/// value.
proof fn lemma_draw_bits_columns(grid: Seq<bool>, byte: u8, x: u8, row: int)
    requires
        grid.len() == 2048,
        0 <= row < 32,
    ensures
        ({
            let r = draw_bits(grid, byte, x, row, 8);
            &&& r.0.len() == 2048
            &&& forall|cc: int|
                0 <= cc < 64 ==> #[trigger] r.0[row * 64 + cc] == (grid[row * 64 + cc] != row_bit(
                    byte,
                    x,
                    cc,
                ))
            &&& forall|j: int| 0 <= j < 2048 && j / 64 != row ==> #[trigger] r.0[j] == grid[j]
        }),
{
    lemma_draw_bits_pointwise(grid, byte, x, row, 8);
    let r = draw_bits(grid, byte, x, row, 8);
    assert forall|cc: int| 0 <= cc < 64 implies #[trigger] r.0[row * 64 + cc] == (grid[row * 64
        + cc] != row_bit(byte, x, cc)) by {
        if exists|b: int| 0 <= b < 8 && #[trigger] ((x + b) % 64) == cc {
            let b = choose|b: int| 0 <= b < 8 && #[trigger] ((x + b) % 64) == cc;
            assert(row_col_index(x, row, b) == row * 64 + cc);
            // No other bit lands on this column, so row_bit reduces to
            // this bit alone.
            assert forall|b2: int| 0 <= b2 < 8 && #[trigger] ((x + b2) % 64) == cc implies b2 == b by {
                if b2 < b {
                    lemma_col_distinct(x, b2, b);
                } else if b < b2 {
                    lemma_col_distinct(x, b, b2);
                }
            }
            assert(row_bit(byte, x, cc) == sprite_bit(byte, b));
        } else {
            assert forall|b: int| 0 <= b < 8 implies row * 64 + cc != #[trigger] row_col_index(x, row, b) by {
                assert((x + b) % 64 != cc);
            }
            assert(r.0[row * 64 + cc] == grid[row * 64 + cc]);
            assert(!row_bit(byte, x, cc));
        }
    }
    assert forall|j: int| 0 <= j < 2048 && j / 64 != row implies #[trigger] r.0[j] == grid[j] by {
        assert forall|b: int| 0 <= b < 8 implies j != row_col_index(x, row, b) by {
            assert(0 <= (x + b) % 64 < 64);
            assert(row_col_index(x, row, b) / 64 == row) by (nonlinear_arith)
                requires
                    row_col_index(x, row, b) == row * 64 + (x + b) % 64,
                    0 <= (x + b) % 64 < 64,
            ;
        }
    }
}

/// Drawing a whole sprite, seen per pixel: each pixel of a touched row is
/// XORed with its row's `row_bit`, and rows the sprite never lands on keep
/// their pixels.
proof fn lemma_draw_rows_pointwise(
    grid: Seq<bool>,
    ram: Seq<u8>,
    base: int,
    x: u8,
    y: u8,
    rows: nat,
)
    requires
        grid.len() == 2048,
        rows <= 32,
    ensures
        ({
            let r = draw_rows(grid, ram, base, x, y, rows);
            &&& r.0.len() == 2048
            &&& forall|k: int, cc: int|
                0 <= k < rows && 0 <= cc < 64 ==> #[trigger] r.0[((y + k) % 32) * 64 + cc] == (
                grid[((y + k) % 32) * 64 + cc] != row_bit(ram[base + k], x, cc))
            &&& forall|j: int|
                0 <= j < 2048 && (forall|k: int| 0 <= k < rows ==> j / 64 != #[trigger] ((y + k) % 32))
                    ==> #[trigger] r.0[j] == grid[j]
        }),
    decreases rows,
{
    if rows == 0 {
    } else {
        lemma_draw_rows_pointwise(grid, ram, base, x, y, (rows - 1) as nat);
        let prior = draw_rows(grid, ram, base, x, y, (rows - 1) as nat);
        let kk = rows - 1;
        let row = (y + kk) % 32;
        lemma_draw_bits_columns(prior.0, ram[base + kk], x, row);
        let r = draw_rows(grid, ram, base, x, y, rows);
        assert(r.0 == draw_bits(prior.0, ram[base + kk], x, row, 8).0);
        // The earlier rows never landed on this one, so its pixels still
        // read as in the input grid.
        assert forall|cc: int| 0 <= cc < 64 implies #[trigger] prior.0[row * 64 + cc] == grid[row
            * 64 + cc] by {
            assert(0 <= row < 32);
            assert((row * 64 + cc) / 64 == row) by (nonlinear_arith)
                requires
                    0 <= cc < 64,
                    0 <= row,
            ;
            assert forall|k: int| 0 <= k < rows - 1 implies (row * 64 + cc) / 64 != #[trigger] ((y + k) % 32) by {
                lemma_row_distinct(y, k, kk);
            }
        }
        assert forall|k: int, cc: int| 0 <= k < rows && 0 <= cc < 64 implies #[trigger] r.0[((y + k)
            % 32) * 64 + cc] == (grid[((y + k) % 32) * 64 + cc] != row_bit(
            ram[base + k],
            x,
            cc,
        )) by {
            let rk = (y + k) % 32;
            if k == kk {
                assert(r.0[rk * 64 + cc] == (prior.0[rk * 64 + cc] != row_bit(
                    ram[base + kk],
                    x,
                    cc,
                )));
            } else {
                lemma_row_distinct(y, k, kk);
                assert(0 <= rk < 32);
                assert((rk * 64 + cc) / 64 == rk) by (nonlinear_arith)
                    requires
                        0 <= cc < 64,
                        0 <= rk,
                ;
                assert(r.0[rk * 64 + cc] == prior.0[rk * 64 + cc]);
            }
        }
        assert forall|j: int|
            0 <= j < 2048 && (forall|k: int| 0 <= k < rows ==> j / 64 != #[trigger] ((y + k) % 32)) implies #[
            trigger] r.0[j] == grid[j] by {
            assert(j / 64 != row);
            assert(prior.0[j] == grid[j]);
        }
    }
}

/// Law: drawing the same sprite twice at the same spot restores every
/// pixel to its prior state, for any sprite no taller than the grid.
pub proof fn lemma_draw_sprite_twice(
    grid: Seq<bool>,
    ram: Seq<u8>,
    base: int,
    x: u8,
    y: u8,
    rows: nat,
)
    requires
        grid.len() == 2048,
        rows <= 32,
    ensures
        draw_rows(draw_rows(grid, ram, base, x, y, rows).0, ram, base, x, y, rows).0 == grid,
{
    lemma_draw_rows_pointwise(grid, ram, base, x, y, rows);
    let first = draw_rows(grid, ram, base, x, y, rows);
    lemma_draw_rows_pointwise(first.0, ram, base, x, y, rows);
    let second = draw_rows(first.0, ram, base, x, y, rows);
    assert forall|j: int| 0 <= j < 2048 implies second.0[j] == grid[j] by {
        if exists|k: int| 0 <= k < rows && j / 64 == #[trigger] ((y + k) % 32) {
            let k = choose|k: int| 0 <= k < rows && j / 64 == #[trigger] ((y + k) % 32);
            let rk = (y + k) % 32;
            let cc = j % 64;
            vstd::arithmetic::div_mod::lemma_fundamental_div_mod(j, 64);
            assert(j == rk * 64 + cc);
            assert(0 <= cc < 64);
            assert(first.0[rk * 64 + cc] == (grid[rk * 64 + cc] != row_bit(ram[base + k], x, cc)));
            assert(second.0[rk * 64 + cc] == (first.0[rk * 64 + cc] != row_bit(
                ram[base + k],
                x,
                cc,
            )));
        } else {
            assert(forall|k: int| 0 <= k < rows ==> j / 64 != #[trigger] ((y + k) % 32));
            assert(first.0[j] == grid[j]);
            assert(second.0[j] == first.0[j]);
        }
    }
    assert(second.0 =~= grid);
}

} // verus!
