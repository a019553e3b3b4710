use vstd::prelude::*;

use crate::display::Display;
use crate::display::pix_mask;
use crate::display::pixel_set;
use crate::error::Error;
use crate::instruction::Instruction;
use crate::instruction::spec_decode;
use crate::stack::Stack;

verus! {

/// Programs are copied into memory starting here.
pub const PROGRAM_OFFSET: usize = 0x200;

/// The font glyph table is pre-loaded into memory starting here.
pub const FONT_OFFSET: usize = 0x50;

/// The injected capability behind the random-number instruction: a host
/// supplies real entropy, a test supplies a fixed source, and the machine
/// itself owns no entropy state.
pub trait RandomSource {
    fn random_byte(&mut self) -> u8;
}

/// The byte source that always yields zero, for machines that need no
/// entropy.
pub struct ZeroSource;

impl RandomSource for ZeroSource {
    fn random_byte(&mut self) -> (r: u8)
        ensures
            r == 0,
    {
        0
    }
}

/// The sixteen five-byte glyph sprites for the hexadecimal digits 0 to F.
pub open spec fn font() -> Seq<u8> {
    seq![
        0xF0u8, 0x90, 0x90, 0x90, 0xF0,
        0x20, 0x60, 0x20, 0x20, 0x70,
        0xF0, 0x10, 0xF0, 0x80, 0xF0,
        0xF0, 0x10, 0xF0, 0x10, 0xF0,
        0x90, 0x90, 0xF0, 0x10, 0x10,
        0xF0, 0x80, 0xF0, 0x10, 0xF0,
        0xF0, 0x80, 0xF0, 0x90, 0xF0,
        0xF0, 0x10, 0x20, 0x40, 0x40,
        0xF0, 0x90, 0xF0, 0x90, 0xF0,
        0xF0, 0x90, 0xF0, 0x10, 0xF0,
        0xF0, 0x90, 0xF0, 0x90, 0x90,
        0xE0, 0x90, 0xE0, 0x90, 0xE0,
        0xF0, 0x80, 0x80, 0x80, 0xF0,
        0xE0, 0x90, 0x90, 0x90, 0xE0,
        0xF0, 0x80, 0xF0, 0x80, 0xF0,
        0xF0, 0x80, 0xF0, 0x80, 0x80,
    ]
}

/// Whether the keypad bit for key `key` is set in the 16-bit mask `keys`.
/// A value outside the keypad range names no key and is never pressed.
pub open spec fn key_pressed(keys: u16, key: u8) -> bool {
    key < 16 && keys & (1u16 << (key as u16)) != 0
}

/// Whether bit `bit` of sprite byte `b` is set, bit 0 being the leftmost
/// (most significant) pixel of the sprite row.
pub open spec fn sprite_bit(b: u8, bit: int) -> bool
    recommends
        0 <= bit < 8,
{
    b & (0x80u8 >> (bit as u8)) != 0
}

/// The row value after the first `k` bits of sprite byte `b` are toggled
/// into `row`, the sprite's leftmost pixel at column `x`; columns past the
/// right edge of the grid are clipped.
pub open spec fn draw_byte_upto(row: u64, b: u8, x: u8, k: int) -> u64
    decreases k,
{
    if k <= 0 {
        row
    } else {
        let prev = draw_byte_upto(row, b, x, k - 1);
        if sprite_bit(b, k - 1) && x + k - 1 < 64 {
            prev ^ pix_mask((x + k - 1) as u8)
        } else {
            prev
        }
    }
}

/// The row value after sprite byte `b` is toggled into `row` at column `x`.
pub open spec fn draw_byte(row: u64, b: u8, x: u8) -> u64 {
    draw_byte_upto(row, b, x, 8)
}

/// Whether one of the first `k` bits of `b`, drawn at column `x`, lands on a
/// pixel of `row` that is already set (and so turns it off).
pub open spec fn byte_collision_upto(row: u64, b: u8, x: u8, k: int) -> bool
    decreases k,
{
    if k <= 0 {
        false
    } else {
        byte_collision_upto(row, b, x, k - 1) || (sprite_bit(b, k - 1) && x + k - 1 < 64
            && pixel_set(row, (x + k - 1) as u8))
    }
}

/// Whether sprite byte `b`, drawn at column `x`, turns any set pixel of
/// `row` off.
pub open spec fn byte_collision(row: u64, b: u8, x: u8) -> bool {
    byte_collision_upto(row, b, x, 8)
}

/// Sprite row `r` of the sprite at memory index `i`: addresses are reduced
/// into the 4096-byte memory.
pub open spec fn sprite_byte(mem: Seq<u8>, i: int, r: int) -> u8 {
    mem[(i + r) % 4096]
}

/// The display rows after the first `k` rows of the `n`-byte sprite at
/// memory index `i` are drawn with their base at column `x`, row `y`; rows
/// past the bottom edge are clipped.
pub open spec fn draw_sprite_upto(
    rows: Seq<u64>,
    mem: Seq<u8>,
    i: int,
    x: u8,
    y: u8,
    k: int,
) -> Seq<u64>
    decreases k,
{
    if k <= 0 {
        rows
    } else {
        let prev = draw_sprite_upto(rows, mem, i, x, y, k - 1);
        if y + k - 1 < 32 {
            prev.update(y + k - 1, draw_byte(prev[y + k - 1], sprite_byte(mem, i, k - 1), x))
        } else {
            prev
        }
    }
}

/// The display rows after the whole `n`-byte sprite is drawn.
pub open spec fn draw_sprite(rows: Seq<u64>, mem: Seq<u8>, i: int, x: u8, y: u8, n: int) -> Seq<
    u64,
> {
    draw_sprite_upto(rows, mem, i, x, y, n)
}

/// Whether one of the first `k` rows of the sprite turns a set pixel off.
/// Each sprite row lands on a distinct display row, so the original `rows`
/// decide every collision.
pub open spec fn sprite_collision_upto(
    rows: Seq<u64>,
    mem: Seq<u8>,
    i: int,
    x: u8,
    y: u8,
    k: int,
) -> bool
    decreases k,
{
    if k <= 0 {
        false
    } else {
        sprite_collision_upto(rows, mem, i, x, y, k - 1) || (y + k - 1 < 32 && byte_collision(
            rows[y + k - 1],
            sprite_byte(mem, i, k - 1),
            x,
        ))
    }
}

/// Whether drawing the whole `n`-byte sprite turns any set pixel off.
pub open spec fn sprite_collision(
    rows: Seq<u64>,
    mem: Seq<u8>,
    i: int,
    x: u8,
    y: u8,
    n: int,
) -> bool {
    sprite_collision_upto(rows, mem, i, x, y, n)
}

/// Toggling one single-bit mask leaves every other column's bit unchanged.
proof fn lemma_mask_distinct(r: u64, d: u8, c: u8)
    by (bit_vector)
    requires
        d < 64,
        c < 64,
        d != c,
    ensures
        (r ^ (1u64 << ((63 - d) as u64))) & (1u64 << ((63 - c) as u64)) == r & (1u64 << ((63 - c)
            as u64)),
{
}

/// Drawing the first `k` bits of a sprite byte touches no column at or past
/// `x + k`, so the pixel there still shows its original state.
proof fn lemma_draw_byte_upto_untouched(row: u64, b: u8, x: u8, k: int, c: u8)
    requires
        c < 64,
        x + k <= c,
    ensures
        draw_byte_upto(row, b, x, k) & pix_mask(c) == row & pix_mask(c),
    decreases k,
{
    if k > 0 {
        lemma_draw_byte_upto_untouched(row, b, x, k - 1, c);
        let prev = draw_byte_upto(row, b, x, k - 1);
        if sprite_bit(b, k - 1) && x + k - 1 < 64 {
            lemma_mask_distinct(prev, (x + k - 1) as u8, c);
        }
    }
}

/// Drawing the first `k` rows of a sprite touches no display row outside
/// `y .. y + k`, and keeps the number of rows.
proof fn lemma_draw_sprite_upto_untouched(
    rows: Seq<u64>,
    mem: Seq<u8>,
    i: int,
    x: u8,
    y: u8,
    k: int,
)
    requires
        rows.len() == 32,
    ensures
        draw_sprite_upto(rows, mem, i, x, y, k).len() == 32,
        forall|j: int|
            0 <= j < 32 && !(y <= j < y + k) ==> draw_sprite_upto(rows, mem, i, x, y, k)[j]
                == rows[j],
    decreases k,
{
    if k > 0 {
        lemma_draw_sprite_upto_untouched(rows, mem, i, x, y, k - 1);
    }
}

/// The accumulated single-bit masks of the first `k` drawn bits of sprite
/// byte `b` at column `x`.
spec fn byte_mask_upto(b: u8, x: u8, k: int) -> u64
    decreases k,
{
    if k <= 0 {
        0u64
    } else {
        byte_mask_upto(b, x, k - 1) ^ (if sprite_bit(b, k - 1) && x + k - 1 < 64 {
            pix_mask((x + k - 1) as u8)
        } else {
            0u64
        })
    }
}

/// Drawing a sprite byte XORs the accumulated mask of its drawn bits into
/// the row.
proof fn lemma_draw_byte_upto_xor(row: u64, b: u8, x: u8, k: int)
    ensures
        draw_byte_upto(row, b, x, k) == row ^ byte_mask_upto(b, x, k),
    decreases k,
{
    if k <= 0 {
        assert(row ^ 0u64 == row) by (bit_vector);
    } else {
        lemma_draw_byte_upto_xor(row, b, x, k - 1);
        let prev_mask = byte_mask_upto(b, x, k - 1);
        if sprite_bit(b, k - 1) && x + k - 1 < 64 {
            let m = pix_mask((x + k - 1) as u8);
            assert((row ^ prev_mask) ^ m == row ^ (prev_mask ^ m)) by (bit_vector);
        } else {
            assert(prev_mask ^ 0u64 == prev_mask) by (bit_vector);
        }
    }
}

/// The accumulated mask of the first `k` drawn bits holds no column at or
/// past `x + k` and none before `x`.
proof fn lemma_byte_mask_upto_untouched(b: u8, x: u8, k: int, c: u8)
    requires
        c < 64,
        !(x <= c < x + k),
    ensures
        byte_mask_upto(b, x, k) & pix_mask(c) == 0,
    decreases k,
{
    if k <= 0 {
        assert(0u64 & (1u64 << ((63 - c) as u64)) == 0) by (bit_vector);
    } else {
        lemma_byte_mask_upto_untouched(b, x, k - 1, c);
        let prev_mask = byte_mask_upto(b, x, k - 1);
        if sprite_bit(b, k - 1) && x + k - 1 < 64 {
            let d = (x + k - 1) as u8;
            assert((prev_mask ^ (1u64 << ((63 - d) as u64))) & (1u64 << ((63 - c) as u64))
                == 0) by (bit_vector)
                requires
                    d < 64,
                    c < 64,
                    d != c,
                    prev_mask & (1u64 << ((63 - c) as u64)) == 0,
            ;
        } else {
            assert(prev_mask ^ 0u64 == prev_mask) by (bit_vector);
        }
    }
}

/// Every drawn bit of a sprite byte stands in the accumulated mask.
proof fn lemma_byte_mask_contains(b: u8, x: u8, k: int, j: int)
    requires
        0 <= j < k <= 8,
        sprite_bit(b, j),
        x + j < 64,
    ensures
        byte_mask_upto(b, x, k) & pix_mask((x + j) as u8) != 0,
    decreases k,
{
    let c = (x + j) as u8;
    let prev_mask = byte_mask_upto(b, x, k - 1);
    if j == k - 1 {
        lemma_byte_mask_upto_untouched(b, x, k - 1, c);
        assert((prev_mask ^ (1u64 << ((63 - c) as u64))) & (1u64 << ((63 - c) as u64))
            != 0) by (bit_vector)
            requires
                c < 64,
                prev_mask & (1u64 << ((63 - c) as u64)) == 0,
        ;
    } else {
        lemma_byte_mask_contains(b, x, k - 1, j);
        if sprite_bit(b, k - 1) && x + k - 1 < 64 {
            let d = (x + k - 1) as u8;
            assert((prev_mask ^ (1u64 << ((63 - d) as u64))) & (1u64 << ((63 - c) as u64))
                != 0) by (bit_vector)
                requires
                    d < 64,
                    c < 64,
                    d != c,
                    prev_mask & (1u64 << ((63 - c) as u64)) != 0,
            ;
        } else {
            assert(prev_mask ^ 0u64 == prev_mask) by (bit_vector);
        }
    }
}

/// A drawn bit that lands on a set pixel witnesses a collision for the
/// whole byte.
proof fn lemma_byte_collision_witness(row: u64, b: u8, x: u8, k: int, j: int)
    requires
        0 <= j < k,
        sprite_bit(b, j),
        x + j < 64,
        pixel_set(row, (x + j) as u8),
    ensures
        byte_collision_upto(row, b, x, k),
    decreases k,
{
    if j < k - 1 {
        lemma_byte_collision_witness(row, b, x, k - 1, j);
    }
}

/// Drawing one sprite byte into a row twice restores the row: the XOR draw
/// is an involution.
pub proof fn lemma_draw_byte_involution(row: u64, b: u8, x: u8)
    ensures
        draw_byte(draw_byte(row, b, x), b, x) == row,
{
    lemma_draw_byte_upto_xor(row, b, x, 8);
    lemma_draw_byte_upto_xor(draw_byte(row, b, x), b, x, 8);
    let m = byte_mask_upto(b, x, 8);
    assert((row ^ m) ^ m == row) by (bit_vector);
}

/// Drawing a one-byte sprite twice at the same position leaves the display
/// exactly as it started, whatever was on it before.
pub proof fn lemma_draw_involution(rows: Seq<u64>, mem: Seq<u8>, i: int, x: u8, y: u8)
    requires
        rows.len() == 32,
    ensures
        draw_sprite(draw_sprite(rows, mem, i, x, y, 1), mem, i, x, y, 1) == rows,
{
    reveal_with_fuel(draw_sprite_upto, 2);
    let b = sprite_byte(mem, i, 0);
    if y < 32 {
        let once = draw_sprite(rows, mem, i, x, y, 1);
        assert(once == rows.update(y as int, draw_byte(rows[y as int], b, x)));
        lemma_draw_byte_involution(rows[y as int], b, x);
        let twice = draw_sprite(once, mem, i, x, y, 1);
        assert(twice =~= rows);
    }
}

/// A one-byte sprite with a bit that lands on the grid, drawn onto a clear
/// row, collides when drawn a second time at the same position: the second
/// draw turns the pixel it set back off. Bit `j` names one such landing bit.
pub proof fn lemma_second_draw_collides(
    rows: Seq<u64>,
    mem: Seq<u8>,
    i: int,
    x: u8,
    y: u8,
    j: int,
)
    requires
        rows.len() == 32,
        y < 32,
        rows[y as int] == 0,
        0 <= j < 8,
        sprite_bit(sprite_byte(mem, i, 0), j),
        x + j < 64,
    ensures
        sprite_collision(draw_sprite(rows, mem, i, x, y, 1), mem, i, x, y, 1),
{
    reveal_with_fuel(draw_sprite_upto, 2);
    reveal_with_fuel(sprite_collision_upto, 2);
    let b = sprite_byte(mem, i, 0);
    let once = draw_sprite(rows, mem, i, x, y, 1);
    assert(once == rows.update(y as int, draw_byte(0u64, b, x)));
    lemma_draw_byte_upto_xor(0u64, b, x, 8);
    let m = byte_mask_upto(b, x, 8);
    assert(0u64 ^ m == m) by (bit_vector);
    lemma_byte_mask_contains(b, x, 8, j);
    lemma_byte_collision_witness(once[y as int], b, x, 8, j);
}

/// Memory after the first `k` of the registers `V0 ..= Vx` are stored at
/// consecutive indices from `i`, reduced into the 4096-byte memory.
pub open spec fn store_regs_upto(mem: Seq<u8>, v: Seq<u8>, i: int, k: int) -> Seq<u8>
    decreases k,
{
    if k <= 0 {
        mem
    } else {
        store_regs_upto(mem, v, i, k - 1).update((i + k - 1) % 4096, v[k - 1])
    }
}

/// Registers after the first `k` of `V0 ..= Vx` are loaded from consecutive
/// memory indices from `i`, reduced into the 4096-byte memory.
pub open spec fn load_regs_upto(v: Seq<u8>, mem: Seq<u8>, i: int, k: int) -> Seq<u8>
    decreases k,
{
    if k <= 0 {
        v
    } else {
        load_regs_upto(v, mem, i, k - 1).update(k - 1, mem[(i + k - 1) % 4096])
    }
}

/// Toggles the set bits of sprite byte `b` into display row `yr`, the
/// leftmost sprite pixel at column `x`, clipping at the right edge, and
/// reports whether any toggled pixel was turned off.
fn draw_byte_row(display: &mut Display, b: u8, x: u8, yr: u8) -> (collide: bool)
    requires
        x < 64,
        yr < 32,
    ensures
        final(display).pixel_rows@ == old(display).pixel_rows@.update(
            yr as int,
            draw_byte(old(display).pixel_rows@[yr as int], b, x),
        ),
        collide == byte_collision(old(display).pixel_rows@[yr as int], b, x),
{
    let ghost row0 = display.pixel_rows@[yr as int];
    proof {
        assert(old(display).pixel_rows@.update(yr as int, row0) =~= old(display).pixel_rows@);
    }
    let mut collide = false;
    let mut bit: u8 = 0;
    while bit < 8
        invariant
            x < 64,
            yr < 32,
            bit <= 8,
            display.pixel_rows@ == old(display).pixel_rows@.update(
                yr as int,
                draw_byte_upto(row0, b, x, bit as int),
            ),
            collide == byte_collision_upto(row0, b, x, bit as int),
        decreases 8 - bit,
    {
        let col = x + bit;
        if (b & (0x80u8 >> bit)) != 0 && col < 64 {
            proof {
                lemma_draw_byte_upto_untouched(row0, b, x, bit as int, col);
            }
            let ghost before = display.pixel_rows@;
            let turned_on = display.toggle(col, yr);
            collide = collide || !turned_on;
            proof {
                assert(before[yr as int] == draw_byte_upto(row0, b, x, bit as int));
                assert(display.pixel_rows@ =~= old(display).pixel_rows@.update(
                    yr as int,
                    draw_byte_upto(row0, b, x, bit as int + 1),
                ));
            }
        }
        bit = bit + 1;
    }
    collide
}

/// The first pressed key scanning upward from key 0, or `None` when no key
/// is pressed.
fn first_pressed_key(keys: u16) -> (r: Option<u8>)
    ensures
        match r {
            Some(k) => key_pressed(keys, k) && (forall|j: u8| j < k ==> !key_pressed(keys, j)),
            None => forall|j: u8| !key_pressed(keys, j),
        },
{
    let mut key: u8 = 0;
    while key < 16
        invariant
            key <= 16,
            forall|j: u8| j < key ==> !key_pressed(keys, j),
        decreases 16 - key,
    {
        if keys & (1u16 << (key as u16)) != 0 {
            return Some(key);
        }
        key = key + 1;
    }
    None
}

/// The machine state: 4096 bytes of memory, the framebuffer, the program
/// counter and index register (both always inside memory), the bounded call
/// stack, the keypad mask, the two timers, the sixteen general registers and
/// the injected byte source.
pub struct Emulator<R: RandomSource> {
    pub memory: [u8; 4096],
    pub display: Display,
    pub pc: usize,
    pub i: usize,
    pub stack: Stack<16>,
    pub keys: u16,
    pub dt: u8,
    pub st: u8,
    pub v: [u8; 16],
    pub rng_func: R,
}

/// `post` is `pre` with register `x` set to `value` and nothing else
/// changed.
pub open spec fn reg_set<R: RandomSource>(
    pre: Emulator<R>,
    post: Emulator<R>,
    x: int,
    value: u8,
) -> bool {
    &&& post.v@ == pre.v@.update(x, value)
    &&& post == (Emulator { v: post.v, ..pre })
}

/// `post` is `pre` with register `x` set to `value` and then, as the last
/// effect, the flag register VF set to `flag`.
pub open spec fn reg_set_flag<R: RandomSource>(
    pre: Emulator<R>,
    post: Emulator<R>,
    x: int,
    value: u8,
    flag: u8,
) -> bool {
    &&& post.v@ == pre.v@.update(x, value).update(15, flag)
    &&& post == (Emulator { v: post.v, ..pre })
}

/// `post` is `pre` with the program counter advanced by one instruction
/// exactly when `skip` holds, and nothing else changed.
pub open spec fn pc_stepped<R: RandomSource>(pre: Emulator<R>, post: Emulator<R>, skip: bool) -> bool {
    post == (Emulator {
        pc: if skip {
            ((pre.pc + 2) % 4096) as usize
        } else {
            pre.pc
        },
        ..pre
    })
}

/// How one well-formed decoded instruction takes the machine from `pre` to
/// `post` with result `r`. The relation pins every field; only the byte
/// behind the random instruction, and with it the state of the injected
/// byte source, is left open.
pub open spec fn execute_rel<R: RandomSource>(
    pre: Emulator<R>,
    post: Emulator<R>,
    instruction: Instruction,
    r: Result<(), Error>,
) -> bool {
    let ok = r == Ok::<(), Error>(());
    match instruction {
        Instruction::SYS(_) => post == pre && ok,
        Instruction::CLS => {
            &&& forall|j: int| 0 <= j < 32 ==> post.display.pixel_rows@[j] == 0
            &&& post == (Emulator { display: post.display, ..pre })
            &&& ok
        },
        Instruction::RET => {
            if pre.stack@.len() == 0 {
                post == pre && r == Err::<(), Error>(Error::StackUnderflow)
            } else {
                &&& post.stack.wf()
                &&& post.stack@ == pre.stack@.drop_last()
                &&& post.pc == pre.stack@.last() % 4096
                &&& post == (Emulator { pc: post.pc, stack: post.stack, ..pre })
                &&& ok
            }
        },
        Instruction::JP(nnn) => post == (Emulator { pc: nnn, ..pre }) && ok,
        Instruction::CALL(nnn) => {
            if pre.stack@.len() == 16 {
                post == pre && r == Err::<(), Error>(Error::StackOverflow)
            } else {
                &&& post.stack.wf()
                &&& post.stack@ == pre.stack@.push(pre.pc)
                &&& post == (Emulator { pc: nnn, stack: post.stack, ..pre })
                &&& ok
            }
        },
        Instruction::SEVxKK(x, kk) => pc_stepped(pre, post, pre.v@[x as int] == kk) && ok,
        Instruction::SNEVxKK(x, kk) => pc_stepped(pre, post, pre.v@[x as int] != kk) && ok,
        Instruction::SEVxVy(x, y) => pc_stepped(pre, post, pre.v@[x as int] == pre.v@[y as int])
            && ok,
        Instruction::LDVxKK(x, kk) => reg_set(pre, post, x as int, kk) && ok,
        Instruction::ADDVxKK(x, kk) => reg_set(
            pre,
            post,
            x as int,
            ((pre.v@[x as int] + kk) % 256) as u8,
        ) && ok,
        Instruction::LDVxVy(x, y) => reg_set(pre, post, x as int, pre.v@[y as int]) && ok,
        Instruction::OR(x, y) => reg_set(pre, post, x as int, pre.v@[x as int] | pre.v@[y as int])
            && ok,
        Instruction::AND(x, y) => reg_set(pre, post, x as int, pre.v@[x as int] & pre.v@[y as int])
            && ok,
        Instruction::XOR(x, y) => reg_set(pre, post, x as int, pre.v@[x as int] ^ pre.v@[y as int])
            && ok,
        Instruction::ADD(x, y) => {
            let sum = pre.v@[x as int] + pre.v@[y as int];
            reg_set_flag(
                pre,
                post,
                x as int,
                (sum % 256) as u8,
                if sum >= 256 {
                    1u8
                } else {
                    0u8
                },
            ) && ok
        },
        Instruction::SUB(x, y) => {
            let vx = pre.v@[x as int];
            let vy = pre.v@[y as int];
            reg_set_flag(
                pre,
                post,
                x as int,
                ((vx - vy) % 256) as u8,
                if vx >= vy {
                    1u8
                } else {
                    0u8
                },
            ) && ok
        },
        Instruction::SHR(x, _) => {
            let vx = pre.v@[x as int];
            reg_set_flag(pre, post, x as int, vx >> 1u8, vx & 1) && ok
        },
        Instruction::SUBN(x, y) => {
            let vx = pre.v@[x as int];
            let vy = pre.v@[y as int];
            reg_set_flag(
                pre,
                post,
                x as int,
                ((vy - vx) % 256) as u8,
                if vy >= vx {
                    1u8
                } else {
                    0u8
                },
            ) && ok
        },
        Instruction::SHL(x, _) => {
            let vx = pre.v@[x as int];
            reg_set_flag(pre, post, x as int, vx << 1u8, (vx & 0x80) >> 7u8) && ok
        },
        Instruction::SNE(x, y) => pc_stepped(pre, post, pre.v@[x as int] != pre.v@[y as int]) && ok,
        Instruction::LDI(nnn) => post == (Emulator { i: nnn, ..pre }) && ok,
        Instruction::JPV0(nnn) => post == (Emulator {
            pc: ((nnn + pre.v@[0]) % 4096) as usize,
            ..pre
        }) && ok,
        Instruction::RND(x, kk) => {
            &&& (exists|b: u8| post.v@ == pre.v@.update(x as int, b & kk))
            &&& post == (Emulator { v: post.v, rng_func: post.rng_func, ..pre })
            &&& ok
        },
        Instruction::DRW(x, y, n) => {
            let px = (pre.v@[x as int] % 64) as u8;
            let py = (pre.v@[y as int] % 32) as u8;
            &&& post.display.pixel_rows@ == draw_sprite(
                pre.display.pixel_rows@,
                pre.memory@,
                pre.i as int,
                px,
                py,
                n as int,
            )
            &&& post.v@ == pre.v@.update(
                15,
                if sprite_collision(
                    pre.display.pixel_rows@,
                    pre.memory@,
                    pre.i as int,
                    px,
                    py,
                    n as int,
                ) {
                    1u8
                } else {
                    0u8
                },
            )
            &&& post == (Emulator { display: post.display, v: post.v, ..pre })
            &&& ok
        },
        Instruction::SKP(x) => pc_stepped(pre, post, key_pressed(pre.keys, pre.v@[x as int])) && ok,
        Instruction::SKNP(x) => pc_stepped(pre, post, !key_pressed(pre.keys, pre.v@[x as int]))
            && ok,
        Instruction::LDVxDT(x) => reg_set(pre, post, x as int, pre.dt) && ok,
        Instruction::LDVxK(x) => {
            &&& if exists|k: u8| key_pressed(pre.keys, k) {
                exists|k: u8|
                    {
                        &&& key_pressed(pre.keys, k)
                        &&& (forall|j: u8| j < k ==> !key_pressed(pre.keys, j))
                        &&& post.v@ == pre.v@.update(x as int, k)
                        &&& post.keys == pre.keys & !(1u16 << (k as u16))
                        &&& post == (Emulator { v: post.v, keys: post.keys, ..pre })
                    }
            } else {
                post == (Emulator { pc: ((pre.pc + 4094) % 4096) as usize, ..pre })
            }
            &&& ok
        },
        Instruction::LDDTVx(x) => post == (Emulator { dt: pre.v@[x as int], ..pre }) && ok,
        Instruction::LDSTVx(x) => post == (Emulator { st: pre.v@[x as int], ..pre }) && ok,
        Instruction::ADDIVx(x) => post == (Emulator {
            i: ((pre.i + pre.v@[x as int]) % 4096) as usize,
            ..pre
        }) && ok,
        Instruction::LDFVx(x) => post == (Emulator {
            i: (0x50 + (pre.v@[x as int] & 0xF) * 5) as usize,
            ..pre
        }) && ok,
        Instruction::LDBVx(x) => {
            let vx = pre.v@[x as int];
            &&& post.memory@ == pre.memory@.update(pre.i as int, (vx / 100) as u8).update(
                ((pre.i + 1) % 4096) as int,
                ((vx / 10) % 10) as u8,
            ).update(((pre.i + 2) % 4096) as int, (vx % 10) as u8)
            &&& post == (Emulator { memory: post.memory, ..pre })
            &&& ok
        },
        Instruction::LDIVx(x) => {
            &&& post.memory@ == store_regs_upto(pre.memory@, pre.v@, pre.i as int, x as int + 1)
            &&& post == (Emulator { memory: post.memory, ..pre })
            &&& ok
        },
        Instruction::LDVxI(x) => {
            &&& post.v@ == load_regs_upto(pre.v@, pre.memory@, pre.i as int, x as int + 1)
            &&& post == (Emulator { v: post.v, ..pre })
            &&& ok
        },
    }
}

/// How one whole fetch-decode-execute step takes the machine from `pre` to
/// `post` with result `r`: the big-endian word at the program counter is
/// fetched, the program counter advances by 2, and then the decoded
/// instruction executes, or decoding fails with the illegal-opcode error.
pub open spec fn step_rel<R: RandomSource>(
    pre: Emulator<R>,
    post: Emulator<R>,
    r: Result<(), Error>,
) -> bool {
    let opcode = pre.spec_fetch();
    let fetched = Emulator { pc: ((pre.pc + 2) % 4096) as usize, ..pre };
    match spec_decode(opcode) {
        Some(instruction) => execute_rel(fetched, post, instruction, r),
        None => post == fetched && r == Err::<(), Error>(Error::IllegalOpcode { opcode }),
    }
}

/// How `n` fetch-decode-execute steps take the machine from `pre` to
/// `post` with result `r`: either every step up to the last succeeded and
/// the last gives `r`, or the run already stopped on an error within fewer
/// steps and the state is frozen there.
pub open spec fn cycle_rel<R: RandomSource>(
    pre: Emulator<R>,
    post: Emulator<R>,
    n: nat,
    r: Result<(), Error>,
) -> bool
    decreases n,
{
    if n == 0 {
        post == pre && r == Ok::<(), Error>(())
    } else {
        (exists|mid: Emulator<R>|
            cycle_rel(pre, mid, (n - 1) as nat, Ok::<(), Error>(())) && #[trigger] step_rel(
                mid,
                post,
                r,
            )) || (r is Err && cycle_rel(pre, post, (n - 1) as nat, r))
    }
}

/// A successful `n`-step run followed by one more step is an `n + 1`-step
/// run with that step's result.
pub proof fn lemma_cycle_rel_snoc<R: RandomSource>(
    pre: Emulator<R>,
    mid: Emulator<R>,
    post: Emulator<R>,
    n: nat,
    r: Result<(), Error>,
)
    requires
        cycle_rel(pre, mid, n, Ok::<(), Error>(())),
        step_rel(mid, post, r),
    ensures
        cycle_rel(pre, post, n + 1, r),
{
    // `mid` witnesses the existential in the unfolding of `cycle_rel` at
    // `n + 1`; the assertion restates the prefix with the step count written
    // the way that unfolding writes it.
    assert(cycle_rel(pre, mid, (((n + 1) as nat) - 1) as nat, Ok::<(), Error>(())));
}

/// A run that stopped on an error within `n` steps has also stopped, in the
/// same state, within any larger budget of steps.
pub proof fn lemma_cycle_rel_err_extend<R: RandomSource>(
    pre: Emulator<R>,
    post: Emulator<R>,
    n: nat,
    m: nat,
    r: Result<(), Error>,
)
    requires
        cycle_rel(pre, post, n, r),
        r is Err,
        n <= m,
    ensures
        cycle_rel(pre, post, m, r),
    decreases m,
{
    if m > n {
        lemma_cycle_rel_err_extend(pre, post, n, (m - 1) as nat, r);
    }
}

impl<R: RandomSource> Emulator<R> {
    /// The program counter and index register stay inside the 4096-byte
    /// memory, and the call stack is sound.
    pub open spec fn wf(self) -> bool {
        &&& self.pc < 4096
        &&& self.i < 4096
        &&& self.stack.wf()
    }

    /// The construction-time state: everything zeroed but for the program
    /// counter at the program offset and the font table in memory.
    pub open spec fn is_initial(self) -> bool {
        &&& self.pc == 0x200
        &&& self.i == 0
        &&& self.dt == 0
        &&& self.st == 0
        &&& self.keys == 0
        &&& self.stack@ == Seq::<usize>::empty()
        &&& forall|j: int| 0 <= j < 16 ==> self.v@[j] == 0
        &&& forall|j: int| 0 <= j < 32 ==> self.display.pixel_rows@[j] == 0
        &&& forall|k: int| 0 <= k < 80 ==> self.memory@[0x50 + k] == font()[k]
        &&& forall|a: int| 0 <= a < 4096 && !(0x50 <= a < 0xA0) ==> self.memory@[a] == 0
    }

    /// A machine in the construction-time state, drawing random bytes from
    /// `rng_func`.
    pub fn new(rng_func: R) -> (e: Emulator<R>)
        ensures
            e.wf(),
            e.is_initial(),
            e.rng_func == rng_func,
    {
        let mut e = Emulator {
            memory: [0u8; 4096],
            display: Display::new(),
            pc: PROGRAM_OFFSET,
            v: [0u8; 16],
            i: 0,
            stack: Stack::new(),
            dt: 0,
            st: 0,
            rng_func,
            keys: 0,
        };
        e.load_font();
        e
    }

    /// Copies a program into memory at the program offset; the caller
    /// guarantees it fits below the end of memory.
    pub fn load_program(&mut self, program: &[u8])
        requires
            old(self).wf(),
            program@.len() <= 4096 - 0x200,
        ensures
            final(self).wf(),
            forall|j: int|
                0 <= j < program@.len() ==> final(self).memory@[0x200 + j] == program@[j],
            forall|a: int|
                0 <= a < 4096 && !(0x200 <= a < 0x200 + program@.len()) ==> final(self).memory@[a]
                    == old(self).memory@[a],
            *final(self) == (Emulator { memory: final(self).memory, ..*old(self) }),
    {
        let mut j: usize = 0;
        while j < program.len()
            invariant
                self.wf(),
                j <= program@.len(),
                program@.len() <= 4096 - 0x200,
                forall|k: int| 0 <= k < j ==> self.memory@[0x200 + k] == program@[k],
                forall|a: int|
                    0 <= a < 4096 && !(0x200 <= a < 0x200 + j) ==> self.memory@[a] == old(
                        self,
                    ).memory@[a],
                *self == (Emulator { memory: self.memory, ..*old(self) }),
            decreases program@.len() - j,
        {
            self.memory[0x200 + j] = program[j];
            j = j + 1;
        }
    }

    /// Returns every field to its construction-time value and reloads the
    /// font table; the previously loaded program is not retained.
    pub fn reset(&mut self)
        requires
            old(self).wf(),
        ensures
            final(self).wf(),
            final(self).is_initial(),
            final(self).rng_func == old(self).rng_func,
    {
        self.pc = PROGRAM_OFFSET;
        self.i = 0;
        self.dt = 0;
        self.st = 0;
        self.keys = 0;
        self.memory = [0u8; 4096];
        self.v = [0u8; 16];
        self.display.clear();
        self.stack.reset();
        self.load_font();
    }

    /// Decrements each timer by exactly one, floored at zero; meant to be
    /// driven once per real-time tick by the host, never by instructions.
    pub fn time_step(&mut self)
        requires
            old(self).wf(),
        ensures
            final(self).wf(),
            final(self).dt == if old(self).dt > 0 {
                (old(self).dt - 1) as u8
            } else {
                0u8
            },
            final(self).st == if old(self).st > 0 {
                (old(self).st - 1) as u8
            } else {
                0u8
            },
            *final(self) == (Emulator {
                dt: final(self).dt,
                st: final(self).st,
                ..*old(self)
            }),
    {
        if self.dt > 0 {
            self.dt = self.dt - 1;
        }
        if self.st > 0 {
            self.st = self.st - 1;
        }
    }

    /// Sets the keypad bit for `key`; every other key keeps its state.
    pub fn keydown(&mut self, key: u8)
        requires
            old(self).wf(),
            key < 16,
        ensures
            final(self).wf(),
            final(self).keys == old(self).keys | (1u16 << (key as u16)),
            forall|k: u8|
                key_pressed(final(self).keys, k) == (k == key || key_pressed(old(self).keys, k)),
            *final(self) == (Emulator { keys: final(self).keys, ..*old(self) }),
    {
        self.keys = self.keys | (1u16 << (key as u16));
        proof {
            assert forall|k: u8|
                key_pressed(self.keys, k) == (k == key || key_pressed(
                    old(self).keys,
                    k,
                )) by {
                lemma_key_bit_or(old(self).keys, key, k);
            }
        }
    }

    /// Clears the keypad bit for `key`; every other key keeps its state.
    pub fn keyup(&mut self, key: u8)
        requires
            old(self).wf(),
            key < 16,
        ensures
            final(self).wf(),
            final(self).keys == old(self).keys & !(1u16 << (key as u16)),
            forall|k: u8|
                key_pressed(final(self).keys, k) == (k != key && key_pressed(old(self).keys, k)),
            *final(self) == (Emulator { keys: final(self).keys, ..*old(self) }),
    {
        self.keys = self.keys & !(1u16 << (key as u16));
        proof {
            assert forall|k: u8|
                key_pressed(self.keys, k) == (k != key && key_pressed(
                    old(self).keys,
                    k,
                )) by {
                lemma_key_bit_and_not(old(self).keys, key, k);
            }
        }
    }

    /// The current sound timer value; the host plays a tone while it is
    /// above zero.
    pub fn sound_timer(&self) -> (r: u8)
        ensures
            r == self.st,
    {
        self.st
    }

    /// The big-endian 16-bit word at the program counter, the second byte
    /// read modulo the memory size.
    pub open spec fn spec_fetch(self) -> u16 {
        ((self.memory@[self.pc as int] as u16) << 8u16) | (self.memory@[((self.pc + 1) % 4096) as int] as u16)
    }

    fn fetch(&self) -> (op: u16)
        requires
            self.wf(),
        ensures
            op == self.spec_fetch(),
    {
        let hi = self.memory[self.pc] as u16;
        let lo = self.memory[(self.pc + 1) % 4096] as u16;
        (hi << 8u16) | lo
    }

    /// Writes the font glyph table over memory `0x50 .. 0xA0`, leaving the
    /// rest of memory and every other field as they were.
    fn load_font(&mut self)
        requires
            old(self).wf(),
        ensures
            final(self).wf(),
            forall|k: int| 0 <= k < 80 ==> final(self).memory@[0x50 + k] == font()[k],
            forall|a: int|
                0 <= a < 4096 && !(0x50 <= a < 0xA0) ==> final(self).memory@[a] == old(
                    self,
                ).memory@[a],
            *final(self) == (Emulator { memory: final(self).memory, ..*old(self) }),
    {
        let glyphs: [u8; 80] = [
            0xF0, 0x90, 0x90, 0x90, 0xF0,
            0x20, 0x60, 0x20, 0x20, 0x70,
            0xF0, 0x10, 0xF0, 0x80, 0xF0,
            0xF0, 0x10, 0xF0, 0x10, 0xF0,
            0x90, 0x90, 0xF0, 0x10, 0x10,
            0xF0, 0x80, 0xF0, 0x10, 0xF0,
            0xF0, 0x80, 0xF0, 0x90, 0xF0,
            0xF0, 0x10, 0x20, 0x40, 0x40,
            0xF0, 0x90, 0xF0, 0x90, 0xF0,
            0xF0, 0x90, 0xF0, 0x10, 0xF0,
            0xF0, 0x90, 0xF0, 0x90, 0x90,
            0xE0, 0x90, 0xE0, 0x90, 0xE0,
            0xF0, 0x80, 0x80, 0x80, 0xF0,
            0xE0, 0x90, 0x90, 0x90, 0xE0,
            0xF0, 0x80, 0xF0, 0x80, 0xF0,
            0xF0, 0x80, 0xF0, 0x80, 0x80,
        ];
        proof {
            assert(glyphs@ =~= font());
        }
        let mut k: usize = 0;
        while k < 80
            invariant
                self.wf(),
                k <= 80,
                glyphs@ == font(),
                forall|j: int| 0 <= j < k ==> self.memory@[0x50 + j] == font()[j],
                forall|a: int|
                    0 <= a < 4096 && !(0x50 <= a < 0x50 + k) ==> self.memory@[a] == old(
                        self,
                    ).memory@[a],
                *self == (Emulator { memory: self.memory, ..*old(self) }),
            decreases 80 - k,
        {
            self.memory[0x50 + k] = glyphs[k];
            k = k + 1;
        }
    }

    /// Draws the `n`-byte sprite at memory index `i`, its base at column
    /// `x`, row `y`, clipping pixels outside the grid, and leaves the flag
    /// register 1 exactly when a set pixel was turned off.
    fn draw_sprite_rows(&mut self, x: u8, y: u8, n: u8)
        requires
            old(self).wf(),
            x < 64,
            y < 32,
            n < 16,
        ensures
            final(self).wf(),
            final(self).display.pixel_rows@ == draw_sprite(
                old(self).display.pixel_rows@,
                old(self).memory@,
                old(self).i as int,
                x,
                y,
                n as int,
            ),
            final(self).v@ == old(self).v@.update(
                15,
                if sprite_collision(
                    old(self).display.pixel_rows@,
                    old(self).memory@,
                    old(self).i as int,
                    x,
                    y,
                    n as int,
                ) {
                    1u8
                } else {
                    0u8
                },
            ),
            *final(self) == (Emulator {
                display: final(self).display,
                v: final(self).v,
                ..*old(self)
            }),
    {
        let ghost rows0 = self.display.pixel_rows@;
        let ghost mem0 = self.memory@;
        let ghost i0 = self.i as int;
        self.v[15] = 0;
        let mut collided = false;
        let mut r: u8 = 0;
        while r < n
            invariant
                self.wf(),
                x < 64,
                y < 32,
                n < 16,
                r <= n,
                rows0 == old(self).display.pixel_rows@,
                mem0 == old(self).memory@,
                i0 == old(self).i as int,
                self.v@ == old(self).v@.update(15, 0u8),
                self.display.pixel_rows@ == draw_sprite_upto(rows0, mem0, i0, x, y, r as int),
                collided == sprite_collision_upto(rows0, mem0, i0, x, y, r as int),
                *self == (Emulator { display: self.display, v: self.v, ..*old(self) }),
            decreases n - r,
        {
            let yr = y + r;
            proof {
                lemma_draw_sprite_upto_untouched(rows0, mem0, i0, x, y, r as int);
            }
            if yr < 32 {
                let b = self.memory[(self.i + r as usize) % 4096];
                let c = draw_byte_row(&mut self.display, b, x, yr);
                collided = collided || c;
                proof {
                    assert(self.display.pixel_rows@ == draw_sprite_upto(
                        rows0,
                        mem0,
                        i0,
                        x,
                        y,
                        r as int + 1,
                    ));
                }
            }
            r = r + 1;
        }
        self.v[15] = if collided {
            1
        } else {
            0
        };
        proof {
            assert(self.v@ =~= old(self).v@.update(
                15,
                if sprite_collision(rows0, mem0, i0, x, y, n as int) {
                    1u8
                } else {
                    0u8
                },
            ));
        }
    }

    /// Applies one decoded instruction, committing all of its effects, or
    /// returns the first stack fault with every prior field unchanged.
    /// `execute_rel` states the exact effect of every instruction.
    pub fn execute(&mut self, instruction: Instruction) -> (r: Result<(), Error>)
        requires
            old(self).wf(),
            instruction.wf(),
        ensures
            final(self).wf(),
            execute_rel(*old(self), *final(self), instruction, r),
    {
        match instruction {
            Instruction::SYS(_) => {},
            Instruction::CLS => self.display.clear(),
            Instruction::RET => {
                match self.stack.pop() {
                    Ok(addr) => { self.pc = addr % 4096 },
                    Err(e) => { return Err(e) },
                }
            },
            Instruction::JP(nnn) => self.pc = nnn,
            Instruction::CALL(nnn) => {
                match self.stack.push(self.pc) {
                    Ok(_) => { self.pc = nnn },
                    Err(e) => { return Err(e) },
                }
            },
            Instruction::SEVxKK(x, kk) => {
                if self.v[x] == kk {
                    self.pc = (self.pc + 2) % 4096;
                }
            },
            Instruction::SNEVxKK(x, kk) => {
                if self.v[x] != kk {
                    self.pc = (self.pc + 2) % 4096;
                }
            },
            Instruction::SEVxVy(x, y) => {
                if self.v[x] == self.v[y] {
                    self.pc = (self.pc + 2) % 4096;
                }
            },
            Instruction::LDVxKK(x, kk) => self.v[x] = kk,
            Instruction::ADDVxKK(x, kk) => {
                let vx = self.v[x];
                let sum = vx.wrapping_add(kk);
                self.v[x] = sum;
                proof {
                    assert(sum == ((vx + kk) % 256) as u8);
                }
            },
            Instruction::LDVxVy(x, y) => self.v[x] = self.v[y],
            Instruction::OR(x, y) => self.v[x] = self.v[x] | self.v[y],
            Instruction::AND(x, y) => self.v[x] = self.v[x] & self.v[y],
            Instruction::XOR(x, y) => self.v[x] = self.v[x] ^ self.v[y],
            Instruction::ADD(x, y) => {
                let vx = self.v[x];
                let vy = self.v[y];
                let carry: u8 = if (vx as u16) + (vy as u16) >= 256 {
                    1
                } else {
                    0
                };
                self.v[x] = vx.wrapping_add(vy);
                self.v[15] = carry;
            },
            Instruction::SUB(x, y) => {
                let vx = self.v[x];
                let vy = self.v[y];
                let flag: u8 = if vx >= vy {
                    1
                } else {
                    0
                };
                self.v[x] = vx.wrapping_sub(vy);
                self.v[15] = flag;
            },
            Instruction::SHR(x, _) => {
                let vx = self.v[x];
                self.v[x] = vx >> 1u8;
                self.v[15] = vx & 1;
            },
            Instruction::SUBN(x, y) => {
                let vx = self.v[x];
                let vy = self.v[y];
                let flag: u8 = if vy >= vx {
                    1
                } else {
                    0
                };
                self.v[x] = vy.wrapping_sub(vx);
                self.v[15] = flag;
            },
            Instruction::SHL(x, _) => {
                let vx = self.v[x];
                self.v[x] = vx << 1u8;
                self.v[15] = (vx & 0x80) >> 7u8;
            },
            Instruction::SNE(x, y) => {
                if self.v[x] != self.v[y] {
                    self.pc = (self.pc + 2) % 4096;
                }
            },
            Instruction::LDI(nnn) => self.i = nnn,
            Instruction::JPV0(nnn) => self.pc = (nnn + self.v[0] as usize) % 4096,
            Instruction::RND(x, kk) => {
                let b = self.rng_func.random_byte();
                self.v[x] = b & kk;
                proof {
                    assert(self.v@ == old(self).v@.update(x as int, b & kk));
                }
            },
            Instruction::DRW(x, y, n) => {
                let pos_x = self.v[x] % 64;
                let pos_y = self.v[y] % 32;
                self.draw_sprite_rows(pos_x, pos_y, n);
            },
            Instruction::SKP(x) => {
                let vx = self.v[x];
                if vx < 16 && self.keys & (1u16 << (vx as u16)) != 0 {
                    self.pc = (self.pc + 2) % 4096;
                }
            },
            Instruction::SKNP(x) => {
                let vx = self.v[x];
                if !(vx < 16 && self.keys & (1u16 << (vx as u16)) != 0) {
                    self.pc = (self.pc + 2) % 4096;
                }
            },
            Instruction::LDVxDT(x) => self.v[x] = self.dt,
            Instruction::LDVxK(x) => {
                match first_pressed_key(self.keys) {
                    Some(key) => {
                        self.keyup(key);
                        self.v[x] = key;
                    },
                    None => {
                        self.pc = (self.pc + 4094) % 4096;
                    },
                }
            },
            Instruction::LDDTVx(x) => self.dt = self.v[x],
            Instruction::LDSTVx(x) => self.st = self.v[x],
            Instruction::ADDIVx(x) => self.i = (self.i + self.v[x] as usize) % 4096,
            Instruction::LDFVx(x) => {
                let vx = self.v[x];
                proof {
                    assert(vx & 0xF < 16) by (bit_vector);
                }
                self.i = FONT_OFFSET + ((vx & 0xF) as usize) * 5;
            },
            Instruction::LDBVx(x) => {
                let vx = self.v[x];
                self.memory[self.i] = vx / 100;
                self.memory[(self.i + 1) % 4096] = (vx / 10) % 10;
                self.memory[(self.i + 2) % 4096] = vx % 10;
            },
            Instruction::LDIVx(x) => {
                let mut j: usize = 0;
                while j <= x
                    invariant
                        self.wf(),
                        x < 16,
                        j <= x + 1,
                        self.memory@ == store_regs_upto(
                            old(self).memory@,
                            old(self).v@,
                            old(self).i as int,
                            j as int,
                        ),
                        *self == (Emulator { memory: self.memory, ..*old(self) }),
                    decreases x + 1 - j,
                {
                    self.memory[(self.i + j) % 4096] = self.v[j];
                    j = j + 1;
                }
            },
            Instruction::LDVxI(x) => {
                let mut j: usize = 0;
                while j <= x
                    invariant
                        self.wf(),
                        x < 16,
                        j <= x + 1,
                        self.v@ == load_regs_upto(
                            old(self).v@,
                            old(self).memory@,
                            old(self).i as int,
                            j as int,
                        ),
                        *self == (Emulator { v: self.v, ..*old(self) }),
                    decreases x + 1 - j,
                {
                    self.v[j] = self.memory[(self.i + j) % 4096];
                    j = j + 1;
                }
            },
        }
        Ok(())
    }

    /// Performs `times` fetch-decode-execute steps, stopping on the first
    /// illegal opcode or stack fault with the effects of every completed
    /// step intact; `cycle_rel` states the run exactly.
    pub fn cycle(&mut self, times: u32) -> (r: Result<(), Error>)
        requires
            old(self).wf(),
        ensures
            final(self).wf(),
            cycle_rel(*old(self), *final(self), times as nat, r),
    {
        let mut count: u32 = 0;
        while count < times
            invariant
                self.wf(),
                count <= times,
                cycle_rel(*old(self), *self, count as nat, Ok::<(), Error>(())),
            decreases times - count,
        {
            let ghost prev = *self;
            let opcode = self.fetch();
            self.pc = (self.pc + 2) % 4096;
            proof {
                assert(*self == (Emulator { pc: ((prev.pc + 2) % 4096) as usize, ..prev }));
            }
            match Instruction::try_from(opcode) {
                Ok(instruction) => {
                    match self.execute(instruction) {
                        Ok(_) => {},
                        Err(e) => {
                            proof {
                                assert(step_rel(prev, *self, Err::<(), Error>(e)));
                                lemma_cycle_rel_snoc(
                                    *old(self),
                                    prev,
                                    *self,
                                    count as nat,
                                    Err::<(), Error>(e),
                                );
                                lemma_cycle_rel_err_extend(
                                    *old(self),
                                    *self,
                                    (count + 1) as nat,
                                    times as nat,
                                    Err::<(), Error>(e),
                                );
                            }
                            return Err(e);
                        },
                    }
                },
                Err(e) => {
                    proof {
                        assert(step_rel(prev, *self, Err::<(), Error>(e)));
                        lemma_cycle_rel_snoc(
                            *old(self),
                            prev,
                            *self,
                            count as nat,
                            Err::<(), Error>(e),
                        );
                        lemma_cycle_rel_err_extend(
                            *old(self),
                            *self,
                            (count + 1) as nat,
                            times as nat,
                            Err::<(), Error>(e),
                        );
                    }
                    return Err(e);
                },
            }
            proof {
                assert(step_rel(prev, *self, Ok::<(), Error>(())));
                lemma_cycle_rel_snoc(*old(self), prev, *self, count as nat, Ok::<(), Error>(()));
            }
            count = count + 1;
        }
        Ok(())
    }
}

impl Emulator<ZeroSource> {
    /// A machine whose random bytes are all zero.
    pub fn except_rng() -> (e: Emulator<ZeroSource>)
        ensures
            e.wf(),
            e.is_initial(),
    {
        Emulator::new(ZeroSource)
    }
}

/// Setting one keypad bit leaves exactly the named key pressed in addition to
/// those already pressed.
proof fn lemma_key_bit_or(keys: u16, key: u8, k: u8)
    by (bit_vector)
    requires
        key < 16,
    ensures
        (k < 16 && (keys | (1u16 << (key as u16))) & (1u16 << (k as u16)) != 0) <==> (k == key || (
        k < 16 && keys & (1u16 << (k as u16)) != 0)),
{
}

/// Clearing one keypad bit leaves exactly the named key released and every
/// other key as it was.
proof fn lemma_key_bit_and_not(keys: u16, key: u8, k: u8)
    by (bit_vector)
    requires
        key < 16,
    ensures
        (k < 16 && (keys & !(1u16 << (key as u16))) & (1u16 << (k as u16)) != 0) <==> (k != key && (
        k < 16 && keys & (1u16 << (k as u16)) != 0)),
{
}

} // verus!
