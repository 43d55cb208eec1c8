use vstd::prelude::*;

use crate::inst::{addr_of, imm_of, nib_a, nib_b, nib_c, nib_d};

verus! {

// The mathematical model of the machine: a ghost snapshot of the whole
// state, and a total transition function for one fetch-execute cycle.

/// Ghost snapshot of the complete machine state.
#[verifier::ext_equal]
pub ghost struct EmuView {
    /// Program counter; instructions are two bytes wide.
    pub pc: u16,
    /// Stack pointer: number of return addresses currently on the stack.
    pub sp: u8,
    /// The address register `I`.
    pub r_i: u16,
    /// The sixteen general-purpose registers; register 15 doubles as the flag.
    pub regs: Seq<u8>,
    /// The sixteen-entry call stack of return addresses.
    pub stack: Seq<u16>,
    /// The 4096-byte memory.
    pub ram: Seq<u8>,
    /// Pressed state of the sixteen keys.
    pub keys: Seq<bool>,
    /// The 64x32 framebuffer, row-major.
    pub display: Seq<bool>,
    /// Delay timer.
    pub dt: u8,
    /// Sound timer.
    pub st: u8,
    /// Count of completed fetch-execute cycles.
    pub steps: u64,
    /// Cooperative termination flag.
    pub quit: bool,
}

/// Why execution halted.
#[derive(Clone, Copy, PartialEq, Eq, Structural, Debug)]
pub enum EmuError {
    /// The decoded nibble tuple matches no defined opcode.
    UnknownInstruction,
    /// A return was executed with an empty call stack.
    StackUnderflow,
    /// A call was executed with all sixteen stack slots in use.
    StackOverflow,
    /// An address computed by an opcode falls outside the 4096-byte memory.
    OutOfBounds,
    /// The program counter is odd at a fetch.
    MisalignedPc,
    /// A key index taken from a register is 16 or more.
    InvalidKey,
}

/// Structural well-formedness: the fixed sizes of the state's parts, and the
/// stack pointer staying within the sixteen stack slots.
pub open spec fn wf(s: EmuView) -> bool {
    &&& s.regs.len() == 16
    &&& s.stack.len() == 16
    &&& s.ram.len() == 4096
    &&& s.keys.len() == 16
    &&& s.display.len() == 2048
    &&& s.sp <= 16
}

/// An all-off framebuffer.
pub open spec fn all_dark() -> Seq<bool> {
    Seq::new(2048, |i: int| false)
}

/// The state with the program counter moved past the next instruction.
pub open spec fn skip_next(s: EmuView) -> EmuView {
    EmuView { pc: vstd::wrapping::u16_specs::wrapping_add(s.pc, 2), ..s }
}

/// Register file after writing the flag register (register 15).
pub open spec fn flag_set(regs: Seq<u8>, v: u8) -> Seq<u8> {
    regs.update(15, v)
}

/// 8-bit wrapping addition.
pub open spec fn wrap_add8(a: u8, b: u8) -> u8 {
    vstd::wrapping::u8_specs::wrapping_add(a, b)
}

/// Register file after a borrow-flagged subtraction `a - b` written to
/// register `x`: the flag is written first (1 when no borrow, 0 when the
/// subtraction underflows), then the wrapped difference.
pub open spec fn sub_update(regs: Seq<u8>, x: int, a: u8, b: u8) -> Seq<u8> {
    let flag: u8 = if a >= b {
        1
    } else {
        0
    };
    flag_set(regs, flag).update(x, vstd::wrapping::u8_specs::wrapping_sub(a, b))
}

/// The framebuffer cell that screen position `(x, y)` lands on, with
/// wrap-around: modulo 64 horizontally, modulo 32 vertically.
pub open spec fn pixel_index(x: int, y: int) -> int {
    (y % 32) * 64 + (x % 64)
}

/// Whether bit `c` (most-significant first) of a sprite row byte is set.
pub open spec fn sprite_bit(row: u8, c: int) -> bool {
    (row >> ((7 - c) as u8)) & 1 == 1
}

/// Whether some set sprite bit among the rows and columns processed before
/// position `(r_done, c_done)` (row-major order) lands on `cell`.
pub open spec fn draw_hits_upto(
    ram: Seq<u8>,
    base: int,
    x0: int,
    y0: int,
    r_done: int,
    c_done: int,
    cell: int,
) -> bool {
    exists|r: int, c: int|
        #![trigger sprite_bit(ram[base + r], c)]
        0 <= r && 0 <= c < 8 && (r < r_done || (r == r_done && c < c_done)) && sprite_bit(
            ram[base + r],
            c,
        ) && cell == pixel_index(x0 + c, y0 + r)
}

/// Whether some set bit of the `n`-row sprite at `base` lands on `cell` when
/// drawn at screen position `(x0, y0)`.
pub open spec fn draw_hits(
    ram: Seq<u8>,
    base: int,
    x0: int,
    y0: int,
    n: int,
    cell: int,
) -> bool {
    draw_hits_upto(ram, base, x0, y0, n, 0, cell)
}

/// The framebuffer after XOR-compositing the sprite: exactly the hit cells
/// are flipped.
pub open spec fn draw_display(
    disp: Seq<bool>,
    ram: Seq<u8>,
    base: int,
    x0: int,
    y0: int,
    n: int,
) -> Seq<bool> {
    Seq::new(2048, |cell: int| disp[cell] ^ draw_hits(ram, base, x0, y0, n, cell))
}

/// Whether some sprite bit processed before position `(r, c)` lands on a
/// cell of `disp` that was already lit.
pub open spec fn collision_upto(
    disp: Seq<bool>,
    ram: Seq<u8>,
    base: int,
    x0: int,
    y0: int,
    r: int,
    c: int,
) -> bool {
    exists|cell: int|
        #![trigger draw_hits_upto(ram, base, x0, y0, r, c, cell)]
        0 <= cell < 2048 && disp[cell] && draw_hits_upto(ram, base, x0, y0, r, c, cell)
}

/// Whether the draw clears some previously-set pixel: a set sprite bit lands
/// on a cell that was already lit.
pub open spec fn draw_collision(
    disp: Seq<bool>,
    ram: Seq<u8>,
    base: int,
    x0: int,
    y0: int,
    n: int,
) -> bool {
    collision_upto(disp, ram, base, x0, y0, n, 0)
}

/// Index of the first pressed key at or after `i`, if any.
pub open spec fn first_key_from(keys: Seq<bool>, i: int) -> Option<u8>
    decreases 16 - i,
{
    if i < 0 || i >= 16 {
        None
    } else if keys[i] {
        Some(i as u8)
    } else {
        first_key_from(keys, i + 1)
    }
}

/// Memory after storing registers 0 through `x` at `base` onward.
pub open spec fn store_regs_spec(ram: Seq<u8>, regs: Seq<u8>, base: int, x: int) -> Seq<u8> {
    Seq::new(4096, |i: int| if base <= i <= base + x {
        regs[i - base]
    } else {
        ram[i]
    })
}

/// Register file after loading registers 0 through `x` from `base` onward.
pub open spec fn load_regs_spec(ram: Seq<u8>, regs: Seq<u8>, base: int, x: int) -> Seq<u8> {
    Seq::new(16, |i: int| if i <= x {
        ram[base + i]
    } else {
        regs[i]
    })
}

/// Memory after storing the three decimal digits of `vx` at `base`.
pub open spec fn bcd_spec(ram: Seq<u8>, base: int, vx: u8) -> Seq<u8> {
    ram.update(base, (vx / 100) % 10).update(base + 1, (vx / 10) % 10).update(base + 2, vx % 10)
}

/// Executes one decoded instruction from the post-fetch state `s`. The word
/// `w` is the fetched instruction; `rnd` is the byte the random source
/// produced, consumed only by the `Cxkk` opcode. Where the machine would
/// block waiting for a key, the program counter is rewound two bytes so the
/// same instruction re-executes on the next cycle; no other instruction can
/// run in between and the eventual register write is the same.
pub open spec fn exec_spec(s: EmuView, w: u16, rnd: u8) -> Result<EmuView, EmuError> {
    let x = nib_b(w) as int;
    let y = nib_c(w) as int;
    let kk = imm_of(w);
    let nnn = addr_of(w);
    match (nib_a(w), nib_b(w), nib_c(w), nib_d(w)) {
        (0, 0, 0, 0) => Ok(s),
        (0, 0, 0xE, 0) => Ok(EmuView { display: all_dark(), ..s }),
        (0, 0, 0xE, 0xE) => if s.sp == 0 {
            Err(EmuError::StackUnderflow)
        } else {
            Ok(EmuView { pc: s.stack[s.sp - 1], sp: (s.sp - 1) as u8, ..s })
        },
        (1, _, _, _) => Ok(EmuView { pc: nnn, ..s }),
        (2, _, _, _) => if s.sp >= 16 {
            Err(EmuError::StackOverflow)
        } else {
            Ok(
                EmuView {
                    stack: s.stack.update(s.sp as int, s.pc),
                    sp: (s.sp + 1) as u8,
                    pc: nnn,
                    ..s
                },
            )
        },
        (3, _, _, _) => Ok(
            if s.regs[x] == kk {
                skip_next(s)
            } else {
                s
            },
        ),
        (4, _, _, _) => Ok(
            if s.regs[x] != kk {
                skip_next(s)
            } else {
                s
            },
        ),
        (5, _, _, 0) => Ok(
            if s.regs[x] == s.regs[y] {
                skip_next(s)
            } else {
                s
            },
        ),
        (6, _, _, _) => Ok(EmuView { regs: s.regs.update(x, kk), ..s }),
        (7, _, _, _) => Ok(EmuView { regs: s.regs.update(x, wrap_add8(s.regs[x], kk)), ..s }),
        (8, _, _, 0) => Ok(EmuView { regs: s.regs.update(x, s.regs[y]), ..s }),
        (8, _, _, 1) => Ok(EmuView { regs: s.regs.update(x, s.regs[x] | s.regs[y]), ..s }),
        (8, _, _, 2) => Ok(EmuView { regs: s.regs.update(x, s.regs[x] & s.regs[y]), ..s }),
        (8, _, _, 3) => Ok(EmuView { regs: s.regs.update(x, s.regs[x] ^ s.regs[y]), ..s }),
        (8, _, _, 4) => {
            let flag: u8 = if s.regs[x] + s.regs[y] > 255 {
                1
            } else {
                0
            };
            Ok(
                EmuView {
                    regs: flag_set(s.regs, flag).update(x, wrap_add8(s.regs[x], s.regs[y])),
                    ..s
                },
            )
        },
        (8, _, _, 5) => Ok(EmuView { regs: sub_update(s.regs, x, s.regs[x], s.regs[y]), ..s }),
        (8, _, _, 6) => {
            let flag: u8 = if s.regs[x] & 1 == 1 {
                1
            } else {
                0
            };
            let r1 = flag_set(s.regs, flag);
            Ok(EmuView { regs: r1.update(x, r1[x] >> 1), ..s })
        },
        (8, _, _, 7) => Ok(EmuView { regs: sub_update(s.regs, x, s.regs[y], s.regs[x]), ..s }),
        (8, _, _, 0xE) => {
            let flag: u8 = (s.regs[x] & 0x80) >> 7;
            let r1 = flag_set(s.regs, flag);
            Ok(EmuView { regs: r1.update(x, (r1[x] << 1) as u8), ..s })
        },
        (9, _, _, 0) => Ok(
            if s.regs[x] != s.regs[y] {
                skip_next(s)
            } else {
                s
            },
        ),
        (0xA, _, _, _) => Ok(EmuView { r_i: nnn, ..s }),
        (0xB, _, _, _) => Ok(EmuView { pc: (nnn + s.regs[0]) as u16, ..s }),
        (0xC, _, _, _) => Ok(EmuView { regs: s.regs.update(x, rnd & kk), ..s }),
        (0xD, _, _, _) => {
            let n = nib_d(w) as int;
            let base = s.r_i as int;
            let x0 = s.regs[x] as int;
            let y0 = s.regs[y] as int;
            if n > 0 && base + n > 4096 {
                Err(EmuError::OutOfBounds)
            } else {
                let col = draw_collision(s.display, s.ram, base, x0, y0, n);
                Ok(
                    EmuView {
                        display: draw_display(s.display, s.ram, base, x0, y0, n),
                        regs: flag_set(
                            s.regs,
                            if col {
                                1
                            } else {
                                0
                            },
                        ),
                        ..s
                    },
                )
            }
        },
        (0xE, _, 9, 0xE) => if s.regs[x] >= 16 {
            Err(EmuError::InvalidKey)
        } else {
            Ok(
                if s.keys[s.regs[x] as int] {
                    skip_next(s)
                } else {
                    s
                },
            )
        },
        (0xE, _, 0xA, 1) => if s.regs[x] >= 16 {
            Err(EmuError::InvalidKey)
        } else {
            Ok(
                if !s.keys[s.regs[x] as int] {
                    skip_next(s)
                } else {
                    s
                },
            )
        },
        (0xF, _, 0, 7) => Ok(EmuView { regs: s.regs.update(x, s.dt), ..s }),
        (0xF, _, 0, 0xA) => match first_key_from(s.keys, 0) {
            Some(k) => Ok(EmuView { regs: s.regs.update(x, k), ..s }),
            None => Ok(EmuView { pc: vstd::wrapping::u16_specs::wrapping_sub(s.pc, 2), ..s }),
        },
        (0xF, _, 1, 5) => Ok(EmuView { dt: s.regs[x], ..s }),
        (0xF, _, 1, 8) => Ok(EmuView { st: s.regs[x], ..s }),
        (0xF, _, 1, 0xE) => if s.r_i + s.regs[x] > 0xFFFF {
            Err(EmuError::OutOfBounds)
        } else {
            Ok(EmuView { r_i: (s.r_i + s.regs[x]) as u16, ..s })
        },
        (0xF, _, 2, 9) => Ok(EmuView { r_i: (s.regs[x] * 5) as u16, ..s }),
        (0xF, _, 3, 3) => if s.r_i + 2 >= 4096 {
            Err(EmuError::OutOfBounds)
        } else {
            Ok(EmuView { ram: bcd_spec(s.ram, s.r_i as int, s.regs[x]), ..s })
        },
        (0xF, _, 5, 5) => if s.r_i + nib_b(w) >= 4096 {
            Err(EmuError::OutOfBounds)
        } else {
            Ok(EmuView { ram: store_regs_spec(s.ram, s.regs, s.r_i as int, x), ..s })
        },
        (0xF, _, 6, 5) => if s.r_i + nib_b(w) >= 4096 {
            Err(EmuError::OutOfBounds)
        } else {
            Ok(EmuView { regs: load_regs_spec(s.ram, s.regs, s.r_i as int, x), ..s })
        },
        _ => Err(EmuError::UnknownInstruction),
    }
}

/// Fetches the two bytes at the program counter, combined big-endian, and
/// advances the program counter by two. The counter must be even and the
/// second byte must lie inside memory.
pub open spec fn fetch_spec(s: EmuView) -> Result<(u16, EmuView), EmuError> {
    if s.pc % 2 != 0 {
        Err(EmuError::MisalignedPc)
    } else if s.pc + 1 >= 4096 {
        Err(EmuError::OutOfBounds)
    } else {
        Ok(
            (
                ((s.ram[s.pc as int] as u16) << 8) | (s.ram[s.pc as int + 1] as u16),
                EmuView { pc: (s.pc + 2) as u16, ..s },
            ),
        )
    }
}

/// One complete cycle: fetch, execute, and count the completed step.
pub open spec fn step_spec(s: EmuView, rnd: u8) -> Result<EmuView, EmuError> {
    match fetch_spec(s) {
        Err(e) => Err(e),
        Ok((w, s1)) => match exec_spec(s1, w, rnd) {
            Err(e) => Err(e),
            Ok(s2) => Ok(
                EmuView { steps: vstd::wrapping::u64_specs::wrapping_add(s2.steps, 1), ..s2 },
            ),
        },
    }
}

/// The state a failed cycle leaves behind: untouched when the fetch itself
/// failed, and with only the program counter advanced past the fetched
/// instruction when executing it failed.
pub open spec fn step_err_state(s: EmuView) -> EmuView {
    if fetch_spec(s) is Err {
        s
    } else {
        EmuView { pc: (s.pc + 2) as u16, ..s }
    }
}

/// `s1` is reached from `s0` by at most `fuel` successful cycles.
pub open spec fn runs_within(s0: EmuView, s1: EmuView, fuel: nat) -> bool
    decreases fuel,
{
    s0 == s1 || (fuel > 0 && exists|rnd: u8, m: EmuView|
        #![auto]
        step_spec(s0, rnd) == Ok::<EmuView, EmuError>(m) && runs_within(m, s1, (fuel - 1) as nat))
}

/// `s1` is reached from `s0` by some number of successful cycles.
pub open spec fn reaches(s0: EmuView, s1: EmuView) -> bool {
    exists|fuel: nat| runs_within(s0, s1, fuel)
}

/// The first pressed key at or after `lo` is the pressed key `k` when no key
/// between them is pressed.
pub proof fn lemma_first_key_found(keys: Seq<bool>, lo: int, k: int)
    requires
        0 <= lo <= k < 16,
        keys[k],
        forall|j: int| lo <= j < k ==> !keys[j],
    ensures
        first_key_from(keys, lo) == Some((k as u8)),
    decreases k - lo,
{
    if lo < k {
        lemma_first_key_found(keys, lo + 1, k);
    }
}

/// With no key pressed at or after `lo`, there is no first pressed key.
pub proof fn lemma_first_key_none(keys: Seq<bool>, lo: int)
    requires
        0 <= lo,
        forall|j: int| lo <= j < 16 ==> !keys[j],
    ensures
        first_key_from(keys, lo) is None,
    decreases 16 - lo,
{
    if lo < 16 {
        lemma_first_key_none(keys, lo + 1);
    }
}

/// Distinct sprite positions land on distinct framebuffer cells: with at
/// most 16 rows and 8 columns, the wrapped coordinates cannot coincide.
pub proof fn lemma_pixel_injective(x0: int, y0: int, r1: int, c1: int, r2: int, c2: int)
    requires
        0 <= x0,
        0 <= y0,
        0 <= r1 < 16,
        0 <= c1 < 8,
        0 <= r2 < 16,
        0 <= c2 < 8,
        pixel_index(x0 + c1, y0 + r1) == pixel_index(x0 + c2, y0 + r2),
    ensures
        r1 == r2,
        c1 == c2,
{
    let yy1 = (y0 + r1) % 32;
    let xx1 = (x0 + c1) % 64;
    let yy2 = (y0 + r2) % 32;
    let xx2 = (x0 + c2) % 64;
    assert(0 <= yy1 < 32 && 0 <= xx1 < 64 && 0 <= yy2 < 32 && 0 <= xx2 < 64) by (nonlinear_arith)
        requires
            0 <= x0 && 0 <= y0 && 0 <= r1 && 0 <= c1 && 0 <= r2 && 0 <= c2 && yy1 == (y0 + r1) % 32
                && xx1 == (x0 + c1) % 64 && yy2 == (y0 + r2) % 32 && xx2 == (x0 + c2) % 64,
    ;
    assert(yy1 == yy2 && xx1 == xx2);
    assert(r1 == r2) by (nonlinear_arith)
        requires
            0 <= y0 && 0 <= r1 < 16 && 0 <= r2 < 16 && (y0 + r1) % 32 == (y0 + r2) % 32,
    ;
    assert(c1 == c2) by (nonlinear_arith)
        requires
            0 <= x0 && 0 <= c1 < 8 && 0 <= c2 < 8 && (x0 + c1) % 64 == (x0 + c2) % 64,
    ;
}

/// Moving one column further in a row extends the hit set by exactly the
/// cell that column's bit lands on, when that bit is set.
pub proof fn lemma_upto_col_step(ram: Seq<u8>, base: int, x0: int, y0: int, r: int, c: int)
    requires
        0 <= c < 8,
        0 <= r,
    ensures
        forall|cell: int|
            #[trigger] draw_hits_upto(ram, base, x0, y0, r, c + 1, cell) <==> (draw_hits_upto(
                ram,
                base,
                x0,
                y0,
                r,
                c,
                cell,
            ) || (sprite_bit(ram[base + r], c) && cell == pixel_index(x0 + c, y0 + r))),
{
    assert forall|cell: int|
        #[trigger] draw_hits_upto(ram, base, x0, y0, r, c + 1, cell) <==> (draw_hits_upto(
            ram,
            base,
            x0,
            y0,
            r,
            c,
            cell,
        ) || (sprite_bit(ram[base + r], c) && cell == pixel_index(x0 + c, y0 + r))) by {
        if draw_hits_upto(ram, base, x0, y0, r, c + 1, cell) {
            let (rr, cc) = choose|rr: int, cc: int|
                #![trigger sprite_bit(ram[base + rr], cc)]
                0 <= rr && 0 <= cc < 8 && (rr < r || (rr == r && cc < c + 1)) && sprite_bit(
                    ram[base + rr],
                    cc,
                ) && cell == pixel_index(x0 + cc, y0 + rr);
            if rr == r && cc == c {
                assert(sprite_bit(ram[base + r], c) && cell == pixel_index(x0 + c, y0 + r));
            } else {
                assert(rr < r || (rr == r && cc < c));
                assert(draw_hits_upto(ram, base, x0, y0, r, c, cell));
            }
        }
        if draw_hits_upto(ram, base, x0, y0, r, c, cell) {
            let (rr, cc) = choose|rr: int, cc: int|
                #![trigger sprite_bit(ram[base + rr], cc)]
                0 <= rr && 0 <= cc < 8 && (rr < r || (rr == r && cc < c)) && sprite_bit(
                    ram[base + rr],
                    cc,
                ) && cell == pixel_index(x0 + cc, y0 + rr);
            assert(sprite_bit(ram[base + rr], cc) && cell == pixel_index(x0 + cc, y0 + rr));
            assert(draw_hits_upto(ram, base, x0, y0, r, c + 1, cell));
        }
        if sprite_bit(ram[base + r], c) && cell == pixel_index(x0 + c, y0 + r) {
            assert(0 <= r && 0 <= c < 8 && (r < r || (r == r && c < c + 1)) && sprite_bit(
                ram[base + r],
                c,
            ) && cell == pixel_index(x0 + c, y0 + r));
            assert(draw_hits_upto(ram, base, x0, y0, r, c + 1, cell));
        }
    }
}

/// Finishing a row's eight columns is the same as standing at the start of
/// the next row.
pub proof fn lemma_upto_row_step(ram: Seq<u8>, base: int, x0: int, y0: int, r: int)
    requires
        0 <= r,
    ensures
        forall|cell: int|
            #[trigger] draw_hits_upto(ram, base, x0, y0, r + 1, 0, cell) <==> draw_hits_upto(
                ram,
                base,
                x0,
                y0,
                r,
                8,
                cell,
            ),
{
    assert forall|cell: int|
        #[trigger] draw_hits_upto(ram, base, x0, y0, r + 1, 0, cell) <==> draw_hits_upto(
            ram,
            base,
            x0,
            y0,
            r,
            8,
            cell,
        ) by {
        if draw_hits_upto(ram, base, x0, y0, r + 1, 0, cell) {
            let (rr, cc) = choose|rr: int, cc: int|
                #![trigger sprite_bit(ram[base + rr], cc)]
                0 <= rr && 0 <= cc < 8 && (rr < r + 1 || (rr == r + 1 && cc < 0)) && sprite_bit(
                    ram[base + rr],
                    cc,
                ) && cell == pixel_index(x0 + cc, y0 + rr);
            assert(rr < r || (rr == r && cc < 8));
            assert(draw_hits_upto(ram, base, x0, y0, r, 8, cell));
        }
        if draw_hits_upto(ram, base, x0, y0, r, 8, cell) {
            let (rr, cc) = choose|rr: int, cc: int|
                #![trigger sprite_bit(ram[base + rr], cc)]
                0 <= rr && 0 <= cc < 8 && (rr < r || (rr == r && cc < 8)) && sprite_bit(
                    ram[base + rr],
                    cc,
                ) && cell == pixel_index(x0 + cc, y0 + rr);
            assert(rr < r + 1);
            assert(draw_hits_upto(ram, base, x0, y0, r + 1, 0, cell));
        }
    }
}

/// Before position `(r, c)` (row-major, rows below 16) no processed sprite
/// bit lands on the cell that position `(r, c)` itself lands on.
pub proof fn lemma_upto_fresh(
    ram: Seq<u8>,
    base: int,
    x0: int,
    y0: int,
    r: int,
    c: int,
)
    requires
        0 <= x0,
        0 <= y0,
        0 <= r < 16,
        0 <= c < 8,
    ensures
        !draw_hits_upto(ram, base, x0, y0, r, c, pixel_index(x0 + c, y0 + r)),
{
    let cell = pixel_index(x0 + c, y0 + r);
    if draw_hits_upto(ram, base, x0, y0, r, c, cell) {
        let (rr, cc) = choose|rr: int, cc: int|
            #![trigger sprite_bit(ram[base + rr], cc)]
            0 <= rr && 0 <= cc < 8 && (rr < r || (rr == r && cc < c)) && sprite_bit(
                ram[base + rr],
                cc,
            ) && cell == pixel_index(x0 + cc, y0 + rr);
        lemma_pixel_injective(x0, y0, rr, cc, r, c);
        assert(false);
    }
}

/// Reachability extends by one more successful cycle.
pub proof fn lemma_runs_extend(s0: EmuView, s1: EmuView, fuel: nat, rnd: u8, s2: EmuView)
    requires
        runs_within(s0, s1, fuel),
        step_spec(s1, rnd) == Ok::<EmuView, EmuError>(s2),
    ensures
        runs_within(s0, s2, fuel + 1),
    decreases fuel,
{
    if s0 == s1 {
        assert(runs_within(s2, s2, fuel));
    } else {
        let (rnd1, m) = choose|rnd1: u8, m: EmuView|
            #![auto]
            step_spec(s0, rnd1) == Ok::<EmuView, EmuError>(m) && runs_within(
                m,
                s1,
                (fuel - 1) as nat,
            );
        lemma_runs_extend(m, s1, (fuel - 1) as nat, rnd, s2);
    }
}

/// A state reaches itself.
pub proof fn lemma_reaches_refl(s: EmuView)
    ensures
        reaches(s, s),
{
    assert(runs_within(s, s, 0));
}

/// One more successful cycle keeps reachability.
pub proof fn lemma_reaches_step(s0: EmuView, s1: EmuView, rnd: u8, s2: EmuView)
    requires
        reaches(s0, s1),
        step_spec(s1, rnd) == Ok::<EmuView, EmuError>(s2),
    ensures
        reaches(s0, s2),
{
    let fuel = choose|fuel: nat| runs_within(s0, s1, fuel);
    lemma_runs_extend(s0, s1, fuel, rnd, s2);
}

} // verus!
