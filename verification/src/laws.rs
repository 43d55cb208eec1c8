use vstd::prelude::*;

use crate::inst::{imm_of, nib_a, nib_b, nib_c, nib_d};
use crate::sem::{
    all_dark, draw_collision, draw_display, draw_hits, exec_spec, fetch_spec, step_spec, wf,
    wrap_add8, EmuError, EmuView,
};

verus! {

// Machine-checked laws of the instruction semantics, stated over the ghost
// transition function that the interpreter's `step` is proved to implement.

/// The instruction word stored big-endian at the program counter.
pub open spec fn word_at(s: EmuView) -> u16 {
    ((s.ram[s.pc as int] as u16) << 8) | (s.ram[s.pc as int + 1] as u16)
}

/// Whether `w` is one of the four conditional-skip opcodes.
pub open spec fn skip_family(w: u16) -> bool {
    ||| nib_a(w) == 3
    ||| nib_a(w) == 4
    ||| (nib_a(w) == 5 && nib_d(w) == 0)
    ||| (nib_a(w) == 9 && nib_d(w) == 0)
}

/// Whether the condition of the skip opcode `w` holds in state `s`.
pub open spec fn skip_taken(s: EmuView, w: u16) -> bool {
    let x = nib_b(w) as int;
    let y = nib_c(w) as int;
    if nib_a(w) == 3 {
        s.regs[x] == imm_of(w)
    } else if nib_a(w) == 4 {
        s.regs[x] != imm_of(w)
    } else if nib_a(w) == 5 {
        s.regs[x] == s.regs[y]
    } else {
        s.regs[x] != s.regs[y]
    }
}

/// The clear opcode always succeeds, turns every framebuffer cell off, and
/// touches nothing else.
pub proof fn lemma_clear(s: EmuView, w: u16, rnd: u8)
    requires
        nib_a(w) == 0,
        nib_b(w) == 0,
        nib_c(w) == 0xE,
        nib_d(w) == 0,
    ensures
        exec_spec(s, w, rnd) == Ok::<EmuView, EmuError>((EmuView { display: all_dark(), ..s })),
        forall|i: int| 0 <= i < 2048 ==> !exec_spec(s, w, rnd).unwrap().display[i],
{
}

/// The add-immediate opcode always succeeds: register `x` takes the wrapped
/// sum, every other register — the flag register included — keeps its value,
/// and nothing else changes.
pub proof fn lemma_add_immediate(s: EmuView, w: u16, rnd: u8)
    requires
        wf(s),
        nib_a(w) == 7,
    ensures
        exec_spec(s, w, rnd) matches Ok(t) && t == (EmuView { regs: t.regs, ..s })
            && t.regs[nib_b(w) as int] == wrap_add8(s.regs[nib_b(w) as int], imm_of(w)) && (forall|
            i: int,
        |
            0 <= i < 16 && i != nib_b(w) as int ==> t.regs[i] == s.regs[i]),
{
    crate::inst::lemma_field_bounds(w);
}

/// The add-register opcode (register `x` below the flag register) always
/// succeeds: register `x` takes the wrapped sum, the flag register takes the
/// carry, every other register keeps its value, and nothing else changes.
pub proof fn lemma_add_carry(s: EmuView, w: u16, rnd: u8)
    requires
        wf(s),
        nib_a(w) == 8,
        nib_d(w) == 4,
        nib_b(w) != 15,
    ensures
        exec_spec(s, w, rnd) matches Ok(t) && t == (EmuView { regs: t.regs, ..s })
            && t.regs[nib_b(w) as int] == wrap_add8(
            s.regs[nib_b(w) as int],
            s.regs[nib_c(w) as int],
        ) && t.regs[15] == (if s.regs[nib_b(w) as int] + s.regs[nib_c(w) as int] > 255 {
            1u8
        } else {
            0u8
        }) && (forall|i: int|
            0 <= i < 16 && i != nib_b(w) as int && i != 15 ==> t.regs[i] == s.regs[i]),
{
    crate::inst::lemma_field_bounds(w);
}

/// The subtract opcode (register `x` below the flag register) always
/// succeeds: register `x` takes the wrapped difference, the flag register
/// takes the inverted borrow (1 when no borrow, 0 when the subtraction
/// underflows), every other register keeps its value, and nothing else
/// changes.
pub proof fn lemma_sub_borrow(s: EmuView, w: u16, rnd: u8)
    requires
        wf(s),
        nib_a(w) == 8,
        nib_d(w) == 5,
        nib_b(w) != 15,
    ensures
        exec_spec(s, w, rnd) matches Ok(t) && t == (EmuView { regs: t.regs, ..s })
            && t.regs[nib_b(w) as int] == vstd::wrapping::u8_specs::wrapping_sub(
            s.regs[nib_b(w) as int],
            s.regs[nib_c(w) as int],
        ) && t.regs[15] == (if s.regs[nib_b(w) as int] >= s.regs[nib_c(w) as int] {
            1u8
        } else {
            0u8
        }) && (forall|i: int|
            0 <= i < 16 && i != nib_b(w) as int && i != 15 ==> t.regs[i] == s.regs[i]),
{
    crate::inst::lemma_field_bounds(w);
}

/// Clearing the display yields an all-off framebuffer, and clearing it again
/// after any successful draw in between yields an all-off framebuffer again:
/// clear, then draw, then clear always ends dark.
pub proof fn lemma_clear_draw_clear(
    a: EmuView,
    ra: u8,
    a1: EmuView,
    b: EmuView,
    rb: u8,
    b1: EmuView,
    dins: u16,
    c: EmuView,
    rc: u8,
    c1: EmuView,
)
    requires
        exec_spec(a, 0x00E0, ra) == Ok::<EmuView, EmuError>(a1),
        b.display == a1.display,
        nib_a(dins) == 0xD,
        exec_spec(b, dins, rb) == Ok::<EmuView, EmuError>(b1),
        c.display == b1.display,
        exec_spec(c, 0x00E0, rc) == Ok::<EmuView, EmuError>(c1),
    ensures
        c1.display == all_dark(),
        forall|i: int| 0 <= i < 2048 ==> !c1.display[i],
{
    assert(nib_a(0x00E0) == 0 && nib_b(0x00E0) == 0 && nib_c(0x00E0) == 0xE && nib_d(0x00E0)
        == 0) by (bit_vector);
}

/// Call/return round-trip: a call changes nothing but the program counter,
/// stack pointer and the pushed slot; a return executed from any later state
/// whose stack and stack pointer are untouched restores the exact pre-call
/// program counter and stack pointer, and changes nothing else.
pub proof fn lemma_call_return(s: EmuView, w: u16, rc: u8, t: EmuView, u: EmuView, rr: u8)
    requires
        wf(s),
        nib_a(w) == 2,
        s.sp < 16,
        exec_spec(s, w, rc) == Ok::<EmuView, EmuError>(t),
        u.sp == t.sp,
        u.stack == t.stack,
    ensures
        t == (EmuView { stack: t.stack, sp: t.sp, pc: t.pc, ..s }),
        exec_spec(u, 0x00EE, rr) matches Ok(v) && v.pc == s.pc && v.sp == s.sp && v == (EmuView {
            pc: s.pc,
            sp: s.sp,
            ..u
        }),
{
    assert(nib_a(0x00EE) == 0 && nib_b(0x00EE) == 0 && nib_c(0x00EE) == 0xE && nib_d(0x00EE)
        == 0xE) by (bit_vector);
    assert(t.sp == s.sp + 1);
    assert(u.stack[u.sp - 1] == s.stack.update(s.sp as int, s.pc)[s.sp as int]);
}

/// XOR-compositing the same sprite twice flips every hit cell twice, so the
/// framebuffer is restored; and the second pass collides whenever the first
/// pass lit some cell.
pub proof fn lemma_draw_involution(
    disp: Seq<bool>,
    ram: Seq<u8>,
    base: int,
    x0: int,
    y0: int,
    n: int,
)
    requires
        disp.len() == 2048,
    ensures
        draw_display(draw_display(disp, ram, base, x0, y0, n), ram, base, x0, y0, n) == disp,
        (exists|i: int|
            0 <= i < 2048 && !disp[i] && draw_display(disp, ram, base, x0, y0, n)[i])
            ==> draw_collision(draw_display(disp, ram, base, x0, y0, n), ram, base, x0, y0, n),
{
    let d1 = draw_display(disp, ram, base, x0, y0, n);
    let d2 = draw_display(d1, ram, base, x0, y0, n);
    assert forall|i: int| 0 <= i < 2048 implies d2[i] == disp[i] by {
        assert(d1[i] == (disp[i] ^ draw_hits(ram, base, x0, y0, n, i)));
        assert(d2[i] == (d1[i] ^ draw_hits(ram, base, x0, y0, n, i)));
    }
    assert(d2 =~= disp);
    if exists|i: int| 0 <= i < 2048 && !disp[i] && d1[i] {
        let i = choose|i: int| 0 <= i < 2048 && !disp[i] && d1[i];
        assert(d1[i] == (disp[i] ^ draw_hits(ram, base, x0, y0, n, i)));
        assert(draw_hits(ram, base, x0, y0, n, i));
        assert(draw_collision(d1, ram, base, x0, y0, n));
    }
}

/// XOR self-inverse of drawing: a second draw of the same sprite rows at the
/// same coordinates onto the first draw's output restores the framebuffer
/// and touches nothing but the framebuffer and the register file, and its
/// collision flag reports 1 whenever the first draw lit at least one pixel.
#[verifier::rlimit(60)]
pub proof fn lemma_draw_twice(
    s: EmuView,
    w: u16,
    r1: u8,
    t: EmuView,
    u: EmuView,
    r2: u8,
    v: EmuView,
)
    requires
        wf(s),
        wf(u),
        nib_a(w) == 0xD,
        exec_spec(s, w, r1) == Ok::<EmuView, EmuError>(t),
        u.display == t.display,
        u.ram == s.ram,
        u.r_i == s.r_i,
        u.regs[nib_b(w) as int] == s.regs[nib_b(w) as int],
        u.regs[nib_c(w) as int] == s.regs[nib_c(w) as int],
        exec_spec(u, w, r2) == Ok::<EmuView, EmuError>(v),
    ensures
        v.display == s.display,
        v == (EmuView { display: v.display, regs: v.regs, ..u }),
        (exists|i: int| 0 <= i < 2048 && !s.display[i] && t.display[i]) ==> v.regs[15] == 1,
{
    let base = s.r_i as int;
    let x0 = s.regs[nib_b(w) as int] as int;
    let y0 = s.regs[nib_c(w) as int] as int;
    let n = nib_d(w) as int;
    assert(t.display == draw_display(s.display, s.ram, base, x0, y0, n));
    assert(v.display == draw_display(t.display, s.ram, base, x0, y0, n));
    assert(v.regs[15] == (if draw_collision(t.display, s.ram, base, x0, y0, n) {
        1u8
    } else {
        0u8
    }));
    lemma_draw_involution(s.display, s.ram, base, x0, y0, n);
}

/// A conditional-skip instruction advances the program counter by 4 in total
/// (the fetch's 2 plus the skip's 2) when its condition holds, and by 2 when
/// it does not.
pub proof fn lemma_skip(s: EmuView, rnd: u8)
    requires
        wf(s),
        s.pc % 2 == 0,
        s.pc + 1 < 4096,
        skip_family(word_at(s)),
    ensures
        step_spec(s, rnd) matches Ok(v) && v.pc == (if skip_taken(s, word_at(s)) {
            s.pc + 4
        } else {
            s.pc + 2
        }),
{
    let w = word_at(s);
    let s1 = fetch_spec(s).unwrap().1;
    assert(fetch_spec(s) == Ok::<(u16, EmuView), EmuError>((w, s1)));
    assert(s1.pc == s.pc + 2);
    if nib_a(w) == 3 {
        assert(exec_spec(s1, w, rnd) is Ok);
    } else if nib_a(w) == 4 {
        assert(exec_spec(s1, w, rnd) is Ok);
    } else if nib_a(w) == 5 {
        assert(exec_spec(s1, w, rnd) is Ok);
    } else {
        assert(nib_a(w) == 9 && nib_d(w) == 0);
        assert(exec_spec(s1, w, rnd) is Ok);
    }
}

} // verus!
