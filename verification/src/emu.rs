use vstd::prelude::*;

use crate::inst::Instruction;
use crate::ram::{font_spec, Ram};
use crate::sem::{
    all_dark, bcd_spec, collision_upto, draw_collision, draw_display, draw_hits_upto, exec_spec,
    fetch_spec, flag_set, lemma_first_key_found, lemma_first_key_none, lemma_reaches_refl,
    lemma_reaches_step, lemma_upto_col_step, lemma_upto_fresh, lemma_upto_row_step,
    load_regs_spec, pixel_index, reaches, skip_next, sprite_bit, step_err_state, step_spec,
    store_regs_spec,
    sub_update, wf, wrap_add8, EmuError, EmuView,
};

verus! {

/// The machine state a fresh interpreter starts in: zeroed memory and
/// registers, an all-off framebuffer, and the program counter at the 0x200
/// entry address.
pub open spec fn fresh_view() -> EmuView {
    EmuView {
        pc: 0x200,
        sp: 0,
        r_i: 0,
        regs: Seq::new(16, |i: int| 0u8),
        stack: Seq::new(16, |i: int| 0u16),
        ram: Seq::new(4096, |i: int| 0u8),
        keys: Seq::new(16, |i: int| false),
        display: Seq::new(2048, |i: int| false),
        dt: 0,
        st: 0,
        steps: 0,
        quit: false,
    }
}

/// The CHIP-8 interpreter: memory, registers, call stack, framebuffer,
/// keypad and timers, advanced one instruction per step.
pub struct Emu {
    pc: u16,
    sp: u8,
    // The I register generally stores memory addresses, so only its lowest
    // 12 bits are normally meaningful.
    r_i: u16,
    regs: [u8; 16],
    stack: [u16; 16],
    ram: Ram,
    keys: [bool; 16],
    display: [bool; 2048],
    dt: u8,
    st: u8,
    steps: u64,
    quit: bool,
}

impl View for Emu {
    type V = EmuView;

    closed spec fn view(&self) -> EmuView {
        EmuView {
            pc: self.pc,
            sp: self.sp,
            r_i: self.r_i,
            regs: self.regs@,
            stack: self.stack@,
            ram: self.ram@,
            keys: self.keys@,
            display: self.display@,
            dt: self.dt,
            st: self.st,
            steps: self.steps,
            quit: self.quit,
        }
    }
}

/// Relies on rand::random: one byte from the thread-local generator;
/// nothing is promised of its value.
#[verifier::external_body]
fn random_byte() -> u8 {
    rand::random::<u8>()
}

impl Default for Emu {
    /// A fresh interpreter.
    fn default() -> (r: Self)
        ensures
            r@ == fresh_view(),
            wf(r@),
    {
        Emu::new()
    }
}

impl Emu {
    /// A fresh interpreter.
    pub fn new() -> (r: Self)
        ensures
            r@ == fresh_view(),
            wf(r@),
    {
        let e = Emu {
            pc: 0x200,
            sp: 0,
            r_i: 0,
            regs: [0; 16],
            stack: [0; 16],
            ram: Ram::new(),
            keys: [false; 16],
            display: [false; 2048],
            dt: 0,
            st: 0,
            steps: 0,
            quit: false,
        };
        proof {
            assert(e@.regs =~= fresh_view().regs);
            assert(e@.stack =~= fresh_view().stack);
            assert(e@.ram =~= fresh_view().ram);
            assert(e@.keys =~= fresh_view().keys);
            assert(e@.display =~= fresh_view().display);
            assert(e@ =~= fresh_view());
        }
        e
    }

    /// Loads a program: its bytes go to address 0x200 onward unmodified, and
    /// the built-in font is (re)installed at addresses 0x000 through 0x04F,
    /// whatever was loaded before. Nothing else changes.
    pub fn load(&mut self, rom: &[u8])
        requires
            rom@.len() <= 4096 - 0x200,
        ensures
            final(self)@ == (EmuView { ram: final(self)@.ram, ..old(self)@ }),
            final(self)@.ram.len() == 4096,
            forall|i: int| 0 <= i < 80 ==> final(self)@.ram[i] == font_spec()[i],
            forall|i: int| 0 <= i < rom@.len() ==> final(self)@.ram[0x200 + i] == rom@[i],
            forall|i: int| 80 <= i < 0x200 ==> final(self)@.ram[i] == old(self)@.ram[i],
            forall|i: int|
                0x200 + rom@.len() <= i < 4096 ==> final(self)@.ram[i] == old(self)@.ram[i],
    {
        self.ram.load(rom);
    }

    /// The framebuffer, row-major, one flag per pixel.
    pub fn get_diaplay(&self) -> (r: &[bool; 2048])
        ensures
            r@ == self@.display,
    {
        &self.display
    }

    /// Marks a key (0 through 15) as pressed.
    pub fn key_down(&mut self, key: u8)
        requires
            key < 16,
        ensures
            final(self)@ == (EmuView { keys: old(self)@.keys.update(key as int, true), ..old(self)@ }),
    {
        self.keys[key as usize] = true;
    }

    /// Requests cooperative termination of `run`.
    pub fn quit(&mut self)
        ensures
            final(self)@ == (EmuView { quit: true, ..old(self)@ }),
    {
        self.quit = true;
    }

    /// How many fetch-execute cycles have completed.
    pub fn get_steps(&self) -> (r: u64)
        ensures
            r == self@.steps,
    {
        self.steps
    }

    /// The program counter.
    pub fn get_pc(&self) -> (r: u16)
        ensures
            r == self@.pc,
    {
        self.pc
    }

    /// The stack pointer.
    pub fn get_sp(&self) -> (r: u8)
        ensures
            r == self@.sp,
    {
        self.sp
    }

    /// The address register `I`.
    pub fn get_index(&self) -> (r: u16)
        ensures
            r == self@.r_i,
    {
        self.r_i
    }

    /// The delay timer.
    pub fn get_delay(&self) -> (r: u8)
        ensures
            r == self@.dt,
    {
        self.dt
    }

    /// The sound timer.
    pub fn get_sound(&self) -> (r: u8)
        ensures
            r == self@.st,
    {
        self.st
    }

    /// Register `i` of the sixteen general-purpose registers.
    pub fn get_reg(&self, i: u8) -> (r: u8)
        requires
            i < 16,
        ensures
            r == self@.regs[i as int],
    {
        self.regs[i as usize]
    }

    /// The memory byte at `addr`.
    pub fn read_mem(&self, addr: u16) -> (r: u8)
        requires
            addr < 4096,
        ensures
            r == self@.ram[addr as int],
    {
        self.ram.read(addr as usize)
    }

    /// Runs fetch-execute cycles until the termination flag is observed, a
    /// cycle fails, or the step counter is exhausted. The flag is checked at
    /// the top of each iteration, so with it already set no instruction
    /// executes and the state is returned untouched, and otherwise at most
    /// one instruction executes after termination is requested. The final
    /// state is reached from the starting state by the successful cycles
    /// alone; a failed cycle reports its error and leaves the state the
    /// failing cycle's error state: untouched on a fetch failure, the
    /// program counter advanced by two on an execute failure.
    pub fn run(&mut self) -> (r: Result<(), EmuError>)
        requires
            wf(old(self)@),
        ensures
            wf(final(self)@),
            old(self)@.quit ==> r is Ok && final(self)@ == old(self)@,
            (match r {
                Ok(()) => reaches(old(self)@, final(self)@) && (final(self)@.quit || final(self)@.steps == u64::MAX),
                Err(e) => exists|m: EmuView, rnd: u8|
                    #![auto]
                    reaches(old(self)@, m) && step_spec(m, rnd) == Err::<EmuView, EmuError>(e)
                        && final(self)@ == step_err_state(m),
            }),
    {
        proof {
            lemma_reaches_refl(old(self)@);
        }
        if self.quit {
            return Ok(());
        }
        while !self.quit
            invariant
                !old(self)@.quit,
                wf(self@),
                reaches(old(self)@, self@),
            decreases u64::MAX - self@.steps,
        {
            if self.steps == u64::MAX {
                return Ok(());
            }
            let ghost pre = self@;
            match self.step() {
                Ok(()) => {
                    proof {
                        let rnd = choose|rnd: u8|
                            step_spec(pre, rnd) == Ok::<EmuView, EmuError>(self@);
                        lemma_reaches_step(old(self)@, pre, rnd, self@);
                    }
                },
                Err(e) => {
                    return Err(e);
                },
            }
        }
        Ok(())
    }

    /// One complete cycle: fetch the instruction at the program counter,
    /// execute it, and count the completed step, drawing the byte for the
    /// random opcode from the machine's random source. On success the new
    /// state is exactly one transition of the machine's step function, for
    /// some value of that byte; on failure the reported error is the step
    /// function's and the state is the error state: untouched when the
    /// fetch failed, the program counter advanced by two when executing the
    /// fetched instruction failed.
    pub fn step(&mut self) -> (r: Result<(), EmuError>)
        requires
            wf(old(self)@),
        ensures
            wf(final(self)@),
            (match r {
                Ok(()) => exists|rnd: u8|
                    step_spec(old(self)@, rnd) == Ok::<EmuView, EmuError>(final(self)@),
                Err(e) => (exists|rnd: u8|
                    step_spec(old(self)@, rnd) == Err::<EmuView, EmuError>(e)) && final(self)@
                    == step_err_state(old(self)@),
            }),
            final(self)@.quit == old(self)@.quit,
            r matches Ok(()) ==> final(self)@.steps == vstd::wrapping::u64_specs::wrapping_add(
                old(self)@.steps,
                1,
            ),
    {
        let rnd = random_byte();
        let r = self.step_with_random(rnd);
        proof {
            match r {
                Ok(()) => assert(step_spec(old(self)@, rnd) == Ok::<EmuView, EmuError>(self@)),
                Err(e) => assert(step_spec(old(self)@, rnd) == Err::<EmuView, EmuError>(e)),
            }
        }
        r
    }

    /// One complete cycle with a caller-chosen byte standing in for the
    /// random source, so the transition is a function of the arguments
    /// alone: fetch, execute, and count the completed step, exactly as the
    /// machine's step function states. On failure the state is the error
    /// state: untouched when the fetch failed, the program counter advanced
    /// by two when executing the fetched instruction failed.
    pub fn step_with_random(&mut self, rnd: u8) -> (r: Result<(), EmuError>)
        requires
            wf(old(self)@),
        ensures
            wf(final(self)@),
            (match r {
                Ok(()) => step_spec(old(self)@, rnd) == Ok::<EmuView, EmuError>(final(self)@),
                Err(e) => step_spec(old(self)@, rnd) == Err::<EmuView, EmuError>(e) && final(
                self)@ == step_err_state(old(self)@),
            }),
            final(self)@.quit == old(self)@.quit,
            r matches Ok(()) ==> final(self)@.steps == vstd::wrapping::u64_specs::wrapping_add(
                old(self)@.steps,
                1,
            ),
    {
        let ins = match self.fetch() {
            Ok(ins) => ins,
            Err(e) => {
                return Err(e);
            },
        };
        match self.execute(ins, rnd) {
            Ok(()) => {},
            Err(e) => {
                proof {
                    assert(self@ =~= (EmuView { pc: (old(self)@.pc + 2) as u16, ..old(self)@ }));
                }
                return Err(e);
            },
        }
        self.steps = self.steps.wrapping_add(1);
        proof {
            assert(step_spec(old(self)@, rnd) == Ok::<EmuView, EmuError>(self@)) by {
                assert(self@ =~= (EmuView {
                    steps: vstd::wrapping::u64_specs::wrapping_add(
                        exec_spec(
                            fetch_spec(old(self)@).unwrap().1,
                            fetch_spec(old(self)@).unwrap().0,
                            rnd,
                        ).unwrap().steps,
                        1,
                    ),
                    ..exec_spec(
                        fetch_spec(old(self)@).unwrap().1,
                        fetch_spec(old(self)@).unwrap().0,
                        rnd,
                    ).unwrap()
                }));
            }
        }
        Ok(())
    }

    /// Reads the two bytes at the program counter, combined big-endian, and
    /// advances the program counter past them. The counter must be even and
    /// both bytes must lie inside memory; otherwise nothing changes and the
    /// violation is reported.
    fn fetch(&mut self) -> (r: Result<Instruction, EmuError>)
        ensures
            (match r {
                Ok(ins) => fetch_spec(old(self)@) == Ok::<(u16, EmuView), EmuError>(
                    (ins.0, final(self)@),
                ),
                Err(e) => fetch_spec(old(self)@) == Err::<(u16, EmuView), EmuError>(e) && final(self)@ == old(self)@,
            }),
    {
        if self.pc % 2 != 0 {
            return Err(EmuError::MisalignedPc);
        }
        if self.pc >= 4095 {
            return Err(EmuError::OutOfBounds);
        }
        let pc = self.pc as usize;
        let high_byte = self.ram.read(pc) as u16;
        let low_byte = self.ram.read(pc + 1) as u16;
        self.jump_next();
        proof {
            assert(self@ =~= (EmuView { pc: (old(self)@.pc + 2) as u16, ..old(self)@ }));
        }
        Ok(Instruction(high_byte << 8 | low_byte))
    }

    /// Moves the program counter past the next instruction.
    fn jump_next(&mut self)
        ensures
            final(self)@ == skip_next(old(self)@),
    {
        self.pc = self.pc.wrapping_add(2);
    }

    /// Register `i`; every register index decoded from an instruction is
    /// below 16.
    fn reg(&self, i: u8) -> (r: u8)
        requires
            i < 16,
        ensures
            r == self@.regs[i as int],
    {
        self.regs[i as usize]
    }

    /// Executes one fetched instruction from the post-fetch state: exactly
    /// one transition of the machine's instruction semantics, with `rnd` the
    /// byte the random source produced. On failure nothing changes and the
    /// error is the semantics' own.
    fn execute(&mut self, ins: Instruction, rnd: u8) -> (r: Result<(), EmuError>)
        requires
            wf(old(self)@),
        ensures
            wf(final(self)@),
            (match r {
                Ok(()) => exec_spec(old(self)@, ins.0, rnd) == Ok::<EmuView, EmuError>(
                    final(self)@,
                ),
                Err(e) => exec_spec(old(self)@, ins.0, rnd) == Err::<EmuView, EmuError>(e)
                    && final(self)@ == old(self)@,
            }),
    {
        let w = ins.0;
        match ins.decode() {
            (0, 0, 0, 0) => {
                proof {
                    assert(exec_spec(old(self)@, w, rnd) == Ok::<EmuView, EmuError>(self@));
                }
            },
            (0, 0, 0xE, 0) => {
                // Clear the display.
                self.display = [false; 2048];
                proof {
                    assert(self@.display =~= all_dark());
                    assert(self@ =~= (EmuView { display: all_dark(), ..old(self)@ }));
                }
            },
            (0, 0, 0xE, 0xE) => {
                // Return from a subroutine: pop the return address.
                if self.sp == 0 {
                    return Err(EmuError::StackUnderflow);
                }
                self.sp = self.sp - 1;
                self.pc = self.stack[self.sp as usize];
                proof {
                    assert(self@ =~= (EmuView {
                        pc: old(self)@.stack[old(self)@.sp - 1],
                        sp: (old(self)@.sp - 1) as u8,
                        ..old(self)@
                    }));
                }
            },
            (1, _, _, _) => {
                self.pc = ins.nnn();
                proof {
                    assert(self@ =~= (EmuView { pc: crate::inst::addr_of(w), ..old(self)@ }));
                }
            },
            (2, _, _, _) => {
                // Call: push the current program counter.
                if self.sp >= 16 {
                    return Err(EmuError::StackOverflow);
                }
                self.stack[self.sp as usize] = self.pc;
                self.sp = self.sp + 1;
                self.pc = ins.nnn();
                proof {
                    assert(self@ =~= (EmuView {
                        stack: old(self)@.stack.update(old(self)@.sp as int, old(self)@.pc),
                        sp: (old(self)@.sp + 1) as u8,
                        pc: crate::inst::addr_of(w),
                        ..old(self)@
                    }));
                }
            },
            (3, x, _, _) => {
                if self.reg(x) == ins.kk() {
                    self.jump_next();
                }
                proof {
                    assert(exec_spec(old(self)@, w, rnd) == Ok::<EmuView, EmuError>(self@));
                }
            },
            (4, x, _, _) => {
                if self.reg(x) != ins.kk() {
                    self.jump_next();
                }
                proof {
                    assert(exec_spec(old(self)@, w, rnd) == Ok::<EmuView, EmuError>(self@));
                }
            },
            (5, x, y, 0) => {
                if self.reg(x) == self.reg(y) {
                    self.jump_next();
                }
                proof {
                    assert(exec_spec(old(self)@, w, rnd) == Ok::<EmuView, EmuError>(self@));
                }
            },
            (6, x, _, _) => {
                self.regs[x as usize] = ins.kk();
                proof {
                    assert(self@ =~= (EmuView {
                        regs: old(self)@.regs.update(x as int, crate::inst::imm_of(w)),
                        ..old(self)@
                    }));
                }
            },
            (7, x, _, _) => {
                // Vx += kk, wrapping; the flag register is not touched.
                let v = self.reg(x).wrapping_add(ins.kk());
                self.regs[x as usize] = v;
                proof {
                    assert(self@ =~= (EmuView {
                        regs: old(self)@.regs.update(
                            x as int,
                            wrap_add8(old(self)@.regs[x as int], crate::inst::imm_of(w)),
                        ),
                        ..old(self)@
                    }));
                }
            },
            (8, x, y, 0) => {
                self.regs[x as usize] = self.reg(y);
                proof {
                    assert(self@ =~= (EmuView {
                        regs: old(self)@.regs.update(x as int, old(self)@.regs[y as int]),
                        ..old(self)@
                    }));
                }
            },
            (8, x, y, 1) => {
                let v = self.reg(x) | self.reg(y);
                self.regs[x as usize] = v;
                proof {
                    assert(exec_spec(old(self)@, w, rnd) == Ok::<EmuView, EmuError>(self@)) by {
                        assert(self@ =~= (EmuView {
                            regs: old(self)@.regs.update(
                                x as int,
                                old(self)@.regs[x as int] | old(self)@.regs[y as int],
                            ),
                            ..old(self)@
                        }));
                    }
                }
            },
            (8, x, y, 2) => {
                let v = self.reg(x) & self.reg(y);
                self.regs[x as usize] = v;
                proof {
                    assert(exec_spec(old(self)@, w, rnd) == Ok::<EmuView, EmuError>(self@)) by {
                        assert(self@ =~= (EmuView {
                            regs: old(self)@.regs.update(
                                x as int,
                                old(self)@.regs[x as int] & old(self)@.regs[y as int],
                            ),
                            ..old(self)@
                        }));
                    }
                }
            },
            (8, x, y, 3) => {
                let v = self.reg(x) ^ self.reg(y);
                self.regs[x as usize] = v;
                proof {
                    assert(exec_spec(old(self)@, w, rnd) == Ok::<EmuView, EmuError>(self@)) by {
                        assert(self@ =~= (EmuView {
                            regs: old(self)@.regs.update(
                                x as int,
                                old(self)@.regs[x as int] ^ old(self)@.regs[y as int],
                            ),
                            ..old(self)@
                        }));
                    }
                }
            },
            (8, x, y, 4) => {
                // Vx += Vy with the carry flag.
                let a = self.reg(x);
                let b = self.reg(y);
                if a as u16 + b as u16 > 255 {
                    self.regs[15] = 1;
                } else {
                    self.regs[15] = 0;
                }
                self.regs[x as usize] = a.wrapping_add(b);
                proof {
                    assert(exec_spec(old(self)@, w, rnd) == Ok::<EmuView, EmuError>(self@)) by {
                        assert(self@ =~= (EmuView {
                            regs: flag_set(
                                old(self)@.regs,
                                if old(self)@.regs[x as int] + old(self)@.regs[y as int] > 255 {
                                    1u8
                                } else {
                                    0u8
                                },
                            ).update(x as int, wrap_add8(a, b)),
                            ..old(self)@
                        }));
                    }
                }
            },
            (8, x, y, 5) => {
                // Vx -= Vy with the inverted borrow flag.
                let a = self.reg(x);
                let b = self.reg(y);
                let v = self.sub(a, b);
                self.regs[x as usize] = v;
                proof {
                    assert(exec_spec(old(self)@, w, rnd) == Ok::<EmuView, EmuError>(self@)) by {
                        assert(self@ =~= (EmuView {
                            regs: sub_update(old(self)@.regs, x as int, a, b),
                            ..old(self)@
                        }));
                    }
                }
            },
            (8, x, _y, 6) => {
                // Vx >>= 1; the flag takes the bit shifted out.
                let a = self.reg(x);
                if a & 1 == 1 {
                    self.regs[15] = 1;
                } else {
                    self.regs[15] = 0;
                }
                let a2 = self.reg(x);
                self.regs[x as usize] = a2 >> 1u8;
                proof {
                    assert(exec_spec(old(self)@, w, rnd) == Ok::<EmuView, EmuError>(self@)) by {
                        assert(self@ =~= (EmuView {
                            regs: flag_set(old(self)@.regs, if a & 1 == 1 {
                                1u8
                            } else {
                                0u8
                            }).update(x as int, a2 >> 1u8),
                            ..old(self)@
                        }));
                    }
                }
            },
            (8, x, y, 7) => {
                // Vx = Vy - Vx with the inverted borrow flag.
                let a = self.reg(x);
                let b = self.reg(y);
                let v = self.sub(b, a);
                self.regs[x as usize] = v;
                proof {
                    assert(exec_spec(old(self)@, w, rnd) == Ok::<EmuView, EmuError>(self@)) by {
                        assert(self@ =~= (EmuView {
                            regs: sub_update(old(self)@.regs, x as int, b, a),
                            ..old(self)@
                        }));
                    }
                }
            },
            (8, x, _y, 0xE) => {
                // Vx <<= 1; the flag takes the original high bit.
                let a = self.reg(x);
                let flag = (a & 0x80) >> 7u8;
                self.regs[15] = flag;
                let a2 = self.reg(x);
                self.regs[x as usize] = a2 << 1u8;
                proof {
                    assert(exec_spec(old(self)@, w, rnd) == Ok::<EmuView, EmuError>(self@)) by {
                        assert(self@ =~= (EmuView {
                            regs: flag_set(old(self)@.regs, (old(self)@.regs[x as int] & 0x80)
                                >> 7u8).update(x as int, (a2 << 1u8) as u8),
                            ..old(self)@
                        }));
                    }
                }
            },
            (9, x, y, 0) => {
                if self.reg(x) != self.reg(y) {
                    self.jump_next();
                }
                proof {
                    assert(exec_spec(old(self)@, w, rnd) == Ok::<EmuView, EmuError>(self@));
                }
            },
            (0xA, _, _, _) => {
                self.r_i = ins.nnn();
                proof {
                    assert(self@ =~= (EmuView { r_i: crate::inst::addr_of(w), ..old(self)@ }));
                }
            },
            (0xB, _, _, _) => {
                self.pc = ins.nnn() + self.reg(0) as u16;
                proof {
                    assert(self@ =~= (EmuView {
                        pc: (crate::inst::addr_of(w) + old(self)@.regs[0]) as u16,
                        ..old(self)@
                    }));
                }
            },
            (0xC, x, _, _) => {
                // Vx = random byte AND kk.
                let v = rnd & ins.kk();
                self.regs[x as usize] = v;
                proof {
                    assert(self@ =~= (EmuView {
                        regs: old(self)@.regs.update(x as int, rnd & crate::inst::imm_of(w)),
                        ..old(self)@
                    }));
                }
            },
            (0xD, x, y, n) => {
                // Draw an n-row sprite from memory at I, XOR-composited at
                // (Vx, Vy) with wrap-around; the flag reports collisions.
                let vx = self.reg(x);
                let vy = self.reg(y);
                if n > 0 && self.r_i as usize + n as usize > 4096 {
                    return Err(EmuError::OutOfBounds);
                }
                let col = self.draw_sprite(vx, vy, n);
                if col {
                    self.regs[15] = 1;
                } else {
                    self.regs[15] = 0;
                }
                proof {
                    let s = old(self)@;
                    assert(exec_spec(old(self)@, w, rnd) == Ok::<EmuView, EmuError>(self@)) by {
                        assert(self@ =~= (EmuView {
                            display: draw_display(
                                s.display,
                                s.ram,
                                s.r_i as int,
                                s.regs[x as int] as int,
                                s.regs[y as int] as int,
                                n as int,
                            ),
                            regs: flag_set(
                                s.regs,
                                if draw_collision(
                                    s.display,
                                    s.ram,
                                    s.r_i as int,
                                    s.regs[x as int] as int,
                                    s.regs[y as int] as int,
                                    n as int,
                                ) {
                                    1u8
                                } else {
                                    0u8
                                },
                            ),
                            ..s
                        }));
                    }
                }
            },
            (0xE, x, 9, 0xE) => {
                let k = self.reg(x);
                if k >= 16 {
                    return Err(EmuError::InvalidKey);
                }
                if self.keys[k as usize] {
                    self.jump_next();
                }
                proof {
                    assert(exec_spec(old(self)@, w, rnd) == Ok::<EmuView, EmuError>(self@));
                }
            },
            (0xE, x, 0xA, 1) => {
                let k = self.reg(x);
                if k >= 16 {
                    return Err(EmuError::InvalidKey);
                }
                if !self.keys[k as usize] {
                    self.jump_next();
                }
                proof {
                    assert(exec_spec(old(self)@, w, rnd) == Ok::<EmuView, EmuError>(self@));
                }
            },
            (0xF, x, 0, 7) => {
                let v = self.dt;
                self.regs[x as usize] = v;
                proof {
                    assert(self@ =~= (EmuView {
                        regs: old(self)@.regs.update(x as int, old(self)@.dt),
                        ..old(self)@
                    }));
                }
            },
            (0xF, x, 0, 0xA) => {
                // Wait for a key press and store its index in Vx. If no key
                // is pressed, yield back to the driver by rewinding the
                // program counter so this instruction re-executes on the
                // next cycle; no other instruction can run in between.
                let mut found = false;
                let mut idx: u8 = 0;
                let mut i: usize = 0;
                while i < 16
                    invariant
                        i <= 16,
                        self@ == old(self)@,
                        !found ==> forall|j: int| 0 <= j < i ==> !self@.keys[j],
                        found ==> idx < 16 && self@.keys[idx as int] && (forall|j: int|
                            0 <= j < idx ==> !self@.keys[j]),
                    decreases 16 - i,
                {
                    if !found && self.keys[i] {
                        found = true;
                        idx = i as u8;
                    }
                    i = i + 1;
                }
                if found {
                    proof {
                        lemma_first_key_found(old(self)@.keys, 0, idx as int);
                    }
                    self.regs[x as usize] = idx;
                    proof {
                        assert(self@ =~= (EmuView {
                            regs: old(self)@.regs.update(x as int, idx),
                            ..old(self)@
                        }));
                    }
                } else {
                    proof {
                        lemma_first_key_none(old(self)@.keys, 0);
                    }
                    self.pc = self.pc.wrapping_sub(2);
                    proof {
                        assert(self@ =~= (EmuView {
                            pc: vstd::wrapping::u16_specs::wrapping_sub(old(self)@.pc, 2),
                            ..old(self)@
                        }));
                    }
                }
            },
            (0xF, x, 1, 5) => {
                self.dt = self.reg(x);
                proof {
                    assert(self@ =~= (EmuView { dt: old(self)@.regs[x as int], ..old(self)@ }));
                }
            },
            (0xF, x, 1, 8) => {
                self.st = self.reg(x);
                proof {
                    assert(self@ =~= (EmuView { st: old(self)@.regs[x as int], ..old(self)@ }));
                }
            },
            (0xF, x, 1, 0xE) => {
                // I += Vx.
                let v = self.reg(x);
                if self.r_i as u32 + v as u32 > 0xFFFF {
                    return Err(EmuError::OutOfBounds);
                }
                self.r_i = self.r_i + v as u16;
                proof {
                    assert(self@ =~= (EmuView {
                        r_i: (old(self)@.r_i + old(self)@.regs[x as int]) as u16,
                        ..old(self)@
                    }));
                }
            },
            (0xF, x, 2, 9) => {
                // I = address of the built-in glyph for digit Vx.
                self.r_i = self.reg(x) as u16 * 5;
                proof {
                    assert(self@ =~= (EmuView {
                        r_i: (old(self)@.regs[x as int] * 5) as u16,
                        ..old(self)@
                    }));
                }
            },
            (0xF, x, 3, 3) => {
                // Store the three decimal digits of Vx at I, I+1, I+2.
                if self.r_i >= 4094 {
                    return Err(EmuError::OutOfBounds);
                }
                let vx = self.reg(x);
                let base = self.r_i as usize;
                self.ram.store(base, (vx / 100) % 10);
                self.ram.store(base + 1, (vx / 10) % 10);
                self.ram.store(base + 2, vx % 10);
                proof {
                    assert(self@ =~= (EmuView {
                        ram: bcd_spec(old(self)@.ram, old(self)@.r_i as int, vx),
                        ..old(self)@
                    }));
                }
            },
            (0xF, x, 5, 5) => {
                // Store registers V0..=Vx into memory at I onward.
                if self.r_i as usize + x as usize >= 4096 {
                    return Err(EmuError::OutOfBounds);
                }
                let base = self.r_i as usize;
                let xi = x as usize;
                let mut i: usize = 0;
                while i <= xi
                    invariant
                        xi < 16,
                        base + xi < 4096,
                        i <= xi + 1,
                        self@ == (EmuView { ram: self@.ram, ..old(self)@ }),
                        self@.ram.len() == 4096,
                        forall|k: int|
                            base <= k < base + i ==> self@.ram[k] == old(self)@.regs[k - base],
                        forall|k: int|
                            0 <= k < 4096 && !(base <= k < base + i) ==> self@.ram[k] == old(self)@.ram[k],
                    decreases xi + 1 - i,
                {
                    let v = self.reg(i as u8);
                    self.ram.store(base + i, v);
                    i = i + 1;
                }
                proof {
                    assert(self@.ram =~= store_regs_spec(
                        old(self)@.ram,
                        old(self)@.regs,
                        base as int,
                        xi as int,
                    ));
                    assert(self@ =~= (EmuView {
                        ram: store_regs_spec(
                            old(self)@.ram,
                            old(self)@.regs,
                            old(self)@.r_i as int,
                            x as int,
                        ),
                        ..old(self)@
                    }));
                }
            },
            (0xF, x, 6, 5) => {
                // Load registers V0..=Vx from memory at I onward.
                if self.r_i as usize + x as usize >= 4096 {
                    return Err(EmuError::OutOfBounds);
                }
                let base = self.r_i as usize;
                let xi = x as usize;
                let mut i: usize = 0;
                while i <= xi
                    invariant
                        xi < 16,
                        base + xi < 4096,
                        i <= xi + 1,
                        self@ == (EmuView { regs: self@.regs, ..old(self)@ }),
                        self@.regs.len() == 16,
                        forall|k: int| 0 <= k < i ==> self@.regs[k] == old(self)@.ram[base + k],
                        forall|k: int| i <= k < 16 ==> self@.regs[k] == old(self)@.regs[k],
                    decreases xi + 1 - i,
                {
                    let v = self.ram.read(base + i);
                    self.regs[i] = v;
                    i = i + 1;
                }
                proof {
                    assert(self@.regs =~= load_regs_spec(
                        old(self)@.ram,
                        old(self)@.regs,
                        base as int,
                        xi as int,
                    ));
                    assert(self@ =~= (EmuView {
                        regs: load_regs_spec(
                            old(self)@.ram,
                            old(self)@.regs,
                            old(self)@.r_i as int,
                            x as int,
                        ),
                        ..old(self)@
                    }));
                }
            },
            _ => {
                return Err(EmuError::UnknownInstruction);
            },
        }
        Ok(())
    }

    /// XOR-composites an `n`-row sprite read from memory at `I` onto the
    /// framebuffer at screen position `(vx, vy)`, wrapping coordinates, and
    /// reports whether any previously-lit pixel was cleared.
    fn draw_sprite(&mut self, vx: u8, vy: u8, n: u8) -> (col: bool)
        requires
            wf(old(self)@),
            n <= 15,
            n > 0 ==> old(self)@.r_i + n <= 4096,
        ensures
            final(self)@ == (EmuView {
                display: draw_display(
                    old(self)@.display,
                    old(self)@.ram,
                    old(self)@.r_i as int,
                    vx as int,
                    vy as int,
                    n as int,
                ),
                ..old(self)@
            }),
            col == draw_collision(
                old(self)@.display,
                old(self)@.ram,
                old(self)@.r_i as int,
                vx as int,
                vy as int,
                n as int,
            ),
    {
        let base = self.r_i as usize;
        let x0 = vx as usize;
        let y0 = vy as usize;
        let ghost gram = old(self)@.ram;
        let ghost gdisp = old(self)@.display;
        let mut collision = false;
        let mut row: usize = 0;
        while row < n as usize
            invariant
                wf(old(self)@),
                n <= 15,
                n > 0 ==> old(self)@.r_i + n <= 4096,
                base == old(self)@.r_i as usize,
                x0 == vx as usize,
                y0 == vy as usize,
                gram == old(self)@.ram,
                gdisp == old(self)@.display,
                row <= n,
                self@ == (EmuView { display: self@.display, ..old(self)@ }),
                self@.display.len() == 2048,
                forall|cell: int|
                    0 <= cell < 2048 ==> self@.display[cell] == (gdisp[cell] ^ draw_hits_upto(
                        gram,
                        base as int,
                        x0 as int,
                        y0 as int,
                        row as int,
                        0,
                        cell,
                    )),
                collision == collision_upto(
                    gdisp,
                    gram,
                    base as int,
                    x0 as int,
                    y0 as int,
                    row as int,
                    0,
                ),
            decreases n - row,
        {
            let sprite = self.ram.read(base + row);
            let yy = (y0 + row) % 32;
            let mut c: usize = 0;
            while c < 8
                invariant
                    wf(old(self)@),
                    n <= 15,
                    row < n,
                    n > 0 ==> old(self)@.r_i + n <= 4096,
                    base == old(self)@.r_i as usize,
                    x0 == vx as usize,
                    y0 == vy as usize,
                    gram == old(self)@.ram,
                    gdisp == old(self)@.display,
                    sprite == gram[base + row],
                    yy == (y0 + row) % 32,
                    c <= 8,
                    self@ == (EmuView { display: self@.display, ..old(self)@ }),
                    self@.display.len() == 2048,
                    forall|cell: int|
                        0 <= cell < 2048 ==> self@.display[cell] == (gdisp[cell] ^ draw_hits_upto(
                            gram,
                            base as int,
                            x0 as int,
                            y0 as int,
                            row as int,
                            c as int,
                            cell,
                        )),
                    collision == collision_upto(
                        gdisp,
                        gram,
                        base as int,
                        x0 as int,
                        y0 as int,
                        row as int,
                        c as int,
                    ),
                decreases 8 - c,
            {
                let sh: u32 = 7 - (c as u32);
                let ghost pre_disp = self@.display;
                let ghost pre_col = collision;
                proof {
                    lemma_upto_col_step(
                        gram,
                        base as int,
                        x0 as int,
                        y0 as int,
                        row as int,
                        c as int,
                    );
                }
                if (sprite >> sh) & 1 == 1 {
                    let xx = (x0 + c) % 64;
                    let idx = yy * 64 + xx;
                    proof {
                        assert(yy < 32 && xx < 64);
                        assert(idx < 2048);
                        assert(idx as int == pixel_index(
                            x0 as int + c as int,
                            y0 as int + row as int,
                        ));
                        assert(sprite_bit(gram[base + row], c as int));
                        lemma_upto_fresh(
                            gram,
                            base as int,
                            x0 as int,
                            y0 as int,
                            row as int,
                            c as int,
                        );
                        assert(self@.display[idx as int] == gdisp[idx as int]);
                    }
                    if self.display[idx] {
                        collision = true;
                    }
                    let cur = self.display[idx];
                    self.display[idx] = !cur;
                    proof {
                        assert forall|cell: int| 0 <= cell < 2048 implies self@.display[cell] == (
                        gdisp[cell] ^ draw_hits_upto(
                            gram,
                            base as int,
                            x0 as int,
                            y0 as int,
                            row as int,
                            c as int + 1,
                            cell,
                        )) by {
                            if cell == idx as int {
                                assert(draw_hits_upto(
                                    gram,
                                    base as int,
                                    x0 as int,
                                    y0 as int,
                                    row as int,
                                    c as int + 1,
                                    cell,
                                ));
                            }
                        }
                        if cur {
                            assert(collision_upto(
                                gdisp,
                                gram,
                                base as int,
                                x0 as int,
                                y0 as int,
                                row as int,
                                c as int + 1,
                            )) by {
                                assert(idx < 2048 && gdisp[idx as int] && draw_hits_upto(
                                    gram,
                                    base as int,
                                    x0 as int,
                                    y0 as int,
                                    row as int,
                                    c as int + 1,
                                    idx as int,
                                ));
                            }
                        } else {
                            assert(collision == collision_upto(
                                gdisp,
                                gram,
                                base as int,
                                x0 as int,
                                y0 as int,
                                row as int,
                                c as int + 1,
                            )) by {
                                if collision_upto(
                                    gdisp,
                                    gram,
                                    base as int,
                                    x0 as int,
                                    y0 as int,
                                    row as int,
                                    c as int + 1,
                                ) {
                                    let cell = choose|cell: int|
                                        #![trigger draw_hits_upto(gram, base as int, x0 as int, y0 as int, row as int, c as int + 1, cell)]
                                        0 <= cell < 2048 && gdisp[cell] && draw_hits_upto(
                                            gram,
                                            base as int,
                                            x0 as int,
                                            y0 as int,
                                            row as int,
                                            c as int + 1,
                                            cell,
                                        );
                                    assert(cell != idx as int);
                                    assert(draw_hits_upto(
                                        gram,
                                        base as int,
                                        x0 as int,
                                        y0 as int,
                                        row as int,
                                        c as int,
                                        cell,
                                    ));
                                    assert(collision_upto(
                                        gdisp,
                                        gram,
                                        base as int,
                                        x0 as int,
                                        y0 as int,
                                        row as int,
                                        c as int,
                                    ));
                                }
                                if collision_upto(
                                    gdisp,
                                    gram,
                                    base as int,
                                    x0 as int,
                                    y0 as int,
                                    row as int,
                                    c as int,
                                ) {
                                    let cell = choose|cell: int|
                                        #![trigger draw_hits_upto(gram, base as int, x0 as int, y0 as int, row as int, c as int, cell)]
                                        0 <= cell < 2048 && gdisp[cell] && draw_hits_upto(
                                            gram,
                                            base as int,
                                            x0 as int,
                                            y0 as int,
                                            row as int,
                                            c as int,
                                            cell,
                                        );
                                    assert(draw_hits_upto(
                                        gram,
                                        base as int,
                                        x0 as int,
                                        y0 as int,
                                        row as int,
                                        c as int + 1,
                                        cell,
                                    ));
                                }
                            }
                        }
                    }
                } else {
                    proof {
                        assert(!sprite_bit(gram[base + row], c as int));
                        assert forall|cell: int| 0 <= cell < 2048 implies self@.display[cell] == (
                        gdisp[cell] ^ draw_hits_upto(
                            gram,
                            base as int,
                            x0 as int,
                            y0 as int,
                            row as int,
                            c as int + 1,
                            cell,
                        )) by {}
                        assert(collision == collision_upto(
                            gdisp,
                            gram,
                            base as int,
                            x0 as int,
                            y0 as int,
                            row as int,
                            c as int + 1,
                        )) by {
                            if collision_upto(
                                gdisp,
                                gram,
                                base as int,
                                x0 as int,
                                y0 as int,
                                row as int,
                                c as int + 1,
                            ) {
                                let cell = choose|cell: int|
                                    #![trigger draw_hits_upto(gram, base as int, x0 as int, y0 as int, row as int, c as int + 1, cell)]
                                    0 <= cell < 2048 && gdisp[cell] && draw_hits_upto(
                                        gram,
                                        base as int,
                                        x0 as int,
                                        y0 as int,
                                        row as int,
                                        c as int + 1,
                                        cell,
                                    );
                                assert(collision_upto(
                                    gdisp,
                                    gram,
                                    base as int,
                                    x0 as int,
                                    y0 as int,
                                    row as int,
                                    c as int,
                                ));
                            }
                            if collision_upto(
                                gdisp,
                                gram,
                                base as int,
                                x0 as int,
                                y0 as int,
                                row as int,
                                c as int,
                            ) {
                                let cell = choose|cell: int|
                                    #![trigger draw_hits_upto(gram, base as int, x0 as int, y0 as int, row as int, c as int, cell)]
                                    0 <= cell < 2048 && gdisp[cell] && draw_hits_upto(
                                        gram,
                                        base as int,
                                        x0 as int,
                                        y0 as int,
                                        row as int,
                                        c as int,
                                        cell,
                                    );
                                assert(draw_hits_upto(
                                    gram,
                                    base as int,
                                    x0 as int,
                                    y0 as int,
                                    row as int,
                                    c as int + 1,
                                    cell,
                                ));
                            }
                        }
                    }
                }
                c = c + 1;
            }
            proof {
                lemma_upto_row_step(gram, base as int, x0 as int, y0 as int, row as int);
                assert forall|cell: int|
                    #[trigger] draw_hits_upto(
                        gram,
                        base as int,
                        x0 as int,
                        y0 as int,
                        row as int + 1,
                        0,
                        cell,
                    ) == draw_hits_upto(
                        gram,
                        base as int,
                        x0 as int,
                        y0 as int,
                        row as int,
                        8,
                        cell,
                    ) by {}
                if collision_upto(
                    gdisp,
                    gram,
                    base as int,
                    x0 as int,
                    y0 as int,
                    row as int + 1,
                    0,
                ) != collision_upto(
                    gdisp,
                    gram,
                    base as int,
                    x0 as int,
                    y0 as int,
                    row as int,
                    8,
                ) {
                    if collision_upto(
                        gdisp,
                        gram,
                        base as int,
                        x0 as int,
                        y0 as int,
                        row as int + 1,
                        0,
                    ) {
                        let cell = choose|cell: int|
                            #![trigger draw_hits_upto(gram, base as int, x0 as int, y0 as int, row as int + 1, 0, cell)]
                            0 <= cell < 2048 && gdisp[cell] && draw_hits_upto(
                                gram,
                                base as int,
                                x0 as int,
                                y0 as int,
                                row as int + 1,
                                0,
                                cell,
                            );
                        assert(collision_upto(
                            gdisp,
                            gram,
                            base as int,
                            x0 as int,
                            y0 as int,
                            row as int,
                            8,
                        ));
                    } else {
                        let cell = choose|cell: int|
                            #![trigger draw_hits_upto(gram, base as int, x0 as int, y0 as int, row as int, 8, cell)]
                            0 <= cell < 2048 && gdisp[cell] && draw_hits_upto(
                                gram,
                                base as int,
                                x0 as int,
                                y0 as int,
                                row as int,
                                8,
                                cell,
                            );
                        assert(draw_hits_upto(
                            gram,
                            base as int,
                            x0 as int,
                            y0 as int,
                            row as int + 1,
                            0,
                            cell,
                        ));
                        assert(collision_upto(
                            gdisp,
                            gram,
                            base as int,
                            x0 as int,
                            y0 as int,
                            row as int + 1,
                            0,
                        ));
                    }
                }
            }
            row = row + 1;
        }
        proof {
            assert(self@.display =~= draw_display(
                gdisp,
                gram,
                base as int,
                x0 as int,
                y0 as int,
                n as int,
            ));
            assert(self@ =~= (EmuView {
                display: draw_display(
                    gdisp,
                    gram,
                    base as int,
                    x0 as int,
                    y0 as int,
                    n as int,
                ),
                ..old(self)@
            }));
        }
        collision
    }

    /// Borrow-flagged subtraction `a - b`: writes the flag register (1 when
    /// no borrow, 0 when the subtraction underflows) and returns the wrapped
    /// difference.
    fn sub(&mut self, a: u8, b: u8) -> (r: u8)
        ensures
            final(self)@ == (EmuView { regs: flag_set(old(self)@.regs, if a >= b {
                1u8
            } else {
                0u8
            }), ..old(self)@ }),
            r == vstd::wrapping::u8_specs::wrapping_sub(a, b),
    {
        let result = a.wrapping_sub(b);
        if a >= b {
            self.regs[15] = 1;
        } else {
            self.regs[15] = 0;
        }
        result
    }
}

} // verus!
