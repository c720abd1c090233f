//! The executable machine: a flat byte memory, a sixteen-slot register
//! file, and the fetch-decode-execute loop. Every method is proved against
//! the semantics in [`crate::sem`]: one call of `process_instruction` does
//! exactly what [`crate::sem::step`] says, and `run` iterates it.

use vstd::prelude::*;
use vstd::arithmetic::div_mod::lemma_mod_add_multiples_vanish;
use crate::isa::{
    Shape, opcode_shape, first_reg, second_reg,
    OP_BRK, OP_CPY, OP_LD8, OP_LD16, OP_LD32, OP_RD8, OP_RD16, OP_RD32, OP_WR8, OP_WR16, OP_WR32,
    OP_ADD, OP_SUB, OP_MUL, OP_DIV, OP_SHL, OP_SHR, OP_EQ, OP_NEQ, OP_LT, OP_LEQ, OP_GT, OP_GEQ,
    OP_NOT, OP_JMP, OP_JMPIF, OP_PRINT,
};
use crate::sem::{
    Fault, VmState, StepRes, RunOutcome, fetch1, fetch_operands, step, run_fuel, store_bytes,
    wrap_add, wrap_sub, wrap_mul, cmp_value, REG_COUNT, REG_IP, ENTRY_ADDR, MEM_LIMIT,
};

verus! {

/// What one executed instruction asks of the loop: stop cleanly or go on.
#[derive(Clone, Copy, PartialEq, Eq, Structural, Debug)]
pub enum VmResponse {
    End,
    Continue,
}

/// Where a bounded run stopped.
#[derive(Clone, Copy, PartialEq, Eq, Structural, Debug)]
pub enum RunStatus {
    /// The step budget ran out with the program still going.
    Running,
    /// `BRK` was reached: a clean exit.
    Halted,
    /// A fault stopped the run.
    Faulted(Fault),
}

/// The virtual machine: memory, registers, and the values `PRINT` emitted.
pub struct Vm {
    ram: Vec<u8>,
    registers: Vec<u32>,
    output: Vec<u32>,
}

impl Vm {
    /// The machine's state as mathematics.
    pub closed spec fn st(&self) -> VmState {
        VmState { mem: self.ram@, regs: self.registers@, out: self.output@ }
    }

    pub open spec fn wf(&self) -> bool {
        self.st().wf()
    }

    /// A fresh machine: `ram_size` zeroed bytes of memory, all registers
    /// zero but the instruction pointer, which starts at the entry offset.
    pub fn new(ram_size: usize) -> (vm: Vm)
        requires
            ram_size <= MEM_LIMIT,
        ensures
            vm.wf(),
            vm.st().mem == Seq::new(ram_size as nat, |i: int| 0u8),
            vm.st().regs == Seq::new(
                REG_COUNT as nat,
                |i: int| if i == REG_IP as int {
                    ENTRY_ADDR
                } else {
                    0u32
                },
            ),
            vm.st().out == Seq::<u32>::empty(),
    {
        let mut ram: Vec<u8> = Vec::new();
        let mut i: usize = 0;
        while i < ram_size
            invariant
                i <= ram_size,
                ram@.len() == i,
                forall|k: int| 0 <= k < i ==> ram@[k] == 0u8,
            decreases ram_size - i,
        {
            ram.push(0);
            i += 1;
        }
        let mut registers: Vec<u32> = Vec::new();
        let mut j: usize = 0;
        while j < REG_COUNT
            invariant
                j <= REG_COUNT,
                registers@.len() == j,
                forall|k: int| 0 <= k < j ==> registers@[k] == 0u32,
            decreases REG_COUNT - j,
        {
            registers.push(0);
            j += 1;
        }
        registers[REG_IP] = ENTRY_ADDR;
        let vm = Vm { ram, registers, output: Vec::new() };
        proof {
            assert(vm.st().mem =~= Seq::new(ram_size as nat, |i: int| 0u8));
            assert(vm.st().regs =~= Seq::new(
                REG_COUNT as nat,
                |i: int| if i == REG_IP as int {
                    ENTRY_ADDR
                } else {
                    0u32
                },
            ));
        }
        vm
    }

    /// How many bytes of memory the machine owns.
    pub fn memory_size(&self) -> (n: usize)
        ensures
            n == self.st().mem.len(),
    {
        self.ram.len()
    }

    /// The current value of register `i`.
    pub fn register(&self, i: usize) -> (v: u32)
        requires
            self.wf(),
            i < REG_COUNT,
        ensures
            v == self.st().regs[i as int],
    {
        self.registers[i]
    }

    /// The byte of memory at `addr`.
    pub fn memory_byte(&self, addr: usize) -> (b: u8)
        requires
            addr < self.st().mem.len(),
        ensures
            b == self.st().mem[addr as int],
    {
        self.ram[addr]
    }

    /// The values `PRINT` has emitted so far, oldest first.
    pub fn output(&self) -> (o: &Vec<u32>)
        ensures
            o@ == self.st().out,
    {
        &self.output
    }

    /// Copies `rom` into memory starting at `start_addr`. Bytes that would
    /// land past the end of memory are dropped: this one-time bulk load
    /// truncates instead of faulting. The instruction pointer is not
    /// touched.
    pub fn load_rom(&mut self, rom: &[u8], start_addr: usize)
        requires
            old(self).wf(),
        ensures
            final(self).wf(),
            final(self).st().mem == store_bytes(old(self).st().mem, start_addr as int, rom@),
            final(self).st().regs == old(self).st().regs,
            final(self).st().out == old(self).st().out,
    {
        let n: usize = if start_addr <= self.ram.len() {
            let avail = self.ram.len() - start_addr;
            if rom.len() < avail {
                rom.len()
            } else {
                avail
            }
        } else {
            0
        };
        let ghost mem0 = self.ram@;
        let mut i: usize = 0;
        while i < n
            invariant
                i <= n,
                n <= rom@.len(),
                n == 0 || start_addr + n <= self.ram@.len(),
                self.ram@.len() == mem0.len(),
                mem0.len() <= MEM_LIMIT,
                self.registers@ == old(self).st().regs,
                self.output@ == old(self).st().out,
                forall|k: int|
                    0 <= k < mem0.len() ==> self.ram@[k] == (if start_addr <= k < start_addr + i {
                        rom@[k - start_addr]
                    } else {
                        mem0[k]
                    }),
            decreases n - i,
        {
            self.ram[start_addr + i] = rom[i];
            i += 1;
        }
        proof {
            assert(self.ram@ =~= store_bytes(mem0, start_addr as int, rom@));
        }
    }

    /// Reads the byte the instruction pointer names and advances the
    /// pointer by one; faults when the pointer is at or past the end of
    /// memory.
    pub fn get_next_byte(&mut self) -> (r: Result<u8, Fault>)
        requires
            old(self).wf(),
        ensures
            final(self).wf(),
            match fetch1(old(self).st()) {
                Ok((b, s1)) => r == Ok::<u8, Fault>(b) && final(self).st() == s1,
                Err(sf) => r == Err::<u8, Fault>(Fault::InstructionPointerOutOfBounds)
                    && final(self).st() == sf,
            },
    {
        let ip = self.registers[REG_IP];
        if (ip as usize) < self.ram.len() {
            let b = self.ram[ip as usize];
            self.registers[REG_IP] = ip + 1;
            Ok(b)
        } else {
            Err(Fault::InstructionPointerOutOfBounds)
        }
    }

    /// Fetches, decodes and executes exactly one instruction, as
    /// [`step`] describes: `Ok(End)` on `BRK`, `Ok(Continue)` after any
    /// other instruction, `Err` on a fault.
    #[verifier::rlimit(100)]
    pub fn process_instruction(&mut self) -> (r: Result<VmResponse, Fault>)
        requires
            old(self).wf(),
        ensures
            final(self).wf(),
            match step(old(self).st()) {
                StepRes::Halted(s2) => r == Ok::<VmResponse, Fault>(VmResponse::End)
                    && final(self).st() == s2,
                StepRes::Next(s2) => r == Ok::<VmResponse, Fault>(VmResponse::Continue)
                    && final(self).st() == s2,
                StepRes::Faulted(s2, f) => r == Err::<VmResponse, Fault>(f) && final(self).st()
                    == s2,
            },
    {
        proof {
            reveal(crate::sem::step);
        }
        let op = match self.get_next_byte() {
            Ok(b) => b,
            Err(f) => {
                return Err(f);
            },
        };
        let shape = match opcode_shape(op) {
            Some(sh) => sh,
            None => {
                return Err(Fault::UnknownOpcode(op));
            },
        };
        let ghost s1 = self.st();
        let mut r1: u8 = 0;
        let mut r2: u8 = 0;
        let mut imm: u32 = 0;
        match shape {
            Shape::Bare => {},
            Shape::OneReg => {
                let b = match self.get_next_byte() {
                    Ok(b) => b,
                    Err(f) => {
                        return Err(f);
                    },
                };
                r1 = b & 7;
                proof {
                    crate::isa::lemma_unpack_bounded(b);
                }
            },
            Shape::TwoReg => {
                let b = match self.get_next_byte() {
                    Ok(b) => b,
                    Err(f) => {
                        return Err(f);
                    },
                };
                r1 = b >> 5;
                r2 = (b >> 2) & 7;
                proof {
                    crate::isa::lemma_unpack_bounded(b);
                    assert(r1 == first_reg(b) && r2 == second_reg(b));
                }
            },
            Shape::RegImm1 => {
                let rb = match self.get_next_byte() {
                    Ok(b) => b,
                    Err(f) => {
                        return Err(f);
                    },
                };
                let b0 = match self.get_next_byte() {
                    Ok(b) => b,
                    Err(f) => {
                        return Err(f);
                    },
                };
                r1 = rb & 7;
                imm = b0 as u32;
                proof {
                    crate::isa::lemma_unpack_bounded(rb);
                }
            },
            Shape::RegImm2 => {
                let rb = match self.get_next_byte() {
                    Ok(b) => b,
                    Err(f) => {
                        return Err(f);
                    },
                };
                let b0 = match self.get_next_byte() {
                    Ok(b) => b,
                    Err(f) => {
                        return Err(f);
                    },
                };
                let b1 = match self.get_next_byte() {
                    Ok(b) => b,
                    Err(f) => {
                        return Err(f);
                    },
                };
                r1 = rb & 7;
                imm = (b0 as u32) * 0x100 + (b1 as u32);
                proof {
                    crate::isa::lemma_unpack_bounded(rb);
                }
            },
            Shape::RegImm4 => {
                let rb = match self.get_next_byte() {
                    Ok(b) => b,
                    Err(f) => {
                        return Err(f);
                    },
                };
                let b0 = match self.get_next_byte() {
                    Ok(b) => b,
                    Err(f) => {
                        return Err(f);
                    },
                };
                let b1 = match self.get_next_byte() {
                    Ok(b) => b,
                    Err(f) => {
                        return Err(f);
                    },
                };
                let b2 = match self.get_next_byte() {
                    Ok(b) => b,
                    Err(f) => {
                        return Err(f);
                    },
                };
                let b3 = match self.get_next_byte() {
                    Ok(b) => b,
                    Err(f) => {
                        return Err(f);
                    },
                };
                r1 = rb & 7;
                imm = (b0 as u32) * 0x1000000 + (b1 as u32) * 0x10000 + (b2 as u32) * 0x100 + (
                b3 as u32);
                proof {
                    crate::isa::lemma_unpack_bounded(rb);
                }
            },
            Shape::Imm4 => {
                let b0 = match self.get_next_byte() {
                    Ok(b) => b,
                    Err(f) => {
                        return Err(f);
                    },
                };
                let b1 = match self.get_next_byte() {
                    Ok(b) => b,
                    Err(f) => {
                        return Err(f);
                    },
                };
                let b2 = match self.get_next_byte() {
                    Ok(b) => b,
                    Err(f) => {
                        return Err(f);
                    },
                };
                let b3 = match self.get_next_byte() {
                    Ok(b) => b,
                    Err(f) => {
                        return Err(f);
                    },
                };
                imm = (b0 as u32) * 0x1000000 + (b1 as u32) * 0x10000 + (b2 as u32) * 0x100 + (
                b3 as u32);
            },
        }
        proof {
            assert(fetch_operands(shape, s1) == Ok::<(u8, u8, u32, VmState), VmState>(
                (r1, r2, imm, self.st()),
            ));
            assert(r1 < 8 && r2 < 8);
        }
        let ghost s2 = self.st();
        let a = self.registers[r1 as usize];
        let b = self.registers[r2 as usize];
        if op == OP_BRK {
            Ok(VmResponse::End)
        } else if op == OP_CPY {
            self.registers[r1 as usize] = b;
            Ok(VmResponse::Continue)
        } else if op == OP_LD8 || op == OP_LD16 || op == OP_LD32 {
            self.registers[r1 as usize] = imm;
            Ok(VmResponse::Continue)
        } else if op == OP_RD8 {
            let addr = b as usize;
            if addr < self.ram.len() {
                let m0 = self.ram[addr];
                self.registers[r1 as usize] = m0 as u32;
                Ok(VmResponse::Continue)
            } else {
                Err(Fault::MemoryAccessOutOfBounds)
            }
        } else if op == OP_RD16 {
            let addr = b as usize;
            if self.ram.len() >= 2 && addr <= self.ram.len() - 2 {
                let m0 = self.ram[addr];
                let m1 = self.ram[addr + 1];
                self.registers[r1 as usize] = (m0 as u32) * 0x100 + (m1 as u32);
                Ok(VmResponse::Continue)
            } else {
                Err(Fault::MemoryAccessOutOfBounds)
            }
        } else if op == OP_RD32 {
            let addr = b as usize;
            if self.ram.len() >= 4 && addr <= self.ram.len() - 4 {
                let m0 = self.ram[addr];
                let m1 = self.ram[addr + 1];
                let m2 = self.ram[addr + 2];
                let m3 = self.ram[addr + 3];
                self.registers[r1 as usize] = (m0 as u32) * 0x1000000 + (m1 as u32) * 0x10000 + (
                m2 as u32) * 0x100 + (m3 as u32);
                Ok(VmResponse::Continue)
            } else {
                Err(Fault::MemoryAccessOutOfBounds)
            }
        } else if op == OP_WR8 {
            let addr = a as usize;
            if addr < self.ram.len() {
                self.ram[addr] = (b % 0x100) as u8;
                proof {
                    assert(self.ram@ =~= store_bytes(s2.mem, addr as int, seq![(b % 0x100) as u8]));
                }
                Ok(VmResponse::Continue)
            } else {
                Err(Fault::MemoryAccessOutOfBounds)
            }
        } else if op == OP_WR16 {
            let addr = a as usize;
            if self.ram.len() >= 2 && addr <= self.ram.len() - 2 {
                self.ram[addr] = ((b / 0x100) % 0x100) as u8;
                self.ram[addr + 1] = (b % 0x100) as u8;
                proof {
                    assert(self.ram@ =~= store_bytes(s2.mem, addr as int, crate::isa::be16_bytes(b)));
                }
                Ok(VmResponse::Continue)
            } else {
                Err(Fault::MemoryAccessOutOfBounds)
            }
        } else if op == OP_WR32 {
            let addr = a as usize;
            if self.ram.len() >= 4 && addr <= self.ram.len() - 4 {
                self.ram[addr] = ((b / 0x1000000) % 0x100) as u8;
                self.ram[addr + 1] = ((b / 0x10000) % 0x100) as u8;
                self.ram[addr + 2] = ((b / 0x100) % 0x100) as u8;
                self.ram[addr + 3] = (b % 0x100) as u8;
                proof {
                    assert(self.ram@ =~= store_bytes(s2.mem, addr as int, crate::isa::be32_bytes(b)));
                }
                Ok(VmResponse::Continue)
            } else {
                Err(Fault::MemoryAccessOutOfBounds)
            }
        } else if op == OP_ADD {
            let v = (((a as u64) + (b as u64)) % 0x100000000u64) as u32;
            proof {
                assert(v == wrap_add(a, b));
            }
            self.registers[r1 as usize] = v;
            Ok(VmResponse::Continue)
        } else if op == OP_SUB {
            let v = (((a as u64) + 0x100000000u64 - (b as u64)) % 0x100000000u64) as u32;
            proof {
                lemma_mod_add_multiples_vanish(a - b, 0x100000000);
                assert(v == wrap_sub(a, b));
            }
            self.registers[r1 as usize] = v;
            Ok(VmResponse::Continue)
        } else if op == OP_MUL {
            proof {
                assert((a as u64) * (b as u64) <= 0xFFFFFFFFu64 * 0xFFFFFFFFu64)
                    by (nonlinear_arith)
                    requires
                        a <= 0xFFFFFFFFu64 && b <= 0xFFFFFFFFu64,
                ;
            }
            let v = (((a as u64) * (b as u64)) % 0x100000000u64) as u32;
            proof {
                assert(v == wrap_mul(a, b));
            }
            self.registers[r1 as usize] = v;
            Ok(VmResponse::Continue)
        } else if op == OP_DIV {
            if b == 0 {
                Err(Fault::DivisionByZero)
            } else {
                self.registers[r1 as usize] = a / b;
                Ok(VmResponse::Continue)
            }
        } else if op == OP_SHL {
            self.registers[r1 as usize] = a << (b % 32);
            Ok(VmResponse::Continue)
        } else if op == OP_SHR {
            self.registers[r1 as usize] = a >> (b % 32);
            Ok(VmResponse::Continue)
        } else if OP_EQ <= op && op <= OP_GEQ {
            let v: u32 = if op == OP_EQ {
                if a == b { 1 } else { 0 }
            } else if op == OP_NEQ {
                if a != b { 1 } else { 0 }
            } else if op == OP_LT {
                if a < b { 1 } else { 0 }
            } else if op == OP_LEQ {
                if a <= b { 1 } else { 0 }
            } else if op == OP_GT {
                if a > b { 1 } else { 0 }
            } else {
                if a >= b { 1 } else { 0 }
            };
            proof {
                assert(v == cmp_value(op, a, b));
            }
            self.registers[r1 as usize] = v;
            Ok(VmResponse::Continue)
        } else if op == OP_NOT {
            self.registers[r1 as usize] = if a == 0 { 1 } else { 0 };
            Ok(VmResponse::Continue)
        } else if op == OP_JMP {
            self.registers[REG_IP] = imm;
            Ok(VmResponse::Continue)
        } else if op == OP_JMPIF {
            if a != 0 {
                self.registers[REG_IP] = imm;
            }
            Ok(VmResponse::Continue)
        } else if op == OP_PRINT {
            self.output.push(a);
            Ok(VmResponse::Continue)
        } else {
            Err(Fault::UnknownOpcode(op))
        }
    }

    /// Runs the fetch-decode-execute loop for at most `max_steps`
    /// instructions. The machine itself imposes no limit: a caller that
    /// wants an unbounded run keeps calling until the status is no longer
    /// `Running`.
    #[verifier::rlimit(50)]
    pub fn run(&mut self, max_steps: u64) -> (r: RunStatus)
        requires
            old(self).wf(),
        ensures
            final(self).wf(),
            match run_fuel(old(self).st(), max_steps as nat) {
                RunOutcome::Halted(s2) => r == RunStatus::Halted && final(self).st() == s2,
                RunOutcome::Faulted(s2, f) => r == RunStatus::Faulted(f) && final(self).st() == s2,
                RunOutcome::Running(s2) => r == RunStatus::Running && final(self).st() == s2,
            },
    {
        let ghost init = self.st();
        let mut steps: u64 = 0;
        loop
            invariant
                init == old(self).st(),
                self.wf(),
                steps <= max_steps,
                run_fuel(init, max_steps as nat) == run_fuel(
                    self.st(),
                    (max_steps - steps) as nat,
                ),
            decreases max_steps - steps,
        {
            if steps == max_steps {
                return RunStatus::Running;
            }
            let ghost cur = self.st();
            let ghost rem = (max_steps - steps) as nat;
            match self.process_instruction() {
                Ok(VmResponse::Continue) => {
                    proof {
                        crate::sem::lemma_run_fuel_unfold(cur, rem);
                        assert(run_fuel(cur, rem) == run_fuel(self.st(), (rem - 1) as nat));
                    }
                    steps += 1;
                },
                Ok(VmResponse::End) => {
                    proof {
                        crate::sem::lemma_run_fuel_unfold(cur, rem);
                        assert(run_fuel(cur, rem) == RunOutcome::Halted(self.st()));
                    }
                    return RunStatus::Halted;
                },
                Err(f) => {
                    proof {
                        crate::sem::lemma_run_fuel_unfold(cur, rem);
                        assert(run_fuel(cur, rem) == RunOutcome::Faulted(self.st(), f));
                    }
                    return RunStatus::Faulted(f);
                },
            }
        }
    }
}

} // verus!
