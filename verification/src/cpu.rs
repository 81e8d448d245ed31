use vstd::prelude::*;
use rand::Rng;
use crate::display::{Display, all_off, draw_spec, sprite_data, sprites};

verus! {

/// Number of addressable memory cells.
pub const MEMORY_SIZE: usize = 4096;

/// Number of general-purpose registers.
pub const REGISTERS_SIZE: usize = 16;

/// Number of return-address slots on the call stack.
pub const STACK_SIZE: usize = 16;

/// Address at which a loaded program begins.
pub const PROGRAM_OFFSET: usize = 0x200;

/// A defect detected while executing one instruction: the machine is left
/// unchanged and the fault is reported instead of corrupting state.
#[derive(Clone, Copy, Debug, PartialEq, Eq, Structural)]
pub enum Fault {
    /// The program counter does not point at a full instruction in memory.
    PcOutOfBounds,
    /// A return was executed with an empty call stack.
    StackUnderflow,
    /// A call was executed with a full call stack.
    StackOverflow,
    /// An operand-derived memory range reaches past the end of memory.
    AddressOutOfBounds,
}

/// One decoded instruction; register selectors, immediates and addresses
/// are carried as plain fields.
#[derive(Clone, Copy, Debug, PartialEq, Eq, Structural)]
pub enum Instr {
    /// Clear the display.
    Cls,
    /// Return from a call.
    Ret,
    /// Jump to an address.
    Jp(u16),
    /// Call a subroutine at an address.
    Call(u16),
    /// Skip the next instruction if register x equals the immediate.
    SeByte(u8, u8),
    /// Skip the next instruction if register x differs from the immediate.
    SneByte(u8, u8),
    /// Skip the next instruction if registers x and y are equal.
    SeReg(u8, u8),
    /// Load an immediate into register x.
    LdByte(u8, u8),
    /// Add an immediate to register x, wrapping, flags untouched.
    AddByte(u8, u8),
    /// Copy register y into register x.
    LdReg(u8, u8),
    /// Bitwise or of registers x and y into x.
    Or(u8, u8),
    /// Bitwise and of registers x and y into x.
    And(u8, u8),
    /// Bitwise xor of registers x and y into x.
    Xor(u8, u8),
    /// Add register y to register x with carry into the flags register.
    AddReg(u8, u8),
    /// Subtract register y from register x, flags = 1 iff no borrow.
    SubReg(u8, u8),
    /// Shift register x right by one, flags = its old lowest bit.
    Shr(u8),
    /// Set register x to y minus x, flags = 1 iff no borrow.
    SubnReg(u8, u8),
    /// Shift register x left by one, flags = its old value masked with 0x80.
    Shl(u8),
    /// Skip the next instruction if registers x and y differ.
    SneReg(u8, u8),
    /// Load an address into the index register.
    LdI(u16),
    /// Jump to an address plus register 0.
    JpV0(u16),
    /// Set register x to a random byte masked with the immediate.
    Rnd(u8, u8),
    /// Draw an n-row sprite from memory at the index register.
    Drw(u8, u8, u8),
    /// Skip the next instruction if the key in register x is pressed.
    Skp(u8),
    /// Skip the next instruction if the key in register x is not pressed.
    Sknp(u8),
    /// Load the delay timer into register x.
    LdVxDt(u8),
    /// Wait for a key: retry this instruction until some key is pressed.
    LdKey(u8),
    /// Load register x into the delay timer.
    LdDtVx(u8),
    /// Load the sound timer: accepted with no effect.
    LdSt(u8),
    /// Add register x to the index register, wrapping.
    AddI(u8),
    /// Point the index register at the glyph for register x.
    LdF(u8),
    /// Store the decimal digits of register x at the index register.
    Bcd(u8),
    /// Copy registers 0..=x into memory at the index register.
    Dump(u8),
    /// Copy memory at the index register into registers 0..=x.
    LoadR(u8),
    /// Any unrecognized encoding: a deliberate no-op.
    Nop,
}

/// Decodes a 16-bit instruction word.
pub open spec fn spec_decode(op: u16) -> Instr {
    let x = ((op >> 8u16) & 0xF) as u8;
    let y = ((op >> 4u16) & 0xF) as u8;
    let nnn = op & 0x0FFF;
    let kk = (op & 0xFF) as u8;
    let n = (op & 0xF) as u8;
    let hi = op >> 12u16;
    let lo = op & 0xF;
    if op == 0x00E0 {
        Instr::Cls
    } else if op == 0x00EE {
        Instr::Ret
    } else if hi == 0x1 {
        Instr::Jp(nnn)
    } else if hi == 0x2 {
        Instr::Call(nnn)
    } else if hi == 0x3 {
        Instr::SeByte(x, kk)
    } else if hi == 0x4 {
        Instr::SneByte(x, kk)
    } else if hi == 0x5 && lo == 0x0 {
        Instr::SeReg(x, y)
    } else if hi == 0x6 {
        Instr::LdByte(x, kk)
    } else if hi == 0x7 {
        Instr::AddByte(x, kk)
    } else if hi == 0x8 && lo == 0x0 {
        Instr::LdReg(x, y)
    } else if hi == 0x8 && lo == 0x1 {
        Instr::Or(x, y)
    } else if hi == 0x8 && lo == 0x2 {
        Instr::And(x, y)
    } else if hi == 0x8 && lo == 0x3 {
        Instr::Xor(x, y)
    } else if hi == 0x8 && lo == 0x4 {
        Instr::AddReg(x, y)
    } else if hi == 0x8 && lo == 0x5 {
        Instr::SubReg(x, y)
    } else if hi == 0x8 && lo == 0x6 {
        Instr::Shr(x)
    } else if hi == 0x8 && lo == 0x7 {
        Instr::SubnReg(x, y)
    } else if hi == 0x8 && lo == 0xE {
        Instr::Shl(x)
    } else if hi == 0x9 {
        Instr::SneReg(x, y)
    } else if hi == 0xA {
        Instr::LdI(nnn)
    } else if hi == 0xB {
        Instr::JpV0(nnn)
    } else if hi == 0xC {
        Instr::Rnd(x, kk)
    } else if hi == 0xD {
        Instr::Drw(x, y, n)
    } else if hi == 0xE && kk == 0x9E {
        Instr::Skp(x)
    } else if hi == 0xE && kk == 0xA1 {
        Instr::Sknp(x)
    } else if hi == 0xF && kk == 0x07 {
        Instr::LdVxDt(x)
    } else if hi == 0xF && kk == 0x0A {
        Instr::LdKey(x)
    } else if hi == 0xF && kk == 0x15 {
        Instr::LdDtVx(x)
    } else if hi == 0xF && kk == 0x18 {
        Instr::LdSt(x)
    } else if hi == 0xF && kk == 0x1E {
        Instr::AddI(x)
    } else if hi == 0xF && kk == 0x29 {
        Instr::LdF(x)
    } else if hi == 0xF && kk == 0x33 {
        Instr::Bcd(x)
    } else if hi == 0xF && kk == 0x55 {
        Instr::Dump(x)
    } else if hi == 0xF && kk == 0x65 {
        Instr::LoadR(x)
    } else {
        Instr::Nop
    }
}

/// Every operand field of a decoded instruction lies in its range: register
/// selectors and counts below 16, addresses below 4096.
pub open spec fn instr_wf(ins: Instr) -> bool {
    match ins {
        Instr::Cls => true,
        Instr::Ret => true,
        Instr::Jp(nnn) => nnn < 4096,
        Instr::Call(nnn) => nnn < 4096,
        Instr::SeByte(x, _kk) => x < 16,
        Instr::SneByte(x, _kk) => x < 16,
        Instr::SeReg(x, y) => x < 16 && y < 16,
        Instr::LdByte(x, _kk) => x < 16,
        Instr::AddByte(x, _kk) => x < 16,
        Instr::LdReg(x, y) => x < 16 && y < 16,
        Instr::Or(x, y) => x < 16 && y < 16,
        Instr::And(x, y) => x < 16 && y < 16,
        Instr::Xor(x, y) => x < 16 && y < 16,
        Instr::AddReg(x, y) => x < 16 && y < 16,
        Instr::SubReg(x, y) => x < 16 && y < 16,
        Instr::Shr(x) => x < 16,
        Instr::SubnReg(x, y) => x < 16 && y < 16,
        Instr::Shl(x) => x < 16,
        Instr::SneReg(x, y) => x < 16 && y < 16,
        Instr::LdI(nnn) => nnn < 4096,
        Instr::JpV0(nnn) => nnn < 4096,
        Instr::Rnd(x, _kk) => x < 16,
        Instr::Drw(x, y, n) => x < 16 && y < 16 && n < 16,
        Instr::Skp(x) => x < 16,
        Instr::Sknp(x) => x < 16,
        Instr::LdVxDt(x) => x < 16,
        Instr::LdKey(x) => x < 16,
        Instr::LdDtVx(x) => x < 16,
        Instr::LdSt(x) => x < 16,
        Instr::AddI(x) => x < 16,
        Instr::LdF(x) => x < 16,
        Instr::Bcd(x) => x < 16,
        Instr::Dump(x) => x < 16,
        Instr::LoadR(x) => x < 16,
        Instr::Nop => true,
    }
}

/// Every decoded instruction has well-formed operand fields.
pub proof fn lemma_decode_wf(op: u16)
    ensures
        instr_wf(spec_decode(op)),
{
    assert(((op >> 8u16) & 0xF) < 16) by (bit_vector);
    assert(((op >> 4u16) & 0xF) < 16) by (bit_vector);
    assert((op & 0x0FFF) < 4096) by (bit_vector);
    assert((op & 0xF) < 16) by (bit_vector);
}

/// Decodes a 16-bit instruction word into its tagged form.
pub fn decode(op: u16) -> (ins: Instr)
    ensures
        ins == spec_decode(op),
        instr_wf(ins),
{
    proof {
        lemma_decode_wf(op);
    }
    let x = ((op >> 8u16) & 0xF) as u8;
    let y = ((op >> 4u16) & 0xF) as u8;
    let nnn = op & 0x0FFF;
    let kk = (op & 0xFF) as u8;
    let n = (op & 0xF) as u8;
    let hi = op >> 12u16;
    let lo = op & 0xF;
    if op == 0x00E0 {
        Instr::Cls
    } else if op == 0x00EE {
        Instr::Ret
    } else if hi == 0x1 {
        Instr::Jp(nnn)
    } else if hi == 0x2 {
        Instr::Call(nnn)
    } else if hi == 0x3 {
        Instr::SeByte(x, kk)
    } else if hi == 0x4 {
        Instr::SneByte(x, kk)
    } else if hi == 0x5 && lo == 0x0 {
        Instr::SeReg(x, y)
    } else if hi == 0x6 {
        Instr::LdByte(x, kk)
    } else if hi == 0x7 {
        Instr::AddByte(x, kk)
    } else if hi == 0x8 && lo == 0x0 {
        Instr::LdReg(x, y)
    } else if hi == 0x8 && lo == 0x1 {
        Instr::Or(x, y)
    } else if hi == 0x8 && lo == 0x2 {
        Instr::And(x, y)
    } else if hi == 0x8 && lo == 0x3 {
        Instr::Xor(x, y)
    } else if hi == 0x8 && lo == 0x4 {
        Instr::AddReg(x, y)
    } else if hi == 0x8 && lo == 0x5 {
        Instr::SubReg(x, y)
    } else if hi == 0x8 && lo == 0x6 {
        Instr::Shr(x)
    } else if hi == 0x8 && lo == 0x7 {
        Instr::SubnReg(x, y)
    } else if hi == 0x8 && lo == 0xE {
        Instr::Shl(x)
    } else if hi == 0x9 {
        Instr::SneReg(x, y)
    } else if hi == 0xA {
        Instr::LdI(nnn)
    } else if hi == 0xB {
        Instr::JpV0(nnn)
    } else if hi == 0xC {
        Instr::Rnd(x, kk)
    } else if hi == 0xD {
        Instr::Drw(x, y, n)
    } else if hi == 0xE && kk == 0x9E {
        Instr::Skp(x)
    } else if hi == 0xE && kk == 0xA1 {
        Instr::Sknp(x)
    } else if hi == 0xF && kk == 0x07 {
        Instr::LdVxDt(x)
    } else if hi == 0xF && kk == 0x0A {
        Instr::LdKey(x)
    } else if hi == 0xF && kk == 0x15 {
        Instr::LdDtVx(x)
    } else if hi == 0xF && kk == 0x18 {
        Instr::LdSt(x)
    } else if hi == 0xF && kk == 0x1E {
        Instr::AddI(x)
    } else if hi == 0xF && kk == 0x29 {
        Instr::LdF(x)
    } else if hi == 0xF && kk == 0x33 {
        Instr::Bcd(x)
    } else if hi == 0xF && kk == 0x55 {
        Instr::Dump(x)
    } else if hi == 0xF && kk == 0x65 {
        Instr::LoadR(x)
    } else {
        Instr::Nop
    }
}

/// The mathematical state of the machine.
#[verifier::ext_equal]
pub ghost struct CpuState {
    pub mem: Seq<u8>,
    pub disp: Seq<bool>,
    pub keys: Seq<u8>,
    pub stack: Seq<u16>,
    pub sp: u8,
    pub v: Seq<u8>,
    pub i: u16,
    pub dt: u8,
    pub pc: u16,
}

/// The 16-bit big-endian instruction word at `pc`.
pub open spec fn fetch(mem: Seq<u8>, pc: u16) -> u16 {
    ((mem[pc as int] as u16) << 8u16) | (mem[pc as int + 1] as u16)
}

/// Memory after copying registers 0..=x to addresses base..=base+x.
pub open spec fn dump_mem(mem: Seq<u8>, v: Seq<u8>, base: int, x: int) -> Seq<u8> {
    Seq::new(MEMORY_SIZE as nat, |k: int| if base <= k < base + x + 1 {
        v[k - base]
    } else {
        mem[k]
    })
}

/// Registers after copying addresses base..=base+x to registers 0..=x.
pub open spec fn load_regs(mem: Seq<u8>, v: Seq<u8>, base: int, x: int) -> Seq<u8> {
    Seq::new(REGISTERS_SIZE as nat, |k: int| if 0 <= k <= x {
        mem[base + k]
    } else {
        v[k]
    })
}

/// Memory after loading a program at the program offset.
pub open spec fn loaded_mem(mem: Seq<u8>, prog: Seq<u8>) -> Seq<u8> {
    Seq::new(MEMORY_SIZE as nat, |k: int| if PROGRAM_OFFSET <= k < PROGRAM_OFFSET + prog.len() {
        prog[k - PROGRAM_OFFSET]
    } else {
        mem[k]
    })
}

/// Memory right after a reset: the glyph table in the first 80 cells,
/// zeroes everywhere else.
pub open spec fn reset_mem() -> Seq<u8> {
    Seq::new(MEMORY_SIZE as nat, |k: int| if 0 <= k < 80 {
        sprite_data()[k]
    } else {
        0u8
    })
}

/// The state of a newly created machine: everything zeroed, display off.
pub open spec fn initial_state() -> CpuState {
    CpuState {
        mem: Seq::new(MEMORY_SIZE as nat, |k: int| 0u8),
        disp: all_off(),
        keys: Seq::<u8>::empty(),
        stack: Seq::new(STACK_SIZE as nat, |k: int| 0u16),
        sp: 0,
        v: Seq::new(REGISTERS_SIZE as nat, |k: int| 0u8),
        i: 0,
        dt: 0,
        pc: 0,
    }
}

/// The state after a reset: like a fresh machine with the glyph table
/// loaded, but with the host-supplied key set kept as it is.
pub open spec fn reset_state(pre: CpuState) -> CpuState {
    CpuState { mem: reset_mem(), keys: pre.keys, ..initial_state() }
}

/// The state after aging the delay timer by one tick: it decrements toward
/// zero and never underflows.
pub open spec fn aged(pre: CpuState) -> CpuState {
    CpuState { dt: if pre.dt > 0 { (pre.dt - 1) as u8 } else { 0u8 }, ..pre }
}

/// Effect of one decoded instruction on the machine state. `next` is the
/// program counter already advanced past the instruction; `rand` is the
/// byte consumed by the random instruction.
pub open spec fn step_instr(pre: CpuState, ins: Instr, next: u16, rand: u8) -> Result<
    CpuState,
    Fault,
> {
    match ins {
        Instr::Cls => Ok(CpuState { pc: next, disp: all_off(), ..pre }),
        Instr::Ret => if pre.sp == 0 {
            Err(Fault::StackUnderflow)
        } else {
            Ok(CpuState { sp: (pre.sp - 1) as u8, pc: pre.stack[pre.sp - 1], ..pre })
        },
        Instr::Jp(nnn) => Ok(CpuState { pc: nnn, ..pre }),
        Instr::Call(nnn) => if pre.sp >= 16 {
            Err(Fault::StackOverflow)
        } else {
            Ok(
                CpuState {
                    stack: pre.stack.update(pre.sp as int, next),
                    sp: (pre.sp + 1) as u8,
                    pc: nnn,
                    ..pre
                },
            )
        },
        Instr::SeByte(x, kk) => Ok(
            CpuState {
                pc: if pre.v[x as int] == kk {
                    (next + 2) as u16
                } else {
                    next
                },
                ..pre
            },
        ),
        Instr::SneByte(x, kk) => Ok(
            CpuState {
                pc: if pre.v[x as int] != kk {
                    (next + 2) as u16
                } else {
                    next
                },
                ..pre
            },
        ),
        Instr::SeReg(x, y) => Ok(
            CpuState {
                pc: if pre.v[x as int] == pre.v[y as int] {
                    (next + 2) as u16
                } else {
                    next
                },
                ..pre
            },
        ),
        Instr::LdByte(x, kk) => Ok(CpuState { v: pre.v.update(x as int, kk), pc: next, ..pre }),
        Instr::AddByte(x, kk) => Ok(
            CpuState {
                v: pre.v.update(x as int, ((pre.v[x as int] + kk) % 256) as u8),
                pc: next,
                ..pre
            },
        ),
        Instr::LdReg(x, y) => Ok(
            CpuState { v: pre.v.update(x as int, pre.v[y as int]), pc: next, ..pre },
        ),
        Instr::Or(x, y) => Ok(
            CpuState { v: pre.v.update(x as int, pre.v[x as int] | pre.v[y as int]), pc: next, ..pre },
        ),
        Instr::And(x, y) => Ok(
            CpuState { v: pre.v.update(x as int, pre.v[x as int] & pre.v[y as int]), pc: next, ..pre },
        ),
        Instr::Xor(x, y) => Ok(
            CpuState { v: pre.v.update(x as int, pre.v[x as int] ^ pre.v[y as int]), pc: next, ..pre },
        ),
        Instr::AddReg(x, y) => {
            let sum = pre.v[x as int] + pre.v[y as int];
            let flag: u8 = if sum > 255 {
                1
            } else {
                0
            };
            Ok(
                CpuState {
                    v: pre.v.update(15, flag).update(x as int, (sum % 256) as u8),
                    pc: next,
                    ..pre
                },
            )
        },
        Instr::SubReg(x, y) => {
            let a = pre.v[x as int];
            let b = pre.v[y as int];
            let flag: u8 = if a >= b {
                1
            } else {
                0
            };
            Ok(
                CpuState {
                    v: pre.v.update(15, flag).update(x as int, ((a - b + 256) % 256) as u8),
                    pc: next,
                    ..pre
                },
            )
        },
        Instr::Shr(x) => {
            let v1 = pre.v.update(15, pre.v[x as int] & 1);
            Ok(CpuState { v: v1.update(x as int, v1[x as int] >> 1u8), pc: next, ..pre })
        },
        Instr::SubnReg(x, y) => {
            let a = pre.v[y as int];
            let b = pre.v[x as int];
            let flag: u8 = if a >= b {
                1
            } else {
                0
            };
            Ok(
                CpuState {
                    v: pre.v.update(15, flag).update(x as int, ((a - b + 256) % 256) as u8),
                    pc: next,
                    ..pre
                },
            )
        },
        Instr::Shl(x) => {
            let v1 = pre.v.update(15, pre.v[x as int] & 0x80);
            Ok(CpuState { v: v1.update(x as int, v1[x as int] << 1u8), pc: next, ..pre })
        },
        Instr::SneReg(x, y) => Ok(
            CpuState {
                pc: if pre.v[x as int] != pre.v[y as int] {
                    (next + 2) as u16
                } else {
                    next
                },
                ..pre
            },
        ),
        Instr::LdI(nnn) => Ok(CpuState { i: nnn, pc: next, ..pre }),
        Instr::JpV0(nnn) => Ok(CpuState { pc: (nnn + pre.v[0]) as u16, ..pre }),
        Instr::Rnd(x, kk) => Ok(CpuState { v: pre.v.update(x as int, rand & kk), pc: next, ..pre }),
        Instr::Drw(x, y, n) => if pre.i + n > MEMORY_SIZE {
            Err(Fault::AddressOutOfBounds)
        } else {
            let sprite = pre.mem.subrange(pre.i as int, pre.i as int + n as int);
            let r = draw_spec(pre.disp, pre.v[x as int] as int, pre.v[y as int] as int, sprite);
            Ok(
                CpuState {
                    disp: r.0,
                    v: pre.v.update(15, if r.1 {
                        1u8
                    } else {
                        0u8
                    }),
                    pc: next,
                    ..pre
                },
            )
        },
        Instr::Skp(x) => Ok(
            CpuState {
                pc: if pre.keys.contains(pre.v[x as int]) {
                    (next + 2) as u16
                } else {
                    next
                },
                ..pre
            },
        ),
        Instr::Sknp(x) => Ok(
            CpuState {
                pc: if !pre.keys.contains(pre.v[x as int]) {
                    (next + 2) as u16
                } else {
                    next
                },
                ..pre
            },
        ),
        Instr::LdVxDt(x) => Ok(CpuState { v: pre.v.update(x as int, pre.dt), pc: next, ..pre }),
        Instr::LdKey(x) => if pre.keys.len() == 0 {
            Ok(pre)
        } else {
            Ok(CpuState { v: pre.v.update(x as int, pre.keys[0]), pc: next, ..pre })
        },
        Instr::LdDtVx(x) => Ok(CpuState { dt: pre.v[x as int], pc: next, ..pre }),
        Instr::LdSt(_x) => Ok(CpuState { pc: next, ..pre }),
        Instr::AddI(x) => Ok(
            CpuState { i: ((pre.i + pre.v[x as int]) % 0x10000) as u16, pc: next, ..pre },
        ),
        Instr::LdF(x) => Ok(CpuState { i: (pre.v[x as int] * 5) as u16, pc: next, ..pre }),
        Instr::Bcd(x) => if pre.i + 3 > MEMORY_SIZE {
            Err(Fault::AddressOutOfBounds)
        } else {
            let val = pre.v[x as int];
            Ok(
                CpuState {
                    mem: pre.mem.update(pre.i as int, (val / 100) as u8).update(
                        pre.i as int + 1,
                        ((val / 10) % 10) as u8,
                    ).update(pre.i as int + 2, (val % 10) as u8),
                    pc: next,
                    ..pre
                },
            )
        },
        Instr::Dump(x) => if pre.i + x + 1 > MEMORY_SIZE {
            Err(Fault::AddressOutOfBounds)
        } else {
            Ok(CpuState { mem: dump_mem(pre.mem, pre.v, pre.i as int, x as int), pc: next, ..pre })
        },
        Instr::LoadR(x) => if pre.i + x + 1 > MEMORY_SIZE {
            Err(Fault::AddressOutOfBounds)
        } else {
            Ok(CpuState { v: load_regs(pre.mem, pre.v, pre.i as int, x as int), pc: next, ..pre })
        },
        Instr::Nop => Ok(CpuState { pc: next, ..pre }),
    }
}

/// One whole fetch-decode-execute step: fetch the instruction at `pc`,
/// advance `pc` past it, and apply the instruction's effect. Any fault
/// leaves the machine unchanged.
pub open spec fn step(pre: CpuState, rand: u8) -> Result<CpuState, Fault> {
    if pre.pc >= MEMORY_SIZE - 1 {
        Err(Fault::PcOutOfBounds)
    } else {
        step_instr(pre, spec_decode(fetch(pre.mem, pre.pc)), (pre.pc + 2) as u16, rand)
    }
}

/// How one executed step relates the old and the new machine: on success
/// the new state is exactly what `step` computes from the consumed random
/// byte; on a fault the machine is unchanged and the fault is returned.
pub open spec fn step_outcome(pre: CpuState, post: CpuState, rand: u8, r: Result<
    (),
    Fault,
>) -> bool {
    match step(pre, rand) {
        Ok(s) => r is Ok && post == s,
        Err(f) => r == Result::<(), Fault>::Err(f) && post == pre,
    }
}

/// Relies on rand::thread_rng and rand::Rng::gen to draw one byte from the
/// thread-local generator; nothing is assumed about its value.
#[verifier::external_body]
fn random_byte() -> u8 {
    rand::thread_rng().gen()
}

/// The register file, memory, call stack, timers and display of the
/// machine, mutated in place by the execution engine.
pub struct CPU {
    pub memory: Vec<u8>,
    pub display: Display,
    pub keys: Vec<u8>,
    pub stack: Vec<u16>,
    pub sp: u8,
    pub v: Vec<u8>,
    pub i: u16,
    pub dt: u8,
    pub pc: u16,
}

impl View for CPU {
    type V = CpuState;

    open spec fn view(&self) -> CpuState {
        CpuState {
            mem: self.memory@,
            disp: self.display@,
            keys: self.keys@,
            stack: self.stack@,
            sp: self.sp,
            v: self.v@,
            i: self.i,
            dt: self.dt,
            pc: self.pc,
        }
    }
}

impl CPU {
    /// The fixed-size containers have their proper sizes and the stack
    /// pointer stays within the stack.
    pub open spec fn wf(&self) -> bool {
        &&& self.memory@.len() == MEMORY_SIZE
        &&& self.stack@.len() == STACK_SIZE
        &&& self.v@.len() == REGISTERS_SIZE
        &&& self.sp <= STACK_SIZE
        &&& self.display.wf()
    }

    /// A fresh machine, fully zeroed, display off, no keys pressed.
    pub fn new() -> (cpu: CPU)
        ensures
            cpu.wf(),
            cpu@ == initial_state(),
    {
        let cpu = CPU {
            memory: zeroed_bytes(MEMORY_SIZE),
            display: Display::new(),
            keys: Vec::new(),
            stack: zeroed_words(STACK_SIZE),
            sp: 0,
            v: zeroed_bytes(REGISTERS_SIZE),
            i: 0,
            dt: 0,
            pc: 0,
        };
        proof {
            assert(cpu@ =~= initial_state());
        }
        cpu
    }

    /// Copies a program into memory starting at the program offset. The
    /// loader at the boundary must already have rejected anything longer
    /// than the space above the offset.
    pub fn load_program(&mut self, program: &[u8])
        requires
            old(self).wf(),
            program@.len() <= MEMORY_SIZE - PROGRAM_OFFSET,
        ensures
            final(self).wf(),
            final(self)@ == (CpuState { mem: loaded_mem(old(self)@.mem, program@), ..old(self)@ }),
    {
        let n = program.len();
        let mut k: usize = 0;
        while k < n
            invariant
                old(self).wf(),
                self.wf(),
                k <= n,
                n == program@.len(),
                n <= MEMORY_SIZE - PROGRAM_OFFSET,
                self.display == old(self).display,
                self.keys == old(self).keys,
                self.stack == old(self).stack,
                self.v == old(self).v,
                self.sp == old(self).sp,
                self.i == old(self).i,
                self.dt == old(self).dt,
                self.pc == old(self).pc,
                forall|idx: int|
                    0 <= idx < MEMORY_SIZE ==> self.memory@[idx] == (if PROGRAM_OFFSET <= idx
                        < PROGRAM_OFFSET + k {
                        program@[idx - PROGRAM_OFFSET]
                    } else {
                        old(self).memory@[idx]
                    }),
            decreases n - k,
        {
            self.memory[PROGRAM_OFFSET + k] = program[k];
            k += 1;
        }
        proof {
            assert(self@.mem =~= loaded_mem(old(self)@.mem, program@));
            assert(self@ =~= (CpuState { mem: loaded_mem(old(self)@.mem, program@), ..old(self)@ }));
        }
    }

    /// Reinitializes the machine: glyph table in low memory, everything
    /// else zeroed, display cleared. The key set is kept as the host last
    /// supplied it.
    pub fn reset(&mut self)
        requires
            old(self).wf(),
        ensures
            final(self).wf(),
            final(self)@ == reset_state(old(self)@),
    {
        let mut k: usize = 0;
        while k < MEMORY_SIZE
            invariant
                old(self).wf(),
                self.wf(),
                k <= MEMORY_SIZE,
                self.display == old(self).display,
                self.keys == old(self).keys,
                self.stack == old(self).stack,
                self.v == old(self).v,
                self.sp == old(self).sp,
                self.i == old(self).i,
                self.dt == old(self).dt,
                self.pc == old(self).pc,
                forall|idx: int| 0 <= idx < k ==> self.memory@[idx] == 0u8,
            decreases MEMORY_SIZE - k,
        {
            self.memory[k] = 0;
            k += 1;
        }
        let glyphs = sprites();
        let mut g: usize = 0;
        while g < 80
            invariant
                old(self).wf(),
                self.wf(),
                g <= 80,
                glyphs@ == sprite_data(),
                self.display == old(self).display,
                self.keys == old(self).keys,
                self.stack == old(self).stack,
                self.v == old(self).v,
                self.sp == old(self).sp,
                self.i == old(self).i,
                self.dt == old(self).dt,
                self.pc == old(self).pc,
                forall|idx: int| 0 <= idx < g ==> self.memory@[idx] == sprite_data()[idx],
                forall|idx: int| g <= idx < MEMORY_SIZE ==> self.memory@[idx] == 0u8,
            decreases 80 - g,
        {
            self.memory[g] = glyphs[g];
            g += 1;
        }
        self.display.cls();
        let mut s: usize = 0;
        while s < STACK_SIZE
            invariant
                old(self).wf(),
                self.wf(),
                s <= STACK_SIZE,
                self.keys == old(self).keys,
                self.sp == old(self).sp,
                self.i == old(self).i,
                self.dt == old(self).dt,
                self.pc == old(self).pc,
                self.v == old(self).v,
                self.memory@ == reset_mem(),
                self.display@ == all_off(),
                self.display.wf(),
                forall|idx: int| 0 <= idx < s ==> self.stack@[idx] == 0u16,
            decreases STACK_SIZE - s,
        {
            self.stack[s] = 0;
            s += 1;
        }
        let mut r: usize = 0;
        while r < REGISTERS_SIZE
            invariant
                old(self).wf(),
                self.wf(),
                r <= REGISTERS_SIZE,
                self.keys == old(self).keys,
                self.sp == old(self).sp,
                self.i == old(self).i,
                self.dt == old(self).dt,
                self.pc == old(self).pc,
                self.memory@ == reset_mem(),
                self.display@ == all_off(),
                self.display.wf(),
                forall|idx: int| 0 <= idx < STACK_SIZE ==> self.stack@[idx] == 0u16,
                forall|idx: int| 0 <= idx < r ==> self.v@[idx] == 0u8,
            decreases REGISTERS_SIZE - r,
        {
            self.v[r] = 0;
            r += 1;
        }
        self.sp = 0;
        self.i = 0;
        self.dt = 0;
        self.pc = 0;
        proof {
            assert(self@.stack =~= reset_state(old(self)@).stack);
            assert(self@.v =~= reset_state(old(self)@).v);
            assert(self@.mem =~= reset_state(old(self)@).mem);
            assert(self@ =~= reset_state(old(self)@));
        }
    }

    /// Ages the delay timer by one tick; it floors at zero.
    pub fn run_timers(&mut self)
        requires
            old(self).wf(),
        ensures
            final(self).wf(),
            final(self)@ == aged(old(self)@),
    {
        if self.dt > 0 {
            self.dt = self.dt - 1;
        }
        proof {
            assert(self@ =~= aged(old(self)@));
        }
    }

    /// Executes exactly one instruction, with `rand` standing in for the
    /// byte the random instruction consumes. On a fault the machine is
    /// left untouched.
    pub fn execute_with_rand(&mut self, rand: u8) -> (r: Result<(), Fault>)
        requires
            old(self).wf(),
        ensures
            final(self).wf(),
            step_outcome(old(self)@, final(self)@, rand, r),
    {
        let pc = self.pc;
        if pc >= (MEMORY_SIZE - 1) as u16 {
            return Err(Fault::PcOutOfBounds);
        }
        let hi = self.memory[pc as usize];
        let lo = self.memory[pc as usize + 1];
        let op: u16 = ((hi as u16) << 8u16) | (lo as u16);
        let ins = decode(op);
        let next = pc + 2;
        proof {
            assert(op == fetch(old(self)@.mem, pc));
        }
        match ins {
            Instr::Cls => {
                self.display.cls();
                self.pc = next;
            },
            Instr::Ret => {
                if self.sp == 0 {
                    return Err(Fault::StackUnderflow);
                }
                self.sp = self.sp - 1;
                self.pc = self.stack[self.sp as usize];
            },
            Instr::Jp(nnn) => {
                self.pc = nnn;
            },
            Instr::Call(nnn) => {
                if self.sp >= STACK_SIZE as u8 {
                    return Err(Fault::StackOverflow);
                }
                self.stack[self.sp as usize] = next;
                self.sp = self.sp + 1;
                self.pc = nnn;
            },
            Instr::SeByte(x, kk) => {
                self.pc = if self.v[x as usize] == kk {
                    next + 2
                } else {
                    next
                };
            },
            Instr::SneByte(x, kk) => {
                self.pc = if self.v[x as usize] != kk {
                    next + 2
                } else {
                    next
                };
            },
            Instr::SeReg(x, y) => {
                self.pc = if self.v[x as usize] == self.v[y as usize] {
                    next + 2
                } else {
                    next
                };
            },
            Instr::LdByte(x, kk) => {
                self.v[x as usize] = kk;
                self.pc = next;
            },
            Instr::AddByte(x, kk) => {
                let sum = self.v[x as usize] as u16 + kk as u16;
                self.v[x as usize] = (sum % 256) as u8;
                self.pc = next;
            },
            Instr::LdReg(x, y) => {
                self.v[x as usize] = self.v[y as usize];
                self.pc = next;
            },
            Instr::Or(x, y) => {
                self.v[x as usize] = self.v[x as usize] | self.v[y as usize];
                self.pc = next;
            },
            Instr::And(x, y) => {
                self.v[x as usize] = self.v[x as usize] & self.v[y as usize];
                self.pc = next;
            },
            Instr::Xor(x, y) => {
                self.v[x as usize] = self.v[x as usize] ^ self.v[y as usize];
                self.pc = next;
            },
            Instr::AddReg(x, y) => {
                let sum = self.v[x as usize] as u16 + self.v[y as usize] as u16;
                let flag: u8 = if sum > 255 {
                    1
                } else {
                    0
                };
                self.v[15] = flag;
                self.v[x as usize] = (sum % 256) as u8;
                self.pc = next;
            },
            Instr::SubReg(x, y) => {
                let a = self.v[x as usize];
                let b = self.v[y as usize];
                let flag: u8 = if a >= b {
                    1
                } else {
                    0
                };
                self.v[15] = flag;
                self.v[x as usize] = ((a as u16 + 256 - b as u16) % 256) as u8;
                self.pc = next;
            },
            Instr::Shr(x) => {
                let a = self.v[x as usize];
                self.v[15] = a & 1;
                let a2 = self.v[x as usize];
                self.v[x as usize] = a2 >> 1u8;
                self.pc = next;
            },
            Instr::SubnReg(x, y) => {
                let a = self.v[y as usize];
                let b = self.v[x as usize];
                let flag: u8 = if a >= b {
                    1
                } else {
                    0
                };
                self.v[15] = flag;
                self.v[x as usize] = ((a as u16 + 256 - b as u16) % 256) as u8;
                self.pc = next;
            },
            Instr::Shl(x) => {
                let a = self.v[x as usize];
                self.v[15] = a & 0x80;
                let a2 = self.v[x as usize];
                self.v[x as usize] = a2 << 1u8;
                self.pc = next;
            },
            Instr::SneReg(x, y) => {
                self.pc = if self.v[x as usize] != self.v[y as usize] {
                    next + 2
                } else {
                    next
                };
            },
            Instr::LdI(nnn) => {
                self.i = nnn;
                self.pc = next;
            },
            Instr::JpV0(nnn) => {
                self.pc = nnn + self.v[0] as u16;
            },
            Instr::Rnd(x, kk) => {
                self.v[x as usize] = rand & kk;
                self.pc = next;
            },
            Instr::Drw(x, y, n) => {
                let base = self.i as usize;
                if base + n as usize > MEMORY_SIZE {
                    return Err(Fault::AddressOutOfBounds);
                }
                let mut sprite: Vec<u8> = Vec::new();
                let mut k: usize = 0;
                while k < n as usize
                    invariant
                        k <= n as usize,
                        base + n as usize <= MEMORY_SIZE,
                        self.memory@.len() == MEMORY_SIZE,
                        sprite@.len() == k,
                        forall|j: int| 0 <= j < k ==> sprite@[j] == self.memory@[base + j],
                    decreases n as usize - k,
                {
                    sprite.push(self.memory[base + k]);
                    k += 1;
                }
                proof {
                    assert(sprite@ =~= old(self)@.mem.subrange(
                        old(self)@.i as int,
                        old(self)@.i as int + n as int,
                    ));
                }
                let vx = self.v[x as usize];
                let vy = self.v[y as usize];
                let collision = self.display.draw(vx as usize, vy as usize, sprite.as_slice());
                self.v[15] = if collision {
                    1
                } else {
                    0
                };
                self.pc = next;
            },
            Instr::Skp(x) => {
                let vx = self.v[x as usize];
                self.pc = if contains_byte(&self.keys, vx) {
                    next + 2
                } else {
                    next
                };
            },
            Instr::Sknp(x) => {
                let vx = self.v[x as usize];
                self.pc = if !contains_byte(&self.keys, vx) {
                    next + 2
                } else {
                    next
                };
            },
            Instr::LdVxDt(x) => {
                self.v[x as usize] = self.dt;
                self.pc = next;
            },
            Instr::LdKey(x) => {
                if self.keys.len() > 0 {
                    let key = self.keys[0];
                    self.v[x as usize] = key;
                    self.pc = next;
                }
            },
            Instr::LdDtVx(x) => {
                self.dt = self.v[x as usize];
                self.pc = next;
            },
            Instr::LdSt(_x) => {
                self.pc = next;
            },
            Instr::AddI(x) => {
                self.i = ((self.i as u32 + self.v[x as usize] as u32) % 0x10000) as u16;
                self.pc = next;
            },
            Instr::LdF(x) => {
                self.i = self.v[x as usize] as u16 * 5;
                self.pc = next;
            },
            Instr::Bcd(x) => {
                let base = self.i as usize;
                if base + 3 > MEMORY_SIZE {
                    return Err(Fault::AddressOutOfBounds);
                }
                let vx = self.v[x as usize];
                self.memory[base] = vx / 100;
                self.memory[base + 1] = (vx / 10) % 10;
                self.memory[base + 2] = vx % 10;
                self.pc = next;
            },
            Instr::Dump(x) => {
                let base = self.i as usize;
                if base + x as usize + 1 > MEMORY_SIZE {
                    return Err(Fault::AddressOutOfBounds);
                }
                let mut k: usize = 0;
                while k < x as usize + 1
                    invariant
                        old(self).wf(),
                        self.wf(),
                        k <= x as usize + 1,
                        x < 16,
                        base == old(self)@.i as int,
                        base + x as usize + 1 <= MEMORY_SIZE,
                        self.display == old(self).display,
                        self.keys == old(self).keys,
                        self.stack == old(self).stack,
                        self.v == old(self).v,
                        self.sp == old(self).sp,
                        self.i == old(self).i,
                        self.dt == old(self).dt,
                        self.pc == old(self).pc,
                        forall|idx: int|
                            0 <= idx < MEMORY_SIZE ==> self.memory@[idx] == (if base <= idx < base
                                + k {
                                old(self)@.v[idx - base]
                            } else {
                                old(self)@.mem[idx]
                            }),
                    decreases x as usize + 1 - k,
                {
                    self.memory[base + k] = self.v[k];
                    k += 1;
                }
                proof {
                    assert(self@.mem =~= dump_mem(
                        old(self)@.mem,
                        old(self)@.v,
                        old(self)@.i as int,
                        x as int,
                    ));
                }
                self.pc = next;
            },
            Instr::LoadR(x) => {
                let base = self.i as usize;
                if base + x as usize + 1 > MEMORY_SIZE {
                    return Err(Fault::AddressOutOfBounds);
                }
                let mut k: usize = 0;
                while k < x as usize + 1
                    invariant
                        old(self).wf(),
                        self.wf(),
                        k <= x as usize + 1,
                        x < 16,
                        base == old(self)@.i as int,
                        base + x as usize + 1 <= MEMORY_SIZE,
                        self.display == old(self).display,
                        self.keys == old(self).keys,
                        self.stack == old(self).stack,
                        self.memory == old(self).memory,
                        self.sp == old(self).sp,
                        self.i == old(self).i,
                        self.dt == old(self).dt,
                        self.pc == old(self).pc,
                        forall|idx: int|
                            0 <= idx < REGISTERS_SIZE ==> self.v@[idx] == (if 0 <= idx < k {
                                old(self)@.mem[base + idx]
                            } else {
                                old(self)@.v[idx]
                            }),
                    decreases x as usize + 1 - k,
                {
                    let b = self.memory[base + k];
                    self.v[k] = b;
                    k += 1;
                }
                proof {
                    assert(self@.v =~= load_regs(
                        old(self)@.mem,
                        old(self)@.v,
                        old(self)@.i as int,
                        x as int,
                    ));
                }
                self.pc = next;
            },
            Instr::Nop => {
                self.pc = next;
            },
        }
        proof {
            let s = step(old(self)@, rand);
            assert(s is Ok);
            assert(self@ =~= s->Ok_0);
        }
        Ok(())
    }

    /// Executes exactly one instruction, drawing the random instruction's
    /// byte from the thread-local generator.
    pub fn execute(&mut self) -> (r: Result<(), Fault>)
        requires
            old(self).wf(),
        ensures
            final(self).wf(),
            exists|b: u8| step_outcome(old(self)@, final(self)@, b, r),
    {
        let b = random_byte();
        self.execute_with_rand(b)
    }
}

/// Law: dumping registers 0..=x to memory and loading the same range back
/// restores exactly the register file, for every register count.
pub proof fn lemma_dump_load_round_trip(mem: Seq<u8>, v: Seq<u8>, base: int, x: int)
    requires
        mem.len() == MEMORY_SIZE,
        v.len() == REGISTERS_SIZE,
        0 <= x < REGISTERS_SIZE,
        0 <= base,
        base + x + 1 <= MEMORY_SIZE,
    ensures
        load_regs(dump_mem(mem, v, base, x), v, base, x) == v,
{
    assert(load_regs(dump_mem(mem, v, base, x), v, base, x) =~= v);
}

/// Law: a call followed by a return leaves the program counter right after
/// the call instruction, with the stack pointer, registers, memory and
/// display as they were before the call.
pub proof fn lemma_call_return_round_trip(pre: CpuState, nnn: u16, b1: u8, b2: u8)
    requires
        pre.stack.len() == STACK_SIZE,
        pre.sp < STACK_SIZE,
        pre.pc < MEMORY_SIZE - 1,
        spec_decode(fetch(pre.mem, pre.pc)) == Instr::Call(nnn),
        nnn < MEMORY_SIZE - 1,
        spec_decode(fetch(pre.mem, nnn)) == Instr::Ret,
    ensures
        step(pre, b1) is Ok,
        step(step(pre, b1)->Ok_0, b2) is Ok,
        ({
            let s2 = step(step(pre, b1)->Ok_0, b2)->Ok_0;
            &&& s2.pc == pre.pc + 2
            &&& s2.sp == pre.sp
            &&& s2.v == pre.v
            &&& s2.mem == pre.mem
            &&& s2.disp == pre.disp
        }),
{
}

/// Law: the key-wait instruction stalls: while no key is pressed, a step
/// leaves the machine exactly as it was; once keys are present, a single
/// step writes the first key into the register and advances the program
/// counter by two.
pub proof fn lemma_key_wait(pre: CpuState, x: u8, b: u8)
    requires
        pre.pc < MEMORY_SIZE - 1,
        spec_decode(fetch(pre.mem, pre.pc)) == Instr::LdKey(x),
    ensures
        pre.keys.len() == 0 ==> step(pre, b) == Ok::<CpuState, Fault>(pre),
        pre.keys.len() > 0 ==> step(pre, b) == Ok::<CpuState, Fault>(
            CpuState { v: pre.v.update(x as int, pre.keys[0]), pc: (pre.pc + 2) as u16, ..pre },
        ),
{
}

/// A vector of `n` zero bytes.
fn zeroed_bytes(n: usize) -> (r: Vec<u8>)
    ensures
        r@ == Seq::new(n as nat, |k: int| 0u8),
{
    let mut r: Vec<u8> = Vec::new();
    let mut k: usize = 0;
    while k < n
        invariant
            k <= n,
            r@.len() == k,
            forall|j: int| 0 <= j < k ==> r@[j] == 0u8,
        decreases n - k,
    {
        r.push(0);
        k += 1;
    }
    proof {
        assert(r@ =~= Seq::new(n as nat, |k: int| 0u8));
    }
    r
}

/// A vector of `n` zero 16-bit words.
fn zeroed_words(n: usize) -> (r: Vec<u16>)
    ensures
        r@ == Seq::new(n as nat, |k: int| 0u16),
{
    let mut r: Vec<u16> = Vec::new();
    let mut k: usize = 0;
    while k < n
        invariant
            k <= n,
            r@.len() == k,
            forall|j: int| 0 <= j < k ==> r@[j] == 0u16,
        decreases n - k,
    {
        r.push(0);
        k += 1;
    }
    proof {
        assert(r@ =~= Seq::new(n as nat, |k: int| 0u16));
    }
    r
}

/// Whether the byte vector contains the given value.
fn contains_byte(keys: &Vec<u8>, val: u8) -> (r: bool)
    ensures
        r == keys@.contains(val),
{
    let mut k: usize = 0;
    let mut found = false;
    while k < keys.len()
        invariant
            k <= keys@.len(),
            found == exists|j: int| 0 <= j < k && keys@[j] == val,
        decreases keys@.len() - k,
    {
        if keys[k] == val {
            found = true;
        }
        k += 1;
    }
    found
}

} // verus!
