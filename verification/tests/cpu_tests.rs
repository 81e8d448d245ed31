use chip8::cpu::{CPU, Fault, Instr, decode};
use chip8::display::sprites;

fn put_op(cpu: &mut CPU, addr: usize, op: u16) {
    cpu.memory[addr] = (op >> 8) as u8;
    cpu.memory[addr + 1] = (op & 0xFF) as u8;
}

fn fresh(op: u16) -> CPU {
    let mut cpu = CPU::new();
    cpu.pc = 0x200;
    put_op(&mut cpu, 0x200, op);
    cpu
}

#[test]
fn decode_samples() {
    assert_eq!(decode(0x00E0), Instr::Cls);
    assert_eq!(decode(0x00EE), Instr::Ret);
    assert_eq!(decode(0x1ABC), Instr::Jp(0xABC));
    assert_eq!(decode(0x2ABC), Instr::Call(0xABC));
    assert_eq!(decode(0x3A12), Instr::SeByte(0xA, 0x12));
    assert_eq!(decode(0x4A12), Instr::SneByte(0xA, 0x12));
    assert_eq!(decode(0x5AB0), Instr::SeReg(0xA, 0xB));
    assert_eq!(decode(0x6A12), Instr::LdByte(0xA, 0x12));
    assert_eq!(decode(0x7A12), Instr::AddByte(0xA, 0x12));
    assert_eq!(decode(0x8AB0), Instr::LdReg(0xA, 0xB));
    assert_eq!(decode(0x8AB1), Instr::Or(0xA, 0xB));
    assert_eq!(decode(0x8AB2), Instr::And(0xA, 0xB));
    assert_eq!(decode(0x8AB3), Instr::Xor(0xA, 0xB));
    assert_eq!(decode(0x8AB4), Instr::AddReg(0xA, 0xB));
    assert_eq!(decode(0x8AB5), Instr::SubReg(0xA, 0xB));
    assert_eq!(decode(0x8AB6), Instr::Shr(0xA));
    assert_eq!(decode(0x8AB7), Instr::SubnReg(0xA, 0xB));
    assert_eq!(decode(0x8ABE), Instr::Shl(0xA));
    assert_eq!(decode(0x9AB0), Instr::SneReg(0xA, 0xB));
    assert_eq!(decode(0xAABC), Instr::LdI(0xABC));
    assert_eq!(decode(0xBABC), Instr::JpV0(0xABC));
    assert_eq!(decode(0xCA12), Instr::Rnd(0xA, 0x12));
    assert_eq!(decode(0xDAB5), Instr::Drw(0xA, 0xB, 5));
    assert_eq!(decode(0xEA9E), Instr::Skp(0xA));
    assert_eq!(decode(0xEAA1), Instr::Sknp(0xA));
    assert_eq!(decode(0xFA07), Instr::LdVxDt(0xA));
    assert_eq!(decode(0xFA0A), Instr::LdKey(0xA));
    assert_eq!(decode(0xFA15), Instr::LdDtVx(0xA));
    assert_eq!(decode(0xFA18), Instr::LdSt(0xA));
    assert_eq!(decode(0xFA1E), Instr::AddI(0xA));
    assert_eq!(decode(0xFA29), Instr::LdF(0xA));
    assert_eq!(decode(0xFA33), Instr::Bcd(0xA));
    assert_eq!(decode(0xFA55), Instr::Dump(0xA));
    assert_eq!(decode(0xFA65), Instr::LoadR(0xA));
    // unrecognized encodings decode to the explicit no-op
    assert_eq!(decode(0x0123), Instr::Nop);
    assert_eq!(decode(0x5AB1), Instr::Nop);
    assert_eq!(decode(0x8AB8), Instr::Nop);
    assert_eq!(decode(0xFAFF), Instr::Nop);
}

#[test]
fn new_cpu_is_zeroed() {
    let cpu = CPU::new();
    assert!(cpu.memory.iter().all(|&b| b == 0));
    assert!(cpu.v.iter().all(|&b| b == 0));
    assert!(cpu.stack.iter().all(|&w| w == 0));
    assert!(cpu.keys.is_empty());
    assert_eq!(cpu.sp, 0);
    assert_eq!(cpu.i, 0);
    assert_eq!(cpu.dt, 0);
    assert_eq!(cpu.pc, 0);
}

#[test]
fn load_program_copies_at_offset() {
    let mut cpu = CPU::new();
    cpu.load_program(&[1, 2, 3]);
    assert_eq!(cpu.memory[0x200], 1);
    assert_eq!(cpu.memory[0x201], 2);
    assert_eq!(cpu.memory[0x202], 3);
    assert_eq!(cpu.memory[0x1FF], 0);
    assert_eq!(cpu.memory[0x203], 0);
}

#[test]
fn reset_restores_canonical_state() {
    let mut cpu = CPU::new();
    cpu.v[3] = 9;
    cpu.sp = 4;
    cpu.stack[0] = 0x333;
    cpu.i = 77;
    cpu.dt = 12;
    cpu.pc = 0x400;
    cpu.memory[100] = 0xAA;
    cpu.display.set_pixel(1, 1, true);
    cpu.keys = vec![3];
    cpu.reset();
    let glyphs = sprites();
    for k in 0..80 {
        assert_eq!(cpu.memory[k], glyphs[k]);
    }
    for k in 80..4096 {
        assert_eq!(cpu.memory[k], 0);
    }
    assert!(!cpu.display.get_pixel(1, 1));
    assert!(cpu.v.iter().all(|&b| b == 0));
    assert!(cpu.stack.iter().all(|&w| w == 0));
    assert_eq!(cpu.sp, 0);
    assert_eq!(cpu.i, 0);
    assert_eq!(cpu.dt, 0);
    assert_eq!(cpu.pc, 0);
    // the key set the host supplied is kept
    assert_eq!(cpu.keys, vec![3]);
}

#[test]
fn run_timers_floors_at_zero() {
    let mut cpu = CPU::new();
    cpu.dt = 2;
    cpu.run_timers();
    assert_eq!(cpu.dt, 1);
    cpu.run_timers();
    assert_eq!(cpu.dt, 0);
    cpu.run_timers();
    assert_eq!(cpu.dt, 0);
}

#[test]
fn add_registers_overflow_sets_flag() {
    let mut cpu = fresh(0x8514);
    cpu.v[5] = 250;
    cpu.v[1] = 10;
    assert_eq!(cpu.execute_with_rand(0), Ok(()));
    assert_eq!(cpu.v[5], 4);
    assert_eq!(cpu.v[15], 1);
    assert_eq!(cpu.pc, 0x202);
}

#[test]
fn add_registers_without_overflow_clears_flag() {
    let mut cpu = fresh(0x8514);
    cpu.v[5] = 20;
    cpu.v[1] = 30;
    cpu.v[15] = 1;
    assert_eq!(cpu.execute_with_rand(0), Ok(()));
    assert_eq!(cpu.v[5], 50);
    assert_eq!(cpu.v[15], 0);
}

#[test]
fn sub_registers_borrow_conventions() {
    let mut cpu = fresh(0x8015);
    cpu.v[0] = 5;
    cpu.v[1] = 10;
    assert_eq!(cpu.execute_with_rand(0), Ok(()));
    assert_eq!(cpu.v[0], 251);
    assert_eq!(cpu.v[15], 0);

    let mut cpu = fresh(0x8015);
    cpu.v[0] = 10;
    cpu.v[1] = 5;
    assert_eq!(cpu.execute_with_rand(0), Ok(()));
    assert_eq!(cpu.v[0], 5);
    assert_eq!(cpu.v[15], 1);
}

#[test]
fn subn_registers_reverse_operands() {
    let mut cpu = fresh(0x8017);
    cpu.v[0] = 10;
    cpu.v[1] = 3;
    assert_eq!(cpu.execute_with_rand(0), Ok(()));
    // y - x = 3 - 10 wraps, borrow occurred
    assert_eq!(cpu.v[0], 249);
    assert_eq!(cpu.v[15], 0);
}

#[test]
fn shift_right_keeps_low_bit_in_flags() {
    let mut cpu = fresh(0x8206);
    cpu.v[2] = 5;
    assert_eq!(cpu.execute_with_rand(0), Ok(()));
    assert_eq!(cpu.v[2], 2);
    assert_eq!(cpu.v[15], 1);
}

#[test]
fn shift_left_flags_not_normalized() {
    let mut cpu = fresh(0x820E);
    cpu.v[2] = 0x90;
    assert_eq!(cpu.execute_with_rand(0), Ok(()));
    // the flags register holds the masked bit pattern, not 0 or 1
    assert_eq!(cpu.v[15], 0x80);
    assert_eq!(cpu.v[2], 0x20);

    let mut cpu = fresh(0x820E);
    cpu.v[2] = 0x41;
    assert_eq!(cpu.execute_with_rand(0), Ok(()));
    assert_eq!(cpu.v[15], 0);
    assert_eq!(cpu.v[2], 0x82);
}

#[test]
fn bitwise_and_immediate_ops() {
    let mut cpu = fresh(0x6A12);
    assert_eq!(cpu.execute_with_rand(0), Ok(()));
    assert_eq!(cpu.v[0xA], 0x12);

    let mut cpu = fresh(0x7AFF);
    cpu.v[0xA] = 2;
    assert_eq!(cpu.execute_with_rand(0), Ok(()));
    // add immediate wraps and leaves the flags register alone
    assert_eq!(cpu.v[0xA], 1);
    assert_eq!(cpu.v[15], 0);

    let mut cpu = fresh(0x8AB1);
    cpu.v[0xA] = 0b1100;
    cpu.v[0xB] = 0b1010;
    assert_eq!(cpu.execute_with_rand(0), Ok(()));
    assert_eq!(cpu.v[0xA], 0b1110);

    let mut cpu = fresh(0x8AB2);
    cpu.v[0xA] = 0b1100;
    cpu.v[0xB] = 0b1010;
    assert_eq!(cpu.execute_with_rand(0), Ok(()));
    assert_eq!(cpu.v[0xA], 0b1000);

    let mut cpu = fresh(0x8AB3);
    cpu.v[0xA] = 0b1100;
    cpu.v[0xB] = 0b1010;
    assert_eq!(cpu.execute_with_rand(0), Ok(()));
    assert_eq!(cpu.v[0xA], 0b0110);
}

#[test]
fn skips_and_jumps() {
    let mut cpu = fresh(0x3A12);
    cpu.v[0xA] = 0x12;
    assert_eq!(cpu.execute_with_rand(0), Ok(()));
    assert_eq!(cpu.pc, 0x204);

    let mut cpu = fresh(0x3A12);
    cpu.v[0xA] = 0x13;
    assert_eq!(cpu.execute_with_rand(0), Ok(()));
    assert_eq!(cpu.pc, 0x202);

    let mut cpu = fresh(0x4A12);
    cpu.v[0xA] = 0x13;
    assert_eq!(cpu.execute_with_rand(0), Ok(()));
    assert_eq!(cpu.pc, 0x204);

    let mut cpu = fresh(0x5AB0);
    cpu.v[0xA] = 7;
    cpu.v[0xB] = 7;
    assert_eq!(cpu.execute_with_rand(0), Ok(()));
    assert_eq!(cpu.pc, 0x204);

    let mut cpu = fresh(0x9AB0);
    cpu.v[0xA] = 7;
    cpu.v[0xB] = 8;
    assert_eq!(cpu.execute_with_rand(0), Ok(()));
    assert_eq!(cpu.pc, 0x204);

    let mut cpu = fresh(0x1ABC);
    assert_eq!(cpu.execute_with_rand(0), Ok(()));
    assert_eq!(cpu.pc, 0xABC);

    let mut cpu = fresh(0xB300);
    cpu.v[0] = 4;
    assert_eq!(cpu.execute_with_rand(0), Ok(()));
    assert_eq!(cpu.pc, 0x304);
}

#[test]
fn index_register_ops() {
    let mut cpu = fresh(0xAABC);
    assert_eq!(cpu.execute_with_rand(0), Ok(()));
    assert_eq!(cpu.i, 0xABC);

    let mut cpu = fresh(0xF31E);
    cpu.i = 100;
    cpu.v[3] = 55;
    assert_eq!(cpu.execute_with_rand(0), Ok(()));
    assert_eq!(cpu.i, 155);

    // add to index wraps around 16 bits
    let mut cpu = fresh(0xF31E);
    cpu.i = 0xFFFF;
    cpu.v[3] = 2;
    assert_eq!(cpu.execute_with_rand(0), Ok(()));
    assert_eq!(cpu.i, 1);

    let mut cpu = fresh(0xF329);
    cpu.v[3] = 0xA;
    assert_eq!(cpu.execute_with_rand(0), Ok(()));
    assert_eq!(cpu.i, 50);
}

#[test]
fn timer_loads() {
    let mut cpu = fresh(0xF507);
    cpu.dt = 42;
    assert_eq!(cpu.execute_with_rand(0), Ok(()));
    assert_eq!(cpu.v[5], 42);

    let mut cpu = fresh(0xF515);
    cpu.v[5] = 99;
    assert_eq!(cpu.execute_with_rand(0), Ok(()));
    assert_eq!(cpu.dt, 99);

    // sound timer load is accepted with no observable effect
    let mut cpu = fresh(0xF518);
    cpu.v[5] = 99;
    assert_eq!(cpu.execute_with_rand(0), Ok(()));
    assert_eq!(cpu.pc, 0x202);
    assert_eq!(cpu.dt, 0);
}

#[test]
fn random_is_masked() {
    let mut cpu = fresh(0xC5FF);
    assert_eq!(cpu.execute_with_rand(0xAB), Ok(()));
    assert_eq!(cpu.v[5], 0xAB);

    let mut cpu = fresh(0xC50F);
    assert_eq!(cpu.execute_with_rand(0xAB), Ok(()));
    assert_eq!(cpu.v[5], 0x0B);

    // through the real generator the mask still bounds the value
    let mut cpu = fresh(0xC500);
    assert_eq!(cpu.execute(), Ok(()));
    assert_eq!(cpu.v[5], 0);
    let mut cpu = fresh(0xC50F);
    assert_eq!(cpu.execute(), Ok(()));
    assert!(cpu.v[5] <= 0x0F);
}

#[test]
fn bcd_store_writes_digits() {
    let mut cpu = fresh(0xF333);
    cpu.v[3] = 234;
    cpu.i = 0x300;
    assert_eq!(cpu.execute_with_rand(0), Ok(()));
    assert_eq!(&cpu.memory[0x300..0x303], &[2, 3, 4]);

    let mut cpu = fresh(0xF333);
    cpu.v[3] = 7;
    cpu.i = 0x300;
    assert_eq!(cpu.execute_with_rand(0), Ok(()));
    assert_eq!(&cpu.memory[0x300..0x303], &[0, 0, 7]);
}

#[test]
fn dump_then_load_round_trip() {
    for x in 0..16usize {
        let mut cpu = CPU::new();
        cpu.pc = 0x200;
        put_op(&mut cpu, 0x200, 0xF055 | ((x as u16) << 8));
        put_op(&mut cpu, 0x202, 0xF065 | ((x as u16) << 8));
        for r in 0..16 {
            cpu.v[r] = (10 + r) as u8;
        }
        cpu.i = 0x400;
        assert_eq!(cpu.execute_with_rand(0), Ok(()));
        for r in 0..=x {
            assert_eq!(cpu.memory[0x400 + r], (10 + r) as u8);
        }
        // scramble the registers, then load the same range back
        for r in 0..16 {
            cpu.v[r] = 0xEE;
        }
        assert_eq!(cpu.execute_with_rand(0), Ok(()));
        for r in 0..=x {
            assert_eq!(cpu.v[r], (10 + r) as u8);
        }
        for r in (x + 1)..16 {
            assert_eq!(cpu.v[r], 0xEE);
        }
    }
}

#[test]
fn call_then_return_round_trip() {
    let mut cpu = fresh(0x2300);
    put_op(&mut cpu, 0x300, 0x00EE);
    assert_eq!(cpu.execute_with_rand(0), Ok(()));
    assert_eq!(cpu.pc, 0x300);
    assert_eq!(cpu.sp, 1);
    assert_eq!(cpu.stack[0], 0x202);
    assert_eq!(cpu.execute_with_rand(0), Ok(()));
    // pc is back at the instruction after the call
    assert_eq!(cpu.pc, 0x202);
    assert_eq!(cpu.sp, 0);
}

#[test]
fn key_wait_stalls_until_key() {
    let mut cpu = fresh(0xF50A);
    assert_eq!(cpu.execute_with_rand(0), Ok(()));
    assert_eq!(cpu.pc, 0x200);
    assert_eq!(cpu.v[5], 0);
    assert_eq!(cpu.execute_with_rand(0), Ok(()));
    assert_eq!(cpu.pc, 0x200);
    assert_eq!(cpu.v[5], 0);
    cpu.keys = vec![7, 2];
    assert_eq!(cpu.execute_with_rand(0), Ok(()));
    assert_eq!(cpu.pc, 0x202);
    assert_eq!(cpu.v[5], 7);
}

#[test]
fn key_skips() {
    let mut cpu = fresh(0xE59E);
    cpu.v[5] = 4;
    cpu.keys = vec![4];
    assert_eq!(cpu.execute_with_rand(0), Ok(()));
    assert_eq!(cpu.pc, 0x204);

    let mut cpu = fresh(0xE59E);
    cpu.v[5] = 4;
    cpu.keys = vec![3];
    assert_eq!(cpu.execute_with_rand(0), Ok(()));
    assert_eq!(cpu.pc, 0x202);

    let mut cpu = fresh(0xE5A1);
    cpu.v[5] = 4;
    assert_eq!(cpu.execute_with_rand(0), Ok(()));
    assert_eq!(cpu.pc, 0x204);

    let mut cpu = fresh(0xE5A1);
    cpu.v[5] = 4;
    cpu.keys = vec![4];
    assert_eq!(cpu.execute_with_rand(0), Ok(()));
    assert_eq!(cpu.pc, 0x202);
}

#[test]
fn draw_instruction_draws_and_flags_collision() {
    let mut cpu = fresh(0xD125);
    put_op(&mut cpu, 0x202, 0xD125);
    cpu.memory[0x600] = 0xF0;
    cpu.memory[0x601] = 0x90;
    cpu.memory[0x602] = 0x90;
    cpu.memory[0x603] = 0x90;
    cpu.memory[0x604] = 0xF0;
    cpu.i = 0x600;
    cpu.v[1] = 10;
    cpu.v[2] = 5;
    assert_eq!(cpu.execute_with_rand(0), Ok(()));
    assert_eq!(cpu.v[15], 0);
    assert!(cpu.display.get_pixel(10, 5));
    assert!(cpu.display.get_pixel(13, 5));
    assert!(!cpu.display.get_pixel(14, 5));
    assert!(cpu.display.get_pixel(10, 6));
    assert!(!cpu.display.get_pixel(11, 6));
    // the identical draw erases everything and reports the collision
    assert_eq!(cpu.execute_with_rand(0), Ok(()));
    assert_eq!(cpu.v[15], 1);
    for x in 0..64 {
        for y in 0..32 {
            assert!(!cpu.display.get_pixel(x, y));
        }
    }
}

#[test]
fn unknown_opcode_is_a_noop() {
    let mut cpu = fresh(0x0123);
    cpu.v[4] = 9;
    assert_eq!(cpu.execute_with_rand(0), Ok(()));
    assert_eq!(cpu.pc, 0x202);
    assert_eq!(cpu.v[4], 9);
}

#[test]
fn return_with_empty_stack_faults() {
    let mut cpu = fresh(0x00EE);
    assert_eq!(cpu.execute_with_rand(0), Err(Fault::StackUnderflow));
    // the machine is left untouched
    assert_eq!(cpu.pc, 0x200);
    assert_eq!(cpu.sp, 0);
}

#[test]
fn call_with_full_stack_faults() {
    let mut cpu = fresh(0x2300);
    cpu.sp = 16;
    assert_eq!(cpu.execute_with_rand(0), Err(Fault::StackOverflow));
    assert_eq!(cpu.pc, 0x200);
    assert_eq!(cpu.sp, 16);
}

#[test]
fn program_counter_out_of_bounds_faults() {
    let mut cpu = CPU::new();
    cpu.pc = 4095;
    assert_eq!(cpu.execute_with_rand(0), Err(Fault::PcOutOfBounds));
    assert_eq!(cpu.pc, 4095);
}

#[test]
fn draw_past_end_of_memory_faults() {
    let mut cpu = fresh(0xD125);
    cpu.i = 4094;
    assert_eq!(cpu.execute_with_rand(0), Err(Fault::AddressOutOfBounds));
    assert_eq!(cpu.pc, 0x200);
}

#[test]
fn bcd_past_end_of_memory_faults() {
    let mut cpu = fresh(0xF333);
    cpu.i = 4094;
    assert_eq!(cpu.execute_with_rand(0), Err(Fault::AddressOutOfBounds));
}

#[test]
fn dump_and_load_past_end_of_memory_fault() {
    let mut cpu = fresh(0xFF55);
    cpu.i = 4081;
    assert_eq!(cpu.execute_with_rand(0), Err(Fault::AddressOutOfBounds));

    let mut cpu = fresh(0xFF65);
    cpu.i = 4081;
    assert_eq!(cpu.execute_with_rand(0), Err(Fault::AddressOutOfBounds));

    // one address lower fits exactly
    let mut cpu = fresh(0xFF55);
    cpu.i = 4080;
    assert_eq!(cpu.execute_with_rand(0), Ok(()));
}
