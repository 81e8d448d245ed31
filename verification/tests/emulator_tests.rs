use chip8::consts::{WIDTH, HEIGHT, WHITE_PIXEL, BLACK_PIXEL};
use chip8::emulator::Emulator;

#[test]
fn run_ages_timer_then_executes() {
    let mut e = Emulator::new();
    e.cpu.dt = 3;
    e.cpu.pc = 0x200;
    // load immediate 0x42 into register 6
    e.cpu.memory[0x200] = 0x66;
    e.cpu.memory[0x201] = 0x42;
    assert_eq!(e.run(), Ok(()));
    assert_eq!(e.cpu.dt, 2);
    assert_eq!(e.cpu.v[6], 0x42);
    assert_eq!(e.cpu.pc, 0x202);
}

#[test]
fn execute_leaves_timer_alone() {
    let mut e = Emulator::new();
    e.cpu.dt = 3;
    e.cpu.pc = 0x200;
    e.cpu.memory[0x200] = 0x66;
    e.cpu.memory[0x201] = 0x42;
    assert_eq!(e.execute(), Ok(()));
    assert_eq!(e.cpu.dt, 3);
    assert_eq!(e.cpu.v[6], 0x42);
}

#[test]
fn set_keys_replaces_the_set_wholesale() {
    let mut e = Emulator::new();
    e.set_keys(vec![1, 2, 3]);
    assert_eq!(e.cpu.keys, vec![1, 2, 3]);
    e.set_keys(vec![0xC]);
    assert_eq!(e.cpu.keys, vec![0xC]);
    e.set_keys(vec![]);
    assert!(e.cpu.keys.is_empty());
}

#[test]
fn load_program_and_reset() {
    let mut e = Emulator::new();
    e.reset();
    e.load_program(&[0x00, 0xE0]);
    assert_eq!(e.cpu.memory[0x200], 0x00);
    assert_eq!(e.cpu.memory[0x201], 0xE0);
    // reset keeps the glyph table in low memory
    assert_eq!(e.cpu.memory[0], 0xF0);
    e.reset();
    assert_eq!(e.cpu.memory[0x200], 0);
}

#[test]
fn display_buffer_tracks_pixels() {
    let mut e = Emulator::new();
    {
        let buf = e.get_display_buffer();
        assert_eq!(buf.len(), WIDTH * HEIGHT);
        assert!(buf.iter().all(|&c| c == BLACK_PIXEL));
    }
    // draw one 8-bit row at the origin: 0xFF at (0, 0)
    e.cpu.pc = 0x200;
    e.cpu.memory[0x200] = 0xD0;
    e.cpu.memory[0x201] = 0x11;
    e.cpu.memory[0x300] = 0xFF;
    e.cpu.i = 0x300;
    assert_eq!(e.execute(), Ok(()));
    let buf = e.get_display_buffer();
    for x in 0..8 {
        assert_eq!(buf[x], WHITE_PIXEL);
    }
    assert_eq!(buf[8], BLACK_PIXEL);
}

#[test]
fn largest_program_is_accepted() {
    let mut e = Emulator::new();
    let rom = vec![0xAB; 4096 - 0x200];
    e.load_program(&rom);
    assert_eq!(e.cpu.memory[0x200], 0xAB);
    assert_eq!(e.cpu.memory[4095], 0xAB);
    assert_eq!(e.cpu.memory[0x1FF], 0);
}
