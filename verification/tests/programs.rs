use chip8::cpu::Chip8;
use chip8::cpu::Fault;

#[test]
fn timers_saturate_at_zero_over_cycles() {
    let mut c = Chip8::new();
    // V0 := 5; delay := V0; V0 := 3; sound := V0; then spin at 0x208
    let image = vec![0x60, 0x05, 0xF0, 0x15, 0x60, 0x03, 0xF0, 0x18, 0x12, 0x08];
    c.load(&image).unwrap();
    // first cycle runs the four set-up instructions, then decrements
    c.cycle().unwrap();
    assert_eq!(c.delay(), 4);
    assert_eq!(c.sound(), 2);
    for _ in 0..4 {
        c.cycle().unwrap();
    }
    // delay counted 5, 4, 3, 2, 1, 0; sound saturated at 0 two cycles early
    assert_eq!(c.delay(), 0);
    assert_eq!(c.sound(), 0);
    c.cycle().unwrap();
    assert_eq!(c.delay(), 0);
    assert_eq!(c.sound(), 0);
}

#[test]
fn timer_decrements_once_per_cycle_not_per_instruction() {
    let mut c = Chip8::new();
    // V0 := 200; delay := V0; then spin
    let image = vec![0x60, 0xC8, 0xF0, 0x15, 0x12, 0x04];
    c.load(&image).unwrap();
    c.cycle().unwrap();
    // ten instructions ran, but the timer dropped by exactly one
    assert_eq!(c.delay(), 199);
}

#[test]
fn clear_and_jump_program_stays_dark() {
    let mut c = Chip8::new();
    // 00E0: clear screen; 1200: jump back to 0x200
    let image = vec![0x00, 0xE0, 0x12, 0x00];
    c.load(&image).unwrap();
    for _ in 0..10 {
        c.cycle().unwrap();
        // each cycle ends on a jump: the counter is back at the origin
        assert_eq!(c.program_counter(), 0x200);
        for k in 0..2048 {
            assert_eq!(c.video.get_pixel(k), 0);
        }
    }
}

#[test]
fn skip_scenario_with_v0() {
    let mut c = Chip8::new();
    c.execute_with(0x6010, 0).unwrap();  // V0 := 0x10
    let before = c.program_counter();
    c.execute_with(0x3010, 0).unwrap();
    assert_eq!(c.program_counter(), before + 4);

    let mut c = Chip8::new();
    c.execute_with(0x6011, 0).unwrap();  // V0 := 0x11
    let before = c.program_counter();
    c.execute_with(0x3010, 0).unwrap();
    assert_eq!(c.program_counter(), before + 2);
}

#[test]
fn cycle_halts_on_fault_and_reports_it() {
    let mut c = Chip8::new();
    // nothing loaded: the word at 0x200 is 0x0000, a decode error
    assert_eq!(
        c.cycle(),
        Err(Fault::UnknownOpcode { word: 0x0000, pc: 0x200 })
    );
    // the fault left the timers alone
    assert_eq!(c.delay(), 0);
    assert_eq!(c.sound(), 0);
}

#[test]
fn cycle_runs_ten_instructions() {
    let mut c = Chip8::new();
    // a straight run of ten V0 := n loads, then a spin
    let image = vec![
        0x60, 0x01, 0x60, 0x02, 0x60, 0x03, 0x60, 0x04, 0x60, 0x05, 0x60, 0x06, 0x60, 0x07, 0x60,
        0x08, 0x60, 0x09, 0x60, 0x0A, 0x12, 0x14,
    ];
    c.load(&image).unwrap();
    c.cycle().unwrap();
    assert_eq!(c.register(0), 0x0A);  // exactly the first ten ran
    assert_eq!(c.program_counter(), 0x214);
}

#[test]
fn step_with_advances_one_instruction() {
    let mut c = Chip8::new();
    let image = vec![0x60, 0x2A, 0x12, 0x00];
    c.load(&image).unwrap();
    c.step_with(0).unwrap();
    assert_eq!(c.register(0), 0x2A);
    assert_eq!(c.program_counter(), 0x202);
    c.step_with(0).unwrap();
    assert_eq!(c.program_counter(), 0x200);
}

#[test]
fn step_at_memory_end_is_fatal() {
    let mut c = Chip8::new();
    c.execute_with(0x1FFF, 0).unwrap();  // jump to 0xFFF: no room to fetch
    assert_eq!(c.step_with(0), Err(Fault::MemoryBound { pc: 0xFFF }));
}
