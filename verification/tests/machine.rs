use chip8::cpu::Chip8;
use chip8::cpu::Fault;

#[test]
fn new_machine_initial_state() {
    let c = Chip8::new();
    assert_eq!(c.program_counter(), 0x200);
    assert_eq!(c.index_register(), 0);
    assert_eq!(c.stack_depth(), 0);
    assert_eq!(c.delay(), 0);
    assert_eq!(c.sound(), 0);
    for x in 0..16u8 {
        assert_eq!(c.register(x), 0);
    }
}

#[test]
fn font_resides_in_low_memory() {
    let c = Chip8::new();
    assert_eq!(c.memory_at(0), 0xF0);
    assert_eq!(c.memory_at(4), 0xF0);
    assert_eq!(c.memory_at(5), 0x20);
    assert_eq!(c.memory_at(79), 0x80);
    assert_eq!(c.memory_at(80), 0x00);
    assert_eq!(c.memory_at(0xFFF), 0x00);
}

#[test]
fn load_writes_image_at_origin() {
    let mut c = Chip8::new();
    let image = vec![0xAB, 0xCD, 0xEF];
    assert!(c.load(&image).is_ok());
    assert_eq!(c.memory_at(0x200), 0xAB);
    assert_eq!(c.memory_at(0x201), 0xCD);
    assert_eq!(c.memory_at(0x202), 0xEF);
    assert_eq!(c.memory_at(0x203), 0x00);
}

#[test]
fn load_rejects_oversize_image() {
    let mut c = Chip8::new();
    let image = vec![0u8; 3585];
    assert_eq!(c.load(&image), Err(Fault::OversizeImage { len: 3585 }));
    // the machine is untouched
    assert_eq!(c.memory_at(0x200), 0);
    let exact = vec![7u8; 3584];
    assert!(c.load(&exact).is_ok());
    assert_eq!(c.memory_at(0xFFF), 7);
}

#[test]
fn fetch_combines_big_endian() {
    let mut c = Chip8::new();
    c.load(&vec![0xAB, 0xCD]).unwrap();
    assert_eq!(c.fetch(), 0xABCD);
}

#[test]
fn unknown_opcode_is_fatal() {
    let mut c = Chip8::new();
    assert_eq!(
        c.execute_with(0xF0FF, 0),
        Err(Fault::UnknownOpcode { word: 0xF0FF, pc: 0x200 })
    );
    assert_eq!(
        c.execute_with(0x0123, 0),
        Err(Fault::UnknownOpcode { word: 0x0123, pc: 0x200 })
    );
    assert_eq!(
        c.execute_with(0x8008, 0),
        Err(Fault::UnknownOpcode { word: 0x8008, pc: 0x200 })
    );
    assert_eq!(
        c.execute_with(0xE000, 0),
        Err(Fault::UnknownOpcode { word: 0xE000, pc: 0x200 })
    );
    // the failed decode moved nothing
    assert_eq!(c.program_counter(), 0x200);
}

#[test]
fn return_on_empty_stack_is_fatal() {
    let mut c = Chip8::new();
    assert_eq!(c.execute_with(0x00EE, 0), Err(Fault::StackUnderflow { pc: 0x200 }));
}

#[test]
fn call_past_capacity_is_fatal() {
    let mut c = Chip8::new();
    for depth in 1..=16usize {
        assert!(c.execute_with(0x2200, 0).is_ok());
        assert_eq!(c.stack_depth(), depth);
    }
    assert_eq!(c.execute_with(0x2200, 0), Err(Fault::StackOverflow { pc: 0x200 }));
    assert_eq!(c.stack_depth(), 16);
}

#[test]
fn call_and_return_round_trip() {
    let mut c = Chip8::new();
    assert!(c.execute_with(0x2ABC, 0).is_ok());
    assert_eq!(c.program_counter(), 0xABC);
    assert_eq!(c.stack_depth(), 1);
    assert!(c.execute_with(0x00EE, 0).is_ok());
    assert_eq!(c.program_counter(), 0x202);
    assert_eq!(c.stack_depth(), 0);
}

#[test]
fn jump_sets_counter_exactly() {
    let mut c = Chip8::new();
    assert!(c.execute_with(0x1404, 0).is_ok());
    assert_eq!(c.program_counter(), 0x404);
}

#[test]
fn indexed_jump_adds_v0() {
    let mut c = Chip8::new();
    c.execute_with(0x6010, 0).unwrap();  // V0 := 0x10
    c.execute_with(0xB300, 0).unwrap();
    assert_eq!(c.program_counter(), 0x310);
}

#[test]
fn index_register_opcodes() {
    let mut c = Chip8::new();
    c.execute_with(0xA100, 0).unwrap();  // I := 0x100
    assert_eq!(c.index_register(), 0x100);
    c.execute_with(0x6005, 0).unwrap();  // V0 := 5
    c.execute_with(0xF01E, 0).unwrap();  // I += V0
    assert_eq!(c.index_register(), 0x105);
    c.execute_with(0x6007, 0).unwrap();  // V0 := 7
    c.execute_with(0xF029, 0).unwrap();  // I := glyph address of 7
    assert_eq!(c.index_register(), 35);
}

#[test]
fn bcd_decomposes_decimal_digits() {
    let mut c = Chip8::new();
    c.execute_with(0xA300, 0).unwrap();  // I := 0x300
    c.execute_with(0x60FE, 0).unwrap();  // V0 := 254
    c.execute_with(0xF033, 0).unwrap();
    assert_eq!(c.memory_at(0x300), 2);
    assert_eq!(c.memory_at(0x301), 5);
    assert_eq!(c.memory_at(0x302), 4);
}

#[test]
fn bcd_near_memory_end_is_fatal() {
    let mut c = Chip8::new();
    c.execute_with(0xAFFE, 0).unwrap();  // I := 0xFFE, so I + 2 leaves memory
    assert_eq!(c.execute_with(0xF033, 0), Err(Fault::MemoryBound { pc: 0x202 }));
}

#[test]
fn store_and_load_register_block() {
    let mut c = Chip8::new();
    c.execute_with(0x600A, 0).unwrap();  // V0 := 10
    c.execute_with(0x6114, 0).unwrap();  // V1 := 20
    c.execute_with(0x621E, 0).unwrap();  // V2 := 30
    c.execute_with(0xA400, 0).unwrap();  // I := 0x400
    c.execute_with(0xF255, 0).unwrap();  // store V0..=V2
    assert_eq!(c.memory_at(0x400), 10);
    assert_eq!(c.memory_at(0x401), 20);
    assert_eq!(c.memory_at(0x402), 30);
    assert_eq!(c.memory_at(0x403), 0);
    assert_eq!(c.index_register(), 0x400);
    c.execute_with(0x6000, 0).unwrap();  // V0 := 0
    c.execute_with(0x6100, 0).unwrap();  // V1 := 0
    c.execute_with(0xF165, 0).unwrap();  // load V0..=V1 back
    assert_eq!(c.register(0), 10);
    assert_eq!(c.register(1), 20);
    assert_eq!(c.register(2), 30);
}

#[test]
fn register_block_past_memory_end_is_fatal() {
    let mut c = Chip8::new();
    c.execute_with(0xAFFF, 0).unwrap();  // I := 0xFFF
    assert_eq!(c.execute_with(0xF155, 0), Err(Fault::MemoryBound { pc: 0x202 }));
    assert_eq!(c.execute_with(0xF165, 0), Err(Fault::MemoryBound { pc: 0x202 }));
}

#[test]
fn timer_opcodes_read_and_write() {
    let mut c = Chip8::new();
    c.execute_with(0x6005, 0).unwrap();  // V0 := 5
    c.execute_with(0xF015, 0).unwrap();  // delay := V0
    assert_eq!(c.delay(), 5);
    c.execute_with(0xF018, 0).unwrap();  // sound := V0
    assert_eq!(c.sound(), 5);
    c.execute_with(0xF107, 0).unwrap();  // V1 := delay
    assert_eq!(c.register(1), 5);
}

#[test]
fn random_opcode_respects_mask() {
    let mut c = Chip8::new();
    for _ in 0..16 {
        c.execute_with(0x1200, 0).unwrap();  // keep the counter in place
        c.execute(0xC00F).unwrap();  // V0 := random & 0x0F
        assert_eq!(c.register(0) & 0xF0, 0);
        c.execute(0xC100).unwrap();  // V1 := random & 0
        assert_eq!(c.register(1), 0);
    }
}
