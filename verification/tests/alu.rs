use chip8::cpu::Chip8;

fn with_regs(v0: u8, v1: u8) -> Chip8 {
    let mut c = Chip8::new();
    c.execute_with(0x6000 | v0 as u16, 0).unwrap();
    c.execute_with(0x6100 | v1 as u16, 0).unwrap();
    c
}

#[test]
fn add_immediate_wraps_without_flag() {
    let mut c = Chip8::new();
    c.execute_with(0x70FF, 0).unwrap();  // V0 := 0 + 255
    assert_eq!(c.register(0), 0xFF);
    c.execute_with(0x7002, 0).unwrap();  // V0 := 255 + 2, wrapping
    assert_eq!(c.register(0), 0x01);
    assert_eq!(c.register(0xF), 0);  // no flag from family 7
}

#[test]
fn add_registers_sets_carry() {
    let mut c = with_regs(0xFF, 0x01);
    c.execute_with(0x8014, 0).unwrap();
    assert_eq!(c.register(0), 0x00);
    assert_eq!(c.register(0xF), 1);

    let mut c = with_regs(0x10, 0x0F);
    c.execute_with(0x8014, 0).unwrap();
    assert_eq!(c.register(0), 0x1F);
    assert_eq!(c.register(0xF), 0);
}

#[test]
fn sub_registers_sets_not_borrow() {
    let mut c = with_regs(0x01, 0x02);
    c.execute_with(0x8015, 0).unwrap();
    assert_eq!(c.register(0), 0xFF);
    assert_eq!(c.register(0xF), 0);

    let mut c = with_regs(0x05, 0x02);
    c.execute_with(0x8015, 0).unwrap();
    assert_eq!(c.register(0), 0x03);
    assert_eq!(c.register(0xF), 1);

    let mut c = with_regs(0x07, 0x07);
    c.execute_with(0x8015, 0).unwrap();
    assert_eq!(c.register(0), 0x00);
    assert_eq!(c.register(0xF), 1);  // equal operands borrow nothing
}

#[test]
fn sub_reversed_sets_not_borrow() {
    let mut c = with_regs(0x02, 0x01);
    c.execute_with(0x8017, 0).unwrap();  // V0 := V1 - V0
    assert_eq!(c.register(0), 0xFF);
    assert_eq!(c.register(0xF), 0);

    let mut c = with_regs(0x02, 0x09);
    c.execute_with(0x8017, 0).unwrap();
    assert_eq!(c.register(0), 0x07);
    assert_eq!(c.register(0xF), 1);
}

#[test]
fn copy_and_bitwise_ops() {
    let mut c = with_regs(0b1010, 0b0110);
    c.execute_with(0x8010, 0).unwrap();  // copy
    assert_eq!(c.register(0), 0b0110);

    let mut c = with_regs(0b1010, 0b0110);
    c.execute_with(0x8011, 0).unwrap();  // or
    assert_eq!(c.register(0), 0b1110);

    let mut c = with_regs(0b1010, 0b0110);
    c.execute_with(0x8012, 0).unwrap();  // and
    assert_eq!(c.register(0), 0b0010);

    let mut c = with_regs(0b1010, 0b0110);
    c.execute_with(0x8013, 0).unwrap();  // xor
    assert_eq!(c.register(0), 0b1100);
}

#[test]
fn shift_right_captures_low_bit_first() {
    let mut c = with_regs(0x05, 0);
    c.execute_with(0x8016, 0).unwrap();
    assert_eq!(c.register(0), 0x02);
    assert_eq!(c.register(0xF), 1);

    let mut c = with_regs(0x04, 0);
    c.execute_with(0x8016, 0).unwrap();
    assert_eq!(c.register(0), 0x02);
    assert_eq!(c.register(0xF), 0);
}

#[test]
fn shift_left_captures_high_bit_first() {
    let mut c = with_regs(0x81, 0);
    c.execute_with(0x801E, 0).unwrap();
    assert_eq!(c.register(0), 0x02);
    assert_eq!(c.register(0xF), 1);

    let mut c = with_regs(0x41, 0);
    c.execute_with(0x801E, 0).unwrap();
    assert_eq!(c.register(0), 0x82);
    assert_eq!(c.register(0xF), 0);
}

#[test]
fn exhaustive_add_wraps_modulo_256() {
    // every combination of a sample grid, against plain modular arithmetic
    for a in (0..=255u16).step_by(15) {
        for b in (0..=255u16).step_by(17) {
            let mut c = with_regs(a as u8, b as u8);
            c.execute_with(0x8014, 0).unwrap();
            assert_eq!(c.register(0) as u16, (a + b) % 256);
            assert_eq!(c.register(0xF), if a + b > 255 { 1 } else { 0 });
        }
    }
}

#[test]
fn skip_equal_immediate() {
    let mut c = Chip8::new();
    c.execute_with(0x6010, 0).unwrap();  // V0 := 0x10, counter now 0x202
    let before = c.program_counter();
    c.execute_with(0x3010, 0).unwrap();  // equal: skip
    assert_eq!(c.program_counter(), before + 4);

    let mut c = Chip8::new();
    c.execute_with(0x6011, 0).unwrap();  // V0 := 0x11
    let before = c.program_counter();
    c.execute_with(0x3010, 0).unwrap();  // not equal: no skip
    assert_eq!(c.program_counter(), before + 2);
}

#[test]
fn skip_not_equal_immediate() {
    let mut c = Chip8::new();
    c.execute_with(0x6010, 0).unwrap();
    let before = c.program_counter();
    c.execute_with(0x4010, 0).unwrap();  // equal: no skip
    assert_eq!(c.program_counter(), before + 2);
    let before = c.program_counter();
    c.execute_with(0x4011, 0).unwrap();  // not equal: skip
    assert_eq!(c.program_counter(), before + 4);
}

#[test]
fn skip_on_register_comparison() {
    let mut c = with_regs(7, 7);
    let before = c.program_counter();
    c.execute_with(0x5010, 0).unwrap();  // V0 == V1: skip
    assert_eq!(c.program_counter(), before + 4);
    let before = c.program_counter();
    c.execute_with(0x9010, 0).unwrap();  // V0 != V1 fails: no skip
    assert_eq!(c.program_counter(), before + 2);

    let mut c = with_regs(7, 8);
    let before = c.program_counter();
    c.execute_with(0x5010, 0).unwrap();
    assert_eq!(c.program_counter(), before + 2);
    let before = c.program_counter();
    c.execute_with(0x9010, 0).unwrap();
    assert_eq!(c.program_counter(), before + 4);
}

#[test]
fn comparison_with_nonzero_low_nibble_is_ignored() {
    let mut c = with_regs(7, 7);
    let before = c.program_counter();
    c.execute_with(0x5011, 0).unwrap();  // low nibble 1: ignored, no skip
    assert_eq!(c.program_counter(), before + 2);
    assert_eq!(c.register(0), 7);
    let before = c.program_counter();
    c.execute_with(0x9013, 0).unwrap();
    assert_eq!(c.program_counter(), before + 2);
}
