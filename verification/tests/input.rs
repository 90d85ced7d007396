use chip8::cpu::Chip8;
use chip8::keyboard::Keyboard;

#[test]
fn latch_holds_one_key_at_a_time() {
    let mut k = Keyboard::new();
    assert!(!k.is_pressed(0));
    k.set_key(0x5);
    assert!(k.is_pressed(0x5));
    assert!(!k.is_pressed(0x4));
    k.set_key(0xA);  // a second press silently replaces the first
    assert!(k.is_pressed(0xA));
    assert!(!k.is_pressed(0x5));
    k.clear();
    assert!(!k.is_pressed(0xA));
}

#[test]
fn out_of_range_key_is_dropped() {
    let mut k = Keyboard::new();
    k.set_key(0x10);
    for key in 0..16u8 {
        assert!(!k.is_pressed(key));
    }
    k.set_key(0x3);
    k.set_key(0xFF);  // dropped: the latch keeps its key
    assert!(k.is_pressed(0x3));
}

#[test]
fn skip_if_key_consumes_the_press() {
    let mut c = Chip8::new();
    c.execute_with(0x6005, 0).unwrap();  // V0 := 5
    c.keyboard.set_key(0x5);
    let before = c.program_counter();
    c.execute_with(0xE09E, 0).unwrap();  // key 5 latched: skip and consume
    assert_eq!(c.program_counter(), before + 4);
    assert!(!c.keyboard.is_pressed(0x5));  // the taken skip cleared the latch

    let before = c.program_counter();
    c.execute_with(0xE09E, 0).unwrap();  // latch now empty: no skip
    assert_eq!(c.program_counter(), before + 2);
}

#[test]
fn skip_if_no_key_keeps_the_press() {
    let mut c = Chip8::new();
    c.execute_with(0x6005, 0).unwrap();  // V0 := 5
    let before = c.program_counter();
    c.execute_with(0xE0A1, 0).unwrap();  // nothing latched: skip
    assert_eq!(c.program_counter(), before + 4);

    c.keyboard.set_key(0x5);
    let before = c.program_counter();
    c.execute_with(0xE0A1, 0).unwrap();  // the key is down: no skip
    assert_eq!(c.program_counter(), before + 2);
    assert!(c.keyboard.is_pressed(0x5));  // the untaken path keeps the latch
}
