use chip8::cpu::Chip8;
use chip8::video::Video;

#[test]
fn video_new_is_all_off() {
    let v = Video::new();
    for k in 0..2048 {
        assert_eq!(v.get_pixel(k), 0);
    }
}

#[test]
fn video_xor_toggles_and_clear_resets() {
    let mut v = Video::new();
    v.xor(100);
    assert_ne!(v.get_pixel(100), 0);
    assert_eq!(v.get_pixel(101), 0);
    v.xor(100);
    assert_eq!(v.get_pixel(100), 0);
    v.xor(0);
    v.xor(2047);
    v.clear_screen();
    for k in 0..2048 {
        assert_eq!(v.get_pixel(k), 0);
    }
}

#[test]
fn video_index_wraps_modulo_grid() {
    let v = Video::new();
    assert_eq!(v.get_index(0, 0), 0);
    assert_eq!(v.get_index(63, 0), 63);
    assert_eq!(v.get_index(0, 1), 64);
    assert_eq!(v.get_index(64, 0), 64);  // x past the edge wraps to the next row
    assert_eq!(v.get_index(0, 32), 0);  // y past the edge wraps to the top
    assert_eq!(v.get_index(5, 33), 69);
}

#[test]
fn draw_glyph_sets_pixels_without_collision() {
    let mut c = Chip8::new();
    // I = 0: glyph 0, whose top row is 0xF0; draw at (V0, V1) = (0, 0)
    c.execute_with(0xD015, 0).unwrap();
    assert_eq!(c.register(0xF), 0);  // fresh screen: nothing overlapped
    // top row of glyph 0: pixels (0..4, 0) on, (4..8, 0) off
    for x in 0..4 {
        assert_ne!(c.video.get_pixel(x), 0);
    }
    for x in 4..8 {
        assert_eq!(c.video.get_pixel(x), 0);
    }
}

#[test]
fn draw_twice_restores_screen_and_flags_collision() {
    let mut c = Chip8::new();
    c.execute_with(0xD015, 0).unwrap();
    assert_eq!(c.register(0xF), 0);
    c.execute_with(0xD015, 0).unwrap();
    // the second pass toggled lit pixels: collision, and the screen is back
    assert_eq!(c.register(0xF), 1);
    for k in 0..2048 {
        assert_eq!(c.video.get_pixel(k), 0);
    }
}

#[test]
fn draw_wraps_at_screen_edge() {
    let mut c = Chip8::new();
    c.execute_with(0x603E, 0).unwrap();  // V0 := 62
    c.execute_with(0x611E, 0).unwrap();  // V1 := 30
    c.execute_with(0xD015, 0).unwrap();  // glyph 0 at (62, 30): wraps both ways
    assert_eq!(c.register(0xF), 0);
    // row 0 of glyph 0 lights (62, 30), (63, 30), (0, 31), (1, 31)
    assert_ne!(c.video.get_pixel(30 * 64 + 62), 0);
    assert_ne!(c.video.get_pixel(30 * 64 + 63), 0);
    assert_ne!(c.video.get_pixel(31 * 64 + 0), 0);
    assert_ne!(c.video.get_pixel(31 * 64 + 1), 0);
    // drawing again restores the wrapped screen too
    c.execute_with(0xD015, 0).unwrap();
    assert_eq!(c.register(0xF), 1);
    for k in 0..2048 {
        assert_eq!(c.video.get_pixel(k), 0);
    }
}

#[test]
fn draw_with_zero_rows_clears_flag_only() {
    let mut c = Chip8::new();
    c.execute_with(0x6F07, 0).unwrap();  // VF := 7
    c.execute_with(0xD010, 0).unwrap();  // n = 0: no rows
    assert_eq!(c.register(0xF), 0);  // the flag is still cleared first
    for k in 0..2048 {
        assert_eq!(c.video.get_pixel(k), 0);
    }
}

#[test]
fn draw_rows_past_memory_end_is_fatal() {
    let mut c = Chip8::new();
    c.execute_with(0xAFFF, 0).unwrap();  // I := 0xFFF
    let r = c.execute_with(0xD012, 0);  // two rows read 0xFFF and 0x1000
    assert_eq!(r, Err(chip8::cpu::Fault::MemoryBound { pc: 0x202 }));
}

#[test]
fn clear_screen_turns_every_pixel_off() {
    let mut c = Chip8::new();
    c.execute_with(0xD015, 0).unwrap();  // light something up
    c.execute_with(0x00E0, 0).unwrap();
    for k in 0..2048 {
        assert_eq!(c.video.get_pixel(k), 0);
    }
}
