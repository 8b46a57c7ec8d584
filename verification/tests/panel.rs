use whisper::display::{cmd, setup_command, Bringup, Console, Panel, COLS, FONT, ROWS};
use whisper::kvcache::{place_column, KvCache};
use whisper::pdm::{
    mic_config, mic_gain_code, mic_pins, probe_pin_activity, Pin, DISCONNECTED,
};
use whisper::window::halo_copy;

fn screen(c: &Console) -> Vec<String> {
    (0..ROWS)
        .map(|r| String::from_utf8(c.grid[r * COLS..(r + 1) * COLS].to_vec()).unwrap())
        .map(|s| s.trim_end().to_string())
        .collect()
}

fn console() -> Console {
    let mut c = Console::new();
    c.present = true;
    c
}

#[test]
fn an_absent_panel_shows_nothing() {
    let mut c = Console::new();
    assert!(!c.print(b"hello"));
    assert!(!c.clear());
    assert!(screen(&c).iter().all(|l| l.is_empty()));
}

#[test]
fn text_wraps_when_the_next_character_comes() {
    let mut c = console();
    assert!(c.print(b"123456789012345678901"));
    assert_eq!((c.row, c.col), (0, 21));
    c.print(b"x\n");
    assert_eq!(screen(&c)[..2], ["123456789012345678901", "x"]);
    assert_eq!((c.row, c.col), (2, 0));
}

#[test]
fn old_lines_scroll_away() {
    let mut c = console();
    for i in 0..10 {
        c.print(format!("line {i}\n").as_bytes());
    }
    let s = screen(&c);
    assert_eq!(s[0], "line 3");
    assert_eq!(s[6], "line 9");
    assert_eq!(s[7], "");
    assert_eq!((c.row, c.col), (7, 0));
    c.clear();
    assert!(screen(&c).iter().all(|l| l.is_empty()));
}

#[test]
fn characters_without_a_glyph() {
    let mut c = console();
    c.print("a\u{e9}\tb".as_bytes());
    assert_eq!(screen(&c)[0], "a??b");
}

#[test]
fn rows_are_drawn_with_the_font() {
    let mut c = console();
    c.print(b"A~");
    let row = c.render_row(0);
    assert_eq!(row.len(), 129);
    assert_eq!(&row[..7], &[0x40, 0x7E, 0x11, 0x11, 0x11, 0x7E, 0]);
    assert_eq!(&row[7..13], &[0x08, 0x04, 0x08, 0x10, 0x08, 0]);
    assert!(row[13..].iter().all(|&b| b == 0));
    assert_eq!(FONT.len(), 95 * 5);
}

#[test]
fn the_panel_is_looked_for_at_two_addresses() {
    let mut b = Bringup::init();
    assert_eq!(b.addr, 0x3C);
    assert_eq!(b.acked(false), Panel::Off);
    assert_eq!(b.addr, 0x3D);
    let mut absent = b;
    assert_eq!(absent.acked(false), Panel::Absent);
    for i in 0..15 {
        assert_eq!(b.acked(true), Panel::Setup(i));
    }
    let mut late = b;
    assert_eq!(late.acked(false), Panel::Absent);
    assert_eq!(b.acked(true), Panel::Found);
    assert_eq!(setup_command(0), [0xD5, 0x80]);
    assert_eq!(setup_command(3), [0x40]);
    assert_eq!(setup_command(14), [0xAF]);
    assert_eq!(cmd(&[0x21, 0, 127]), [0, 0x21, 0, 127]);
}

#[test]
fn windows_show_the_tensor_and_padding() {
    let rows = 3;
    let tiles: Vec<Vec<i8>> =
        (0..2).map(|t| (0..rows * 64).map(|i| (t * 50 + i % 64) as i8).collect()).collect();
    let (col0, t_in) = (-1i32, 130usize);
    let mut w = vec![-7i8; rows * t_in];
    for (t, tile) in tiles.iter().enumerate() {
        halo_copy(tile, &mut w, rows, t_in, col0, t as u32);
    }
    for r in 0..rows {
        for c in 0..t_in {
            let col = col0 + c as i32;
            let want = if (0..128).contains(&col) {
                tiles[col as usize / 64][r * 64 + col as usize % 64]
            } else {
                -7
            };
            assert_eq!(w[r * t_in + c], want);
        }
    }
}

#[test]
fn cached_columns_stay() {
    let mut kv = KvCache::new();
    let col = |n: i32| -> Vec<i8> { (0..1536).map(|i| ((i * 7 + n) % 100) as i8).collect() };
    kv.append(1, false, 0, &col(1));
    kv.append(1, false, 1, &col(2));
    kv.append(1, true, 1, &col(3));
    let head = kv.head(1, false, 2);
    assert_eq!(head.len(), 2048);
    assert_eq!(head[32 * 5], col(1)[4 * (64 * 2 + 5)]);
    assert_eq!(head[32 * 5 + 1], col(2)[4 * (64 * 2 + 5)]);
    assert_eq!(head[32 * 5 + 2], 0);
    assert_eq!(kv.head(1, true, 0)[1], col(3)[0]);
    assert!(kv.head(0, false, 0).iter().all(|&x| x == 0));
}

#[test]
fn a_residual_is_one_column_of_four() {
    let v: Vec<i16> = (0..384).map(|i| i as i16 - 100).collect();
    let x = place_column(&v);
    assert_eq!(x.len(), 1536);
    assert_eq!(&x[4 * 7..4 * 8], &[-93, 0, 0, 0]);
}

#[test]
fn microphone_settings() {
    let (clk, din) = mic_pins();
    assert_eq!(clk.psel(), 32 + 23);
    assert_eq!(Pin::of_psel(din.psel()), Some(din));
    assert_eq!(Pin::of_psel(DISCONNECTED), None);
    assert_eq!(mic_gain_code(), 0x28 + 24);
    let c = mic_config();
    assert_eq!(32_000_000 / c.prescaler as u32 / c.ratio as u32, 16_000);
    assert_eq!(probe_pin_activity(&[true, false, true]), (2, 1));
}

#[test]
fn a_redraw_writes_every_row() {
    let mut c = Console::new();
    assert!(c.render().is_empty());
    c.present = true;
    c.print(b"a\nb");
    let w = c.render();
    assert_eq!(w.len(), 3 * ROWS);
    assert_eq!(w[3], [0, 0x21, 0, 127]);
    assert_eq!(w[4], [0, 0x22, 1, 1]);
    assert_eq!(w[5], c.render_row(1));
    assert_eq!(&w[2][..6], &[0x40, 0x20, 0x54, 0x54, 0x54, 0x78]);
}
