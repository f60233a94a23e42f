use unicorn::pimoroni::unicorn::Unicorn;
use unicorn::pimoroni::unicorn::BUF_SIZE;
use unicorn::pimoroni::unicorn::DELAY;
use unicorn::pimoroni::unicorn::SOF;
use unicorn::pimoroni::Dimensions;
use unicorn::pimoroni::Display;
use unicorn::RGB;

fn blank() -> Vec<u8> {
    let mut frame = vec![0u8; 769];
    frame[0] = 0x72;
    frame
}

#[test]
fn test_unicorn() {
    let (mut display, start) = Unicorn::new();
    assert_eq!(start.len(), 1);
    assert_eq!(start[0].bytes, blank());

    let r = RGB::new(255, 0, 0);
    let g = RGB::new(0, 255, 0);
    let b = RGB::new(0, 0, 255);

    display.set_xy(0, 0, &r);
    display.set_xy(1, 0, &r);
    display.set_xy(2, 0, &r);

    display.set_xy(3, 0, &r);
    display.set_xy(4, 0, &g);
    display.set_xy(4, 1, &b);

    display.set_xy(4, 2, &b);
    display.set_xy(4, 3, &b);
    display.set_xy(4, 4, &b);
    let sent = display.flush();

    let mut expected = blank();
    for px in 0..4 {
        expected[px * 3 + 1] = 255;
    }
    expected[4 * 3 + 2] = 255;
    for y in 1..5 {
        expected[(4 + y * 16) * 3 + 3] = 255;
    }
    assert_eq!(sent.len(), 1);
    assert_eq!(sent[0].bus, 0);
    assert_eq!(sent[0].settle_millis, 9);
    assert_eq!(sent[0].bytes, expected);
}

#[test]
fn unicorn_constants() {
    assert_eq!(SOF, 0x72);
    assert_eq!(BUF_SIZE, 769);
    assert_eq!(DELAY, 9);
}

#[test]
fn unicorn_set_idx_writes_one_triple() {
    let (mut display, _) = Unicorn::new();
    display.set_idx(0, &RGB::new(10, 20, 30));
    display.set_idx(255, &RGB::new(1, 2, 3));
    let sent = Unicorn::flush(&mut display);
    let mut expected = blank();
    expected[1] = 10;
    expected[2] = 20;
    expected[3] = 30;
    expected[766] = 1;
    expected[767] = 2;
    expected[768] = 3;
    assert_eq!(sent[0].bytes, expected);
}

#[test]
fn unicorn_set_xy_is_row_major() {
    let (mut by_xy, _) = Unicorn::new();
    let (mut by_idx, _) = Unicorn::new();
    let colour = RGB::new(9, 8, 7);
    by_xy.set_xy(15, 15, &colour);
    by_idx.set_idx(255, &colour);
    assert_eq!(by_xy.flush()[0].bytes, by_idx.flush()[0].bytes);
    by_xy.set_xy(3, 2, &colour);
    by_idx.set_idx(35, &colour);
    assert_eq!(by_xy.flush()[0].bytes, by_idx.flush()[0].bytes);
}

#[test]
fn unicorn_reset_blanks_the_frame() {
    let (mut display, _) = Unicorn::new();
    display.set_idx(100, &RGB::new(200, 100, 50));
    let sent = display.reset();
    assert_eq!(sent.len(), 1);
    assert_eq!(sent[0].bus, 0);
    assert_eq!(sent[0].bytes, blank());
    assert_eq!(display.flush()[0].bytes, blank());
}

#[test]
fn unicorn_flush_keeps_the_frame() {
    let (mut display, _) = Unicorn::new();
    display.set_idx(7, &RGB::new(1, 1, 1));
    let first = display.flush();
    let second = display.flush();
    assert_eq!(first[0].bytes, second[0].bytes);
    assert_eq!(first[0].bytes[22], 1);
}

#[test]
fn unicorn_default_is_blank() {
    let mut display = Unicorn::default();
    assert_eq!(display.flush()[0].bytes, blank());
}

fn paint_corner<D: Display>(display: &mut D) -> Dimensions {
    let dimensions = *display.dimensions();
    display.set_xy(dimensions.width - 1, dimensions.height - 1, &RGB::new(5, 6, 7));
    dimensions
}

#[test]
fn unicorn_through_the_display_contract() {
    let (mut display, _) = Unicorn::new();
    let dimensions = paint_corner(&mut display);
    assert_eq!(dimensions.width, 16);
    assert_eq!(dimensions.height, 16);
    assert_eq!(dimensions.num_px(), 256);
    let sent = Display::flush(&mut display);
    assert_eq!(&sent[0].bytes[766..], &[5, 6, 7]);
    let sent = Display::reset(&mut display);
    assert_eq!(sent[0].bytes, blank());
}

#[test]
fn rgb_new_and_black() {
    let colour = RGB::new(1, 2, 3);
    assert_eq!(colour.r, 1);
    assert_eq!(colour.g, 2);
    assert_eq!(colour.b, 3);
    assert_eq!(RGB::black(), RGB::new(0, 0, 0));
}

#[test]
fn dimensions_num_px() {
    assert_eq!(Dimensions { width: 17, height: 7 }.num_px(), 119);
    assert_eq!(Dimensions { width: 16, height: 16 }.num_px(), 256);
    assert_eq!(Dimensions { width: 0, height: 9 }.num_px(), 0);
}
