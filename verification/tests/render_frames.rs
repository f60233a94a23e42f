use unicorn::cpu::quarters;
use unicorn::cpu::rect_ids;
use unicorn::error::AppError;
use unicorn::pimoroni::unicorn::Unicorn;
use unicorn::pimoroni::unicornmini::UnicornMini;
use unicorn::pimoroni::unicornmini::LUT;
use unicorn::pimoroni::Dimensions;
use unicorn::render::draw;
use unicorn::render::draw_status;
use unicorn::render::fill;
use unicorn::render::green;
use unicorn::render::red;
use unicorn::render::status_colour;
use unicorn::render::status_colours;
use unicorn::RGB;

#[test]
fn load_colours() {
    assert_eq!(green(), RGB::new(0, 20, 0));
    assert_eq!(red(), RGB::new(70, 0, 0));
    assert_eq!(status_colour(false, false), RGB::new(0, 0, 0));
    assert_eq!(status_colour(true, false), RGB::new(0, 20, 0));
    assert_eq!(status_colour(false, true), RGB::new(70, 0, 0));
    assert_eq!(status_colour(true, true), RGB::new(70, 20, 0));
}

#[test]
fn status_colours_stop_at_the_shorter_vector() {
    let colours = status_colours(&vec![true, false, true], &vec![false, false]);
    assert_eq!(colours, vec![RGB::new(0, 20, 0), RGB::new(0, 0, 0)]);
    assert_eq!(status_colours(&vec![], &vec![true]), vec![]);
}

#[test]
fn draw_sets_the_first_pixels_and_flushes() {
    let (mut display, _) = Unicorn::new();
    display.set_idx(2, &RGB::new(9, 9, 9));
    let sent = draw(&mut display, &vec![RGB::new(1, 2, 3), RGB::new(4, 5, 6)]);
    assert_eq!(sent.len(), 1);
    assert_eq!(&sent[0].bytes[..10], &[0x72, 1, 2, 3, 4, 5, 6, 9, 9, 9]);
    assert!(sent[0].bytes[10..].iter().all(|byte| *byte == 0));
    assert_eq!(sent[0].bytes, display.flush()[0].bytes);
}

#[test]
fn draw_status_mixes_memory_and_load() {
    let (mut display, _) = Unicorn::new();
    let mut ram = vec![false; 256];
    let mut cpu = vec![false; 256];
    ram[0] = true;
    cpu[1] = true;
    ram[255] = true;
    cpu[255] = true;
    let sent = draw_status(&mut display, &ram, &cpu);
    let bytes = &sent[0].bytes;
    assert_eq!(&bytes[1..7], &[0, 20, 0, 70, 0, 0]);
    assert_eq!(&bytes[766..], &[70, 20, 0]);
    assert_eq!(bytes.iter().filter(|byte| **byte != 0).count(), 5);
}

#[test]
fn draw_status_on_the_small_board() {
    let (mut display, _) = UnicornMini::new();
    let ram = vec![true; 119];
    let cpu = vec![false; 119];
    let sent = draw_status(&mut display, &ram, &cpu);
    let mut frame = sent[0].bytes[2..].to_vec();
    frame.extend_from_slice(&sent[1].bytes[2..]);
    for entry in LUT {
        assert_eq!(frame[entry[0]], 0);
        assert_eq!(frame[entry[1]], 20);
        assert_eq!(frame[entry[2]], 0);
    }
}

#[test]
fn fill_colours_every_pixel() {
    let (mut display, _) = UnicornMini::new();
    let sent = fill(&mut display, &RGB::new(3, 4, 5));
    let mut frame = sent[0].bytes[2..].to_vec();
    frame.extend_from_slice(&sent[1].bytes[2..]);
    for entry in LUT {
        assert_eq!(frame[entry[0]], 3);
        assert_eq!(frame[entry[1]], 4);
        assert_eq!(frame[entry[2]], 5);
    }
    assert_eq!(frame.iter().filter(|byte| **byte != 0).count(), 357);

    let (mut display, _) = Unicorn::new();
    let sent = fill(&mut display, &RGB::new(3, 4, 5));
    assert_eq!(sent[0].bytes[0], 0x72);
    for px in 0..256 {
        assert_eq!(&sent[0].bytes[px * 3 + 1..px * 3 + 4], &[3, 4, 5]);
    }
}

#[test]
fn rect_ids_go_column_by_column() {
    assert_eq!(rect_ids(0, 2, 0, 3), vec![0, 16, 32, 1, 17, 33]);
    assert_eq!(rect_ids(8, 10, 8, 9), vec![136, 137]);
    assert_eq!(rect_ids(3, 3, 0, 5), Vec::<usize>::new());
    assert_eq!(rect_ids(0, 5, 2, 2), Vec::<usize>::new());
    assert_eq!(rect_ids(4, 2, 0, 1), Vec::<usize>::new());
}

#[test]
fn quarters_of_the_square_board() {
    let parts = quarters(&Dimensions { width: 16, height: 16 });
    assert_eq!(parts.len(), 4);
    for part in &parts {
        assert_eq!(part.len(), 64);
    }
    assert_eq!(&parts[0][..9], &[0, 16, 32, 48, 64, 80, 96, 112, 1]);
    assert_eq!(parts[1][0], 8);
    assert_eq!(parts[2][0], 128);
    assert_eq!(parts[3][0], 136);
    assert_eq!(parts[3][63], 255);
    let mut all: Vec<usize> = parts.concat();
    all.sort();
    assert_eq!(all, (0..256).collect::<Vec<usize>>());
}

#[test]
fn quarters_of_the_small_board() {
    let parts = quarters(&Dimensions { width: 17, height: 7 });
    let sizes: Vec<usize> = parts.iter().map(|part| part.len()).collect();
    assert_eq!(sizes, vec![24, 27, 32, 36]);
    assert_eq!(parts[1][0], 8);
    assert_eq!(parts[2][0], 48);
    assert_eq!(parts[3][35], 112);
}

#[test]
fn app_error_keeps_its_message() {
    let error = AppError::boxed("ShortRead");
    assert_eq!(error.message(), "ShortRead");
    assert_eq!(AppError::boxed("").message(), "");
}
