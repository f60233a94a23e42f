use unicorn::keyboard::all_keyboard_device_filenames;
use unicorn::keyboard::contains;
use unicorn::keyboard::event_file_name;
use unicorn::keyboard::find;
use unicorn::keyboard::matches_at;
use unicorn::keyboard::represents_kbd;
use unicorn::keyboard::same_bytes;
use unicorn::keyboard::starts_with;
use unicorn::keyboard::EVENT;
use unicorn::keyboard::EVENT_TYPES;
use unicorn::keyboard::HANDLERS;
use unicorn::keyboard::KEYBOARD;
use unicorn::keyboard::KEYBOARD_NO_REPEAT;
use unicorn::keyboard::SPACE;

fn lines(text: &str) -> Vec<Vec<u8>> {
    text.lines().map(|line| line.as_bytes().to_vec()).collect()
}

fn names(found: Vec<Vec<u8>>) -> Vec<String> {
    found.into_iter().map(|name| String::from_utf8(name).unwrap()).collect()
}

#[test]
fn keyboard_patterns() {
    assert_eq!(&HANDLERS, b"H: Handlers=");
    assert_eq!(&EVENT_TYPES, b"B: EV=");
    assert_eq!(&EVENT, b"event");
    assert_eq!(&SPACE, b" ");
    assert_eq!(&KEYBOARD, b"120013");
    assert_eq!(&KEYBOARD_NO_REPEAT, b"100013");
}

#[test]
fn find_gives_the_first_position() {
    assert_eq!(find(b"abcabc", b"bc"), Some(1));
    assert_eq!(find(b"abcabc", b"abc"), Some(0));
    assert_eq!(find(b"aab", b"ab"), Some(1));
    assert_eq!(find(b"abcabc", b"cb"), None);
    assert_eq!(find(b"ab", b"abc"), None);
    assert_eq!(find(b"abc", b"c"), Some(2));
    assert_eq!(find(b"abc", b""), Some(0));
    assert_eq!(find(b"", b""), Some(0));
    assert_eq!(find(b"", b"a"), None);
}

#[test]
fn matching_and_prefixes() {
    assert!(matches_at(b"hello", b"llo", 2));
    assert!(!matches_at(b"hello", b"llo", 3));
    assert!(!matches_at(b"hello", b"llo", 1));
    assert!(matches_at(b"hello", b"", 5));
    assert!(!matches_at(b"hello", b"", 6));
    assert!(!matches_at(b"hi", b"hello", 0));
    assert!(!matches_at(b"hi", b"h", usize::MAX));
    assert!(starts_with(b"B: EV=120013", b"B: EV="));
    assert!(!starts_with(b" B: EV=120013", b"B: EV="));
    assert!(!starts_with(b"B: E", b"B: EV="));
    assert!(contains(b"B: EV=120013", b"120013"));
    assert!(!contains(b"B: EV=12013", b"120013"));
    assert!(same_bytes(b"event3", b"event3"));
    assert!(!same_bytes(b"event3", b"event4"));
    assert!(!same_bytes(b"event3", b"event"));
    assert!(same_bytes(b"", b""));
}

#[test]
fn handler_line_names_the_event_file() {
    assert_eq!(
        event_file_name(b"H: Handlers=sysrq kbd event3 leds "),
        Some(b"event3".to_vec())
    );
    assert_eq!(
        event_file_name(b"H: Handlers=sysrq kbd leds event12 "),
        Some(b"event12".to_vec())
    );
    // Without a space before the last byte, the name ends before that byte.
    assert_eq!(event_file_name(b"H: Handlers=kbd event3"), Some(b"event".to_vec()));
    assert_eq!(event_file_name(b"H: Handlers=kbd event3 "), Some(b"event3".to_vec()));
    assert_eq!(event_file_name(b"event"), Some(b"even".to_vec()));
    assert_eq!(event_file_name(b"H: Handlers=kbd mouse0 "), None);
    assert_eq!(event_file_name(b""), None);
}

#[test]
fn keyboards_of_a_device_list() {
    let list = "\
I: Bus=0011 Vendor=0001 Product=0001 Version=ab41
N: Name=\"Built-in keyboard\"
P: Phys=isa0060/serio0/input0
S: Sysfs=/devices/platform/i8042/serio0/input/input3
U: Uniq=
H: Handlers=sysrq kbd event3 leds 
B: PROP=0
B: EV=120013
B: KEY=402000000 3803078f800d001 feffffdfffefffff fffffffffffffffe
B: MSC=10
B: LED=7

I: Bus=0011 Vendor=0002 Product=0007 Version=01b1
N: Name=\"SynPS/2 Synaptics TouchPad\"
H: Handlers=mouse0 event5 
B: PROP=1
B: EV=b
B: KEY=e520 10000 0 0 0 0

I: Bus=0003 Vendor=046d Product=c31c Version=0110
N: Name=\"Logitech USB Keyboard\"
H: Handlers=sysrq kbd leds event7 
B: EV=100013
";
    let found = all_keyboard_device_filenames(&lines(list));
    assert_eq!(names(found), vec!["event3", "event7"]);
}

#[test]
fn keyboard_lines_without_a_handler_are_passed_over() {
    let found = all_keyboard_device_filenames(&lines("B: EV=120013\nH: Handlers=kbd \nB: EV=120013\n"));
    assert_eq!(names(found), Vec::<String>::new());
    assert_eq!(names(all_keyboard_device_filenames(&vec![])), Vec::<String>::new());
}

#[test]
fn a_handler_name_lasts_until_the_next_one() {
    let found = all_keyboard_device_filenames(&lines(
        "H: Handlers=kbd event1 \nB: EV=120013\nH: Handlers=kbd \nB: EV=100013\n xB: EV=120013\nH: Handlers=event2 B: EV=120013\nB: EV=3 120013\n",
    ));
    assert_eq!(names(found), vec!["event1", "event1", "event2"]);
}

#[test]
fn new_entry_is_a_keyboard_if_it_is_listed() {
    let listed = vec![b"event3".to_vec(), b"event7".to_vec()];
    assert_eq!(represents_kbd(false, Some(b"event7"), &listed), Some(&b"event7"[..]));
    assert_eq!(represents_kbd(false, Some(b"event3"), &listed), Some(&b"event3"[..]));
    assert_eq!(represents_kbd(true, Some(b"event7"), &listed), None);
    assert_eq!(represents_kbd(false, Some(b"event5"), &listed), None);
    assert_eq!(represents_kbd(false, Some(b"event"), &listed), None);
    assert_eq!(represents_kbd(false, None, &listed), None);
    assert_eq!(represents_kbd(false, Some(b"event3"), &vec![]), None);
}
