//! Which input devices are keyboards, read off the kernel's list of input
//! devices. The list is text; this module works on its lines as bytes.

use vstd::prelude::*;

verus! {

/// `H: Handlers=`, which opens the line that names a device's handlers.
pub const HANDLERS: [u8; 12] = [
    0x48,
    0x3a,
    0x20,
    0x48,
    0x61,
    0x6e,
    0x64,
    0x6c,
    0x65,
    0x72,
    0x73,
    0x3d,
];

/// `B: EV=`, which opens the line that holds a device's event types.
pub const EVENT_TYPES: [u8; 6] = [0x42, 0x3a, 0x20, 0x45, 0x56, 0x3d];

/// `event`, with which the file name of an event device starts.
pub const EVENT: [u8; 5] = [0x65, 0x76, 0x65, 0x6e, 0x74];

/// A space.
pub const SPACE: [u8; 1] = [0x20];

/// `120013`, the event types of a keyboard.
pub const KEYBOARD: [u8; 6] = [0x31, 0x32, 0x30, 0x30, 0x31, 0x33];

/// `100013`, the event types of a keyboard without key repeat.
pub const KEYBOARD_NO_REPEAT: [u8; 6] = [0x31, 0x30, 0x30, 0x30, 0x31, 0x33];

/// Whether `pattern` stands in `text` at position `at`.
pub open spec fn occurs_at(text: Seq<u8>, pattern: Seq<u8>, at: int) -> bool {
    &&& 0 <= at
    &&& at + pattern.len() <= text.len()
    &&& text.subrange(at, at + pattern.len()) == pattern
}

/// Whether `pattern` stands in `text` at `at` and nowhere before.
pub open spec fn first_at(text: Seq<u8>, pattern: Seq<u8>, at: int) -> bool {
    &&& occurs_at(text, pattern, at)
    &&& forall|before: int| before < at ==> !occurs_at(text, pattern, before)
}

/// The first position at which `pattern` stands in `text`, if it does.
pub open spec fn first_occurrence(text: Seq<u8>, pattern: Seq<u8>) -> Option<int> {
    if exists|at: int| first_at(text, pattern, at) {
        Some(choose|at: int| first_at(text, pattern, at))
    } else {
        None
    }
}

/// A pattern has one first position at most.
pub proof fn lemma_first_occurrence(text: Seq<u8>, pattern: Seq<u8>, at: int)
    requires
        first_at(text, pattern, at),
    ensures
        first_occurrence(text, pattern) == Some(at),
{
    let chosen = choose|at: int| first_at(text, pattern, at);
    assert(first_at(text, pattern, chosen));
    if chosen < at {
        assert(!occurs_at(text, pattern, chosen));
    }
    if at < chosen {
        assert(!occurs_at(text, pattern, at));
    }
}

/// A pattern that stands nowhere has no first position.
pub proof fn lemma_no_occurrence(text: Seq<u8>, pattern: Seq<u8>)
    requires
        forall|at: int| !occurs_at(text, pattern, at),
    ensures
        first_occurrence(text, pattern) is None,
{
}

/// The file name that a handlers line names: from the first `event` up to
/// the next space, or up to the line's last byte where no space follows
/// before it.
pub open spec fn handler_name(line: Seq<u8>) -> Option<Seq<u8>> {
    match first_occurrence(line, EVENT@) {
        Some(start) => {
            let limit = line.len() - 1;
            let end = match first_occurrence(line.subrange(start, limit), SPACE@) {
                Some(offset) => start + offset,
                None => limit,
            };
            Some(line.subrange(start, end))
        },
        None => None,
    }
}

/// Whether a line holds the event types of a keyboard.
pub open spec fn is_keyboard_line(line: Seq<u8>) -> bool {
    &&& occurs_at(line, EVENT_TYPES@, 0)
    &&& (first_occurrence(line, KEYBOARD@) is Some || first_occurrence(line, KEYBOARD_NO_REPEAT@)
        is Some)
}

/// What is known after some lines of the list: the file name that the last
/// handlers line named, and the file names of the keyboards found.
pub struct Scan {
    pub filename: Option<Seq<u8>>,
    pub filenames: Seq<Seq<u8>>,
}

/// What one more line adds. A handlers line that names an event device
/// replaces the file name. Any other line that holds the event types of a
/// keyboard puts the file name, where there is one, among the keyboards.
pub open spec fn scan_line(state: Scan, line: Seq<u8>) -> Scan {
    if occurs_at(line, HANDLERS@, 0) {
        match handler_name(line) {
            Some(name) => Scan { filename: Some(name), filenames: state.filenames },
            None => state,
        }
    } else if is_keyboard_line(line) {
        match state.filename {
            Some(name) => Scan { filename: state.filename, filenames: state.filenames.push(name) },
            None => state,
        }
    } else {
        state
    }
}

/// What is known after all of `lines`, read from the first to the last.
pub open spec fn scan(lines: Seq<Seq<u8>>) -> Scan
    decreases lines.len(),
{
    if lines.len() == 0 {
        Scan { filename: None, filenames: Seq::empty() }
    } else {
        scan_line(scan(lines.drop_last()), lines.last())
    }
}

/// The byte strings that a list of vectors holds.
pub open spec fn texts(items: Seq<Vec<u8>>) -> Seq<Seq<u8>> {
    Seq::new(items.len(), |i: int| items[i]@)
}

/// Whether `pattern` stands in `text` at position `at`.
pub fn matches_at(text: &[u8], pattern: &[u8], at: usize) -> (matches: bool)
    ensures
        matches == occurs_at(text@, pattern@, at as int),
{
    if pattern.len() > text.len() || at > text.len() - pattern.len() {
        return false;
    }
    for k in 0..pattern.len()
        invariant
            at + pattern@.len() <= text@.len() <= usize::MAX,
            forall|j: int| 0 <= j < k ==> text@[at + j] == pattern@[j],
    {
        if text[at + k] != pattern[k] {
            assert(text@.subrange(at as int, at + pattern@.len())[k as int] != pattern@[k as int]);
            return false;
        }
    }
    assert(text@.subrange(at as int, at + pattern@.len()) =~= pattern@);
    true
}

/// Whether `text` starts with `prefix`.
pub fn starts_with(text: &[u8], prefix: &[u8]) -> (starts: bool)
    ensures
        starts == occurs_at(text@, prefix@, 0),
{
    matches_at(text, prefix, 0)
}

/// The first position at which `pattern` stands in `text`, if it does.
pub fn find(text: &[u8], pattern: &[u8]) -> (found: Option<usize>)
    ensures
        match found {
            Some(at) => first_occurrence(text@, pattern@) == Some(at as int),
            None => first_occurrence(text@, pattern@) is None,
        },
{
    if pattern.len() > text.len() {
        proof {
            lemma_no_occurrence(text@, pattern@);
        }
        return None;
    }
    if pattern.len() == 0 {
        proof {
            assert(text@.subrange(0, 0) =~= pattern@);
            lemma_first_occurrence(text@, pattern@, 0);
        }
        return Some(0);
    }
    let last = text.len() - pattern.len();
    let mut at: usize = 0;
    while at <= last
        invariant
            0 < pattern@.len() <= text@.len() <= usize::MAX,
            last == text@.len() - pattern@.len(),
            forall|before: int| before < at ==> !occurs_at(text@, pattern@, before),
        decreases last + 1 - at,
    {
        if matches_at(text, pattern, at) {
            proof {
                lemma_first_occurrence(text@, pattern@, at as int);
            }
            return Some(at);
        }
        at += 1;
    }
    proof {
        lemma_no_occurrence(text@, pattern@);
    }
    None
}

/// Whether `pattern` stands somewhere in `text`.
pub fn contains(text: &[u8], pattern: &[u8]) -> (held: bool)
    ensures
        held == first_occurrence(text@, pattern@) is Some,
{
    find(text, pattern).is_some()
}

/// The file name that a handlers line names, if it names an event device.
pub fn event_file_name(line: &[u8]) -> (name: Option<Vec<u8>>)
    ensures
        match name {
            Some(bytes) => handler_name(line@) == Some(bytes@),
            None => handler_name(line@) is None,
        },
{
    match find(line, &EVENT) {
        Some(event_index) => {
            proof {
                let chosen = choose|at: int| first_at(line@, EVENT@, at);
                assert(first_at(line@, EVENT@, chosen));
            }
            let limit = line.len() - 1;
            let rest = vstd::slice::slice_subrange(line, event_index, limit);
            let last_index = match find(rest, &SPACE) {
                Some(offset) => {
                    proof {
                        let chosen = choose|at: int| first_at(rest@, SPACE@, at);
                        assert(first_at(rest@, SPACE@, chosen));
                    }
                    offset + event_index
                },
                None => limit,
            };
            Some(vstd::slice::slice_to_vec(vstd::slice::slice_subrange(line, event_index, last_index)))
        },
        None => None,
    }
}

/// The file names of the keyboards among the input devices that `lines`
/// list, in the order of the list. A device counts as a keyboard by its
/// event types, and goes by the file name that the handlers line before
/// them names.
pub fn all_keyboard_device_filenames(lines: &Vec<Vec<u8>>) -> (filenames: Vec<Vec<u8>>)
    ensures
        texts(filenames@) == scan(texts(lines@)).filenames,
{
    let mut filename: Option<Vec<u8>> = None;
    let mut filenames: Vec<Vec<u8>> = Vec::new();
    proof {
        assert(texts(lines@).take(0) =~= Seq::<Seq<u8>>::empty());
        assert(texts(filenames@) =~= Seq::<Seq<u8>>::empty());
    }
    for index in 0..lines.len()
        invariant
            texts(filenames@) == scan(texts(lines@).take(index as int)).filenames,
            match filename {
                Some(name) => scan(texts(lines@).take(index as int)).filename == Some(name@),
                None => scan(texts(lines@).take(index as int)).filename is None,
            },
    {
        let ghost before = scan(texts(lines@).take(index as int));
        let ghost listed = texts(filenames@);
        let line = lines[index].as_slice();
        proof {
            assert(texts(lines@).take(index + 1).drop_last() =~= texts(lines@).take(index as int));
            assert(texts(lines@).take(index + 1).last() == line@);
        }
        if starts_with(line, &HANDLERS) {
            match event_file_name(line) {
                Some(name) => {
                    filename = Some(name);
                },
                None => {},
            }
        } else if starts_with(line, &EVENT_TYPES) && (contains(line, &KEYBOARD) || contains(
            line,
            &KEYBOARD_NO_REPEAT,
        )) {
            match &filename {
                Some(name) => {
                    let copy = vstd::slice::slice_to_vec(name.as_slice());
                    filenames.push(copy);
                    assert(texts(filenames@) =~= listed.push(name@));
                },
                None => {},
            }
        }
    }
    proof {
        assert(texts(lines@).take(lines@.len() as int) =~= texts(lines@));
    }
    filenames
}

/// Whether two byte strings are equal.
pub fn same_bytes(left: &[u8], right: &[u8]) -> (same: bool)
    ensures
        same == (left@ == right@),
{
    if left.len() != right.len() {
        return false;
    }
    for k in 0..left.len()
        invariant
            left@.len() == right@.len(),
            forall|j: int| 0 <= j < k ==> left@[j] == right@[j],
    {
        if left[k] != right[k] {
            return false;
        }
    }
    assert(left@ =~= right@);
    true
}

/// Whether a new entry of the device directory is a keyboard: it is no
/// directory, it has a name, and the name is among `device_files`. Hands
/// back the name where it is.
pub fn represents_kbd<'a>(
    is_dir: bool,
    file_name: Option<&'a [u8]>,
    device_files: &Vec<Vec<u8>>,
) -> (device: Option<&'a [u8]>)
    ensures
        device is Some <==> !is_dir && file_name is Some && texts(device_files@).contains(
            file_name->0@,
        ),
        device is Some ==> device == file_name,
{
    if !is_dir {
        if let Some(name) = file_name {
            for index in 0..device_files.len()
                invariant
                    !is_dir,
                    file_name == Some(name),
                    forall|j: int| 0 <= j < index ==> texts(device_files@)[j] != name@,
            {
                if same_bytes(device_files[index].as_slice(), name) {
                    assert(texts(device_files@)[index as int] == name@);
                    return Some(name);
                }
            }
        }
    }
    None
}

} // verus!
