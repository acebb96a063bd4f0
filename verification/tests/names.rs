use dna_greendamn::buf::Buf;
use dna_greendamn::mem::{Memory, Miss, Module};
use dna_greendamn::names::{class_name, class_of, outer_of, push_class_name, read_fname};

const POOL: usize = 0x5000_0000;
const BLOCK: usize = 0x6000_0000;
const GAME: Module = Module { base: 0x1_4000_0000, size: 0x800_0000 };

fn header(len: u16, wide: bool) -> Vec<u8> {
    (len * 2 + if wide { 1 } else { 0 }).to_le_bytes().to_vec()
}

/// A memory that knows name number `0x0003_0010` of block 3.
fn with_name(text: &[u8], wide: bool) -> Memory {
    let mut m = Memory::new();
    put_name(&mut m, 0x0003_0010, text, wide);
    m
}

fn put_name(m: &mut Memory, id: u32, text: &[u8], wide: bool) {
    let block = BLOCK + ((id >> 16) as usize) * 0x10_0000;
    let entry = block + ((id & 0xFFFF) as usize) * 2;
    let chars = if wide { text.len() / 2 } else { text.len() };
    let want = if wide { chars.min(64) * 2 } else { chars.min(64) };
    m.record(POOL + 0x10 + ((id >> 16) as usize) * 8, 8, (block as u64).to_le_bytes().to_vec());
    m.record(entry, 2, header(chars as u16, wide));
    m.record(entry + 2, want, text.to_vec());
}

fn resolve(m: &Memory, room: usize) -> Vec<u8> {
    let mut out = vec![0xEE; room];
    let n = read_fname(m, POOL, 0x0003_0010, out.as_mut_slice()).unwrap();
    assert!(out[n..].iter().all(|b| *b == 0xEE));
    out.truncate(n);
    out
}

#[test]
fn names_match_with_up_to_two_more_bytes() {
    let f = dna_greendamn::names::matches;
    assert!(f(b"Function", b"Function"));
    assert!(f(b"Function_", b"Function"));
    assert!(f(b"Function_1", b"Function"));
    assert!(!f(b"Function_12", b"Function"));
    assert!(!f(b"Functio", b"Function"));
    assert!(!f(b"Xunction", b"Function"));
    assert!(!f(b"XFunction", b"Function"));
    assert!(f(b"", b""));
    assert!(f(b"ab", b""));
    assert!(!f(b"abc", b""));
}

#[test]
fn narrow_name_is_read() {
    assert_eq!(resolve(&with_name(b"PlayerCameraComponent", false), 64), b"PlayerCameraComponent");
}

#[test]
fn wide_name_is_read() {
    assert_eq!(resolve(&with_name(b"F\0u\0n\0c\0", true), 64), b"Func");
}

#[test]
fn wide_name_stops_at_a_character_beyond_ascii() {
    assert_eq!(resolve(&with_name(b"F\0u\x01n\0", true), 64), b"F");
}

#[test]
fn name_stops_at_the_first_illegible_character() {
    assert_eq!(resolve(&with_name(b"Ab\x1fcd", false), 64), b"Ab");
    assert_eq!(resolve(&with_name(b"Ab\x7fcd", false), 64), b"Ab");
    assert_eq!(resolve(&with_name(b" ~", false), 64), b" ~");
}

#[test]
fn long_names_are_cut_at_sixty_four() {
    assert_eq!(resolve(&with_name(&[b'a'; 100], false), 200), vec![b'a'; 64]);
}

#[test]
fn name_is_cut_to_the_room_there_is() {
    let mut m = with_name(b"Function", false);
    m.record(BLOCK + 3 * 0x10_0000 + 0x22, 3, b"Fun".to_vec());
    assert_eq!(resolve(&m, 3), b"Fun");
}

#[test]
fn partly_readable_name_is_shortened() {
    let mut m = with_name(b"Function", false);
    m.record(BLOCK + 3 * 0x10_0000 + 0x22, 8, b"Fu".to_vec());
    assert_eq!(resolve(&m, 64), b"Fu");
    let mut w = with_name(b"F\0u\0", true);
    w.record(BLOCK + 3 * 0x10_0000 + 0x22, 4, b"F\0u".to_vec());
    assert_eq!(resolve(&w, 64), b"F");
}

#[test]
fn missing_block_or_header_gives_no_name() {
    let mut m = with_name(b"Function", false);
    m.record(POOL + 0x10 + 3 * 8, 8, vec![0; 8]);
    assert_eq!(resolve(&m, 64), b"");
    m.record(POOL + 0x10 + 3 * 8, 8, vec![1; 7]);
    assert_eq!(resolve(&m, 64), b"");
    let mut h = with_name(b"Function", false);
    h.record(BLOCK + 3 * 0x10_0000 + 0x20, 2, vec![16]);
    assert_eq!(resolve(&h, 64), b"");
    h.record(BLOCK + 3 * 0x10_0000 + 0x20, 2, vec![1, 0]);
    assert_eq!(resolve(&h, 64), b"");
}

#[test]
fn unanswered_reads_are_asked_for_in_turn() {
    let mut m = Memory::new();
    let mut out = vec![7u8; 64];
    let slot = POOL + 0x10 + 3 * 8;
    let id = 0x0003_0010;
    assert_eq!(read_fname(&m, POOL, id, &mut out), Err(Miss { addr: slot, len: 8 }));
    m.record(slot, 8, (BLOCK as u64).to_le_bytes().to_vec());
    assert_eq!(read_fname(&m, POOL, id, &mut out), Err(Miss { addr: BLOCK + 0x20, len: 2 }));
    m.record(BLOCK + 0x20, 2, header(5, true));
    assert_eq!(read_fname(&m, POOL, id, &mut out), Err(Miss { addr: BLOCK + 0x22, len: 10 }));
    assert_eq!(out, vec![7u8; 64]);
}

#[test]
fn class_and_outer_are_read_from_the_header() {
    let mut m = Memory::new();
    assert_eq!(class_of(&m, 0x1000), Err(Miss { addr: 0x1010, len: 8 }));
    m.record(0x1010, 8, 0xABCDu64.to_le_bytes().to_vec());
    m.record(0x1020, 8, 0x1234u64.to_le_bytes().to_vec());
    assert_eq!(class_of(&m, 0x1000), Ok(0xABCD));
    assert_eq!(outer_of(&m, 0x1000), Ok(0x1234));
    m.record(0x1010, 8, vec![1, 2]);
    assert_eq!(class_of(&m, 0x1000), Ok(0));
}

fn with_class(vtable: u64) -> Memory {
    let mut m = Memory::new();
    m.record(0x1010, 8, 0x9000u64.to_le_bytes().to_vec());
    m.record(0x9000, 8, vtable.to_le_bytes().to_vec());
    m.record(0x9018, 4, 0x0003_0010u32.to_le_bytes().to_vec());
    put_name(&mut m, 0x0003_0010, b"Function", false);
    m
}

#[test]
fn class_name_needs_a_vtable_in_the_image() {
    let mut out = vec![0u8; 64];
    let inside = with_class(0x1_4000_0000);
    assert_eq!(class_name(&inside, &GAME, POOL, 0x1000, &mut out), Ok(8));
    assert_eq!(&out[..8], b"Function");
    let outside = with_class(0x1_4800_0000);
    assert_eq!(class_name(&outside, &GAME, POOL, 0x1000, &mut out), Ok(0));
    let mut null = with_class(0x1_4000_0000);
    null.record(0x1010, 8, vec![0; 8]);
    assert_eq!(class_name(&null, &GAME, POOL, 0x1000, &mut out), Ok(0));
}

#[test]
fn unresolved_class_is_shown_as_a_question_mark() {
    let mut b = Buf::new();
    push_class_name(&mut b, &with_class(0x1_4000_0010), &GAME, POOL, 0x1000).unwrap();
    push_class_name(&mut b, &with_class(0x10), &GAME, POOL, 0x1000).unwrap();
    assert_eq!(b.as_bytes(), b"Function?");
    let r = push_class_name(&mut b, &Memory::new(), &GAME, POOL, 0x1000);
    assert_eq!(r, Err(Miss { addr: 0x1010, len: 8 }));
    assert_eq!(b.as_bytes(), b"Function?");
}
