use dna_greendamn::buf::Buf;
use dna_greendamn::cache::{cache_idx, ClassCache, NameCache};
use dna_greendamn::mem::{le_number, read_pointer, read_u16, read_u32, read_u64, Memory, Miss, Module};

#[test]
fn numbers_are_little_endian() {
    let mut m = Memory::new();
    m.record(0x10, 2, vec![0x34, 0x12]);
    m.record(0x10, 4, vec![0x78, 0x56, 0x34, 0x12]);
    m.record(0x10, 8, vec![0xFF; 8]);
    assert_eq!(read_u16(&m, 0x10), Ok(Some(0x1234)));
    assert_eq!(read_u32(&m, 0x10), Ok(Some(0x1234_5678)));
    assert_eq!(read_u64(&m, 0x10), Ok(Some(u64::MAX)));
    assert_eq!(read_pointer(&m, 0x10), Ok(usize::MAX));
    assert_eq!(le_number(&vec![9, 1, 2, 3, 9], 1, 3), 0x03_02_01);
}

#[test]
fn short_reads_give_nothing() {
    let mut m = Memory::new();
    m.record(0x10, 4, vec![1, 2, 3]);
    m.record(0x10, 8, Vec::new());
    assert_eq!(read_u32(&m, 0x10), Ok(None));
    assert_eq!(read_pointer(&m, 0x10), Ok(0));
    assert_eq!(read_u16(&m, 0x10), Err(Miss { addr: 0x10, len: 2 }));
}

#[test]
fn later_answers_replace_earlier_ones_and_surplus_is_dropped() {
    let mut m = Memory::new();
    m.record(0x10, 2, vec![1, 0]);
    m.record(0x10, 2, vec![2, 0, 9, 9]);
    assert_eq!(read_u16(&m, 0x10), Ok(Some(2)));
    assert_eq!(m.raw(0x10, 2).unwrap(), &vec![2, 0]);
}

#[test]
fn image_ends_before_its_size() {
    let g = Module { base: 0x1000, size: 0x100 };
    assert!(!g.contains(0xFFF));
    assert!(g.contains(0x1000));
    assert!(g.contains(0x10FF));
    assert!(!g.contains(0x1100));
    let top = Module { base: usize::MAX - 1, size: 0x100 };
    assert!(top.contains(usize::MAX));
    assert!(!top.contains(0));
}

#[test]
fn lines_are_put_together() {
    let mut b = Buf::new();
    b.push_str("n=");
    b.push_u64(0);
    b.push_byte(b',');
    b.push_u64(18446744073709551615);
    b.push_bytes(b" x");
    b.push_hex(0xBEEF09, 0);
    b.push_byte(b'/');
    b.push_hex(0x2A, 4);
    b.push_byte(b'/');
    b.push_hex(0, 0);
    assert_eq!(b.as_bytes(), b"n=0,18446744073709551615 xBEEF09/002A/0");
}

#[test]
fn written_numbers_read_back() {
    for v in [0u64, 9, 10, 255, 1_000_000, u64::MAX] {
        let mut d = Buf::new();
        d.push_u64(v);
        let text = std::str::from_utf8(d.as_bytes()).unwrap();
        assert_eq!(text.parse::<u64>().unwrap(), v);
        let mut h = Buf::new();
        h.push_hex(v, 0);
        let text = std::str::from_utf8(h.as_bytes()).unwrap();
        assert_eq!(u64::from_str_radix(text, 16).unwrap(), v);
    }
}

#[test]
fn slots_are_the_low_eleven_bits() {
    assert_eq!(cache_idx(0x7FF), 0x7FF);
    assert_eq!(cache_idx(0x800), 0);
    assert_eq!(cache_idx(0x1_2345), 0x345);
}

#[test]
fn class_tags_are_found_until_evicted() {
    let mut c = ClassCache::new();
    assert_eq!(c.get(0x1000), None);
    c.put(0x1000, 2);
    assert_eq!(c.get(0x1000), Some(2));
    assert_eq!(c.get(0x1008), None);
    assert_eq!(c.get(0x1000 + 0x4000), None);
    c.put(0x1008, 1);
    assert_eq!(c.get(0x1000), Some(2));
    c.put(0x1000 + 0x4000, 0);
    assert_eq!(c.get(0x1000), None);
    assert_eq!(c.get(0x1000 + 0x4000), Some(0));
    assert_eq!(c.get(0x1008), Some(1));
}

#[test]
fn name_tags_are_found_until_evicted() {
    let mut c = NameCache::new();
    assert_eq!(c.get(0), None);
    c.put(0, 0);
    assert_eq!(c.get(0), Some(0));
    c.put(5, 1);
    c.put(u32::MAX, 3);
    assert_eq!(c.get(5), Some(1));
    assert_eq!(c.get(u32::MAX), Some(3));
    assert_eq!(c.get(5 + 0x800), None);
    c.put(5 + 0x800, 2);
    assert_eq!(c.get(5), None);
    assert_eq!(c.get(5 + 0x800), Some(2));
}
