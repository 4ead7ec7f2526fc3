//! Tests of the storage backends, the program image and the memory map.

use mips_cpu::exception::Exception;
use mips_cpu::mem::MemoryMap;
use mips_cpu::program::Context;
use mips_cpu::program::ProgramData;
use mips_cpu::program::Section;
use mips_cpu::storage::continuous::Continuous;
use mips_cpu::storage::hybrid_store::HybridStore;
use mips_cpu::storage::segmented_store::SegmentedStore;

fn text_image(bytes: &[u8]) -> MemoryMap {
    let program = ProgramData::builder().text(bytes.to_vec()).build();
    MemoryMap::from_program(program)
}

#[test]
fn continuous_reads_little_endian() {
    let mut store = Continuous::init(16);
    store.write_byte(0, 0x21);
    store.write_byte(1, 0x50);
    store.write_byte(2, 0x09);
    store.write_byte(3, 0x01);
    assert_eq!(store.read_byte(0), Some(0x21));
    assert_eq!(store.read_halfword(0), Some(0x5021));
    assert_eq!(store.read_word(0), Some(0x01095021));
    assert_eq!(store.read_byte(4), None);
    assert_eq!(store.read_word(1), None);
}

#[test]
fn continuous_write_pads_with_zeroes() {
    let mut store = Continuous::init(16);
    store.write_byte(3, 0xaa);
    assert_eq!(store.read_byte(0), Some(0));
    assert_eq!(store.read_byte(2), Some(0));
    assert_eq!(store.read_byte(3), Some(0xaa));
    assert_eq!(store.read_word(0), Some(0xaa000000));
}

#[test]
fn segmented_store_zero_fills_frames() {
    let mut store = SegmentedStore::new();
    assert_eq!(store.read_byte(100), None);
    store.write(100, &[0xab]);
    assert_eq!(store.read_byte(100), Some(0xab));
    // the rest of the touched frame reads as zero
    assert_eq!(store.read_byte(0), Some(0));
    assert_eq!(store.read_byte(2047), Some(0));
    // the next frame is still absent
    assert_eq!(store.read_byte(2048), None);
}

#[test]
fn segmented_store_word_across_frames() {
    let mut store = SegmentedStore::new();
    store.write(2046, &[0x11, 0x22, 0x33, 0x44]);
    assert_eq!(store.read_word(2046), Some(0x44332211));
    assert_eq!(store.read_halfword(2047), Some(0x3322));
    // both frames were allocated by the straddling write
    assert_eq!(store.read_byte(2045), Some(0));
    assert_eq!(store.read_byte(2048), Some(0x33));
    assert_eq!(store.read_byte(2049), Some(0x44));
    assert_eq!(store.read_byte(2050), Some(0));
    assert_eq!(store.read_byte(4096), None);
}

#[test]
fn segmented_store_find_segment() {
    let mut store = SegmentedStore::new();
    store.write(5000, &[9]);
    let segment = store.find_segment(5000).expect("frame must exist");
    assert_eq!(segment.start(), 4096);
    assert_eq!(segment.end(), 6144);
    assert!(segment.contains(5000));
    assert!(!segment.contains(6144));
    assert_eq!(segment.to_relative_index(5000), Some(904));
    assert!(store.find_segment(100).is_none());
    assert_eq!(store.read_continuous(6000).map(|s| s.len()), Some(144));
}

#[test]
fn hybrid_store_regions_and_fallback() {
    let mut store = HybridStore::new();
    store.insert_continuous(4, vec![0xde, 0xad]);
    assert_eq!(store.read_byte(4), Some(0xde));
    assert_eq!(store.read_byte(5), Some(0xad));
    assert_eq!(store.read_byte(3), None);
    assert_eq!(store.read_byte(6), None);
    // fill the fallback around the region: mixed-provenance reads compose
    store.fallback.write(6, &[0xbe, 0xef]);
    assert_eq!(store.read_word(4), Some(0xefbeadde));
    assert_eq!(store.read(4).map(|s| s.len()), Some(2));
}

#[test]
fn program_image_read_policy() {
    let program = ProgramData::builder().text(vec![1, 2, 3, 4]).build();
    assert!(program.read(Section::Text, Context::User).is_some());
    assert!(program.read(Section::Data, Context::User).is_some());
    assert!(program.read(Section::Ktext, Context::User).is_none());
    assert!(program.read(Section::Kdata, Context::User).is_none());
    assert!(program.read(Section::Ktext, Context::Kernel).is_some());
    assert!(program.read(Section::Text, Context::External).is_none());
    assert!(program.read(Section::Extern, Context::External).is_some());

    let io = program.read(Section::Text, Context::User).unwrap();
    assert_eq!(io.read_byte(0), Some(1));
    assert_eq!(io.read_halfword(0), Some(0x0201));
    assert_eq!(io.read_word(0), Some(0x04030201));
    assert_eq!(io.read_byte(4), None);
}

#[test]
fn program_image_write_policy() {
    let mut program = ProgramData::builder().build();
    assert!(program.write_byte(Section::Data, Context::User, 0, 1));
    assert!(program.write_byte(Section::Heap, Context::User, 0, 1));
    assert!(!program.write_byte(Section::Text, Context::User, 0, 1));
    assert!(!program.write_byte(Section::Extern, Context::User, 0, 1));
    assert!(program.write_byte(Section::Extern, Context::External, 0, 1));
    assert!(program.write_byte(Section::Kdata, Context::Kernel, 0, 1));
    assert!(!program.write_byte(Section::Ktext, Context::Kernel, 0, 1));
}

#[test]
fn program_labels_start_empty() {
    let program = ProgramData::builder().build();
    assert_eq!(program.labels(Section::Text).len(), 0);
    assert_eq!(program.labels(Section::Data).len(), 0);
}

#[test]
fn text_load_is_little_endian_bytes() {
    let mm = text_image(&[0x21, 0x50, 0x09, 0x01, 0xaa, 0xbb, 0xcc, 0xdd]);
    assert_eq!(mm.load_word(0x00400000), Ok(0x01095021));
    assert_eq!(mm.load_word(0x00400004), Ok(0xddccbbaa));
    assert_eq!(mm.load_halfword(0x00400002), Ok(0x0109));
    assert_eq!(mm.load_byte(0x00400003), Ok(0x01));
}

#[test]
fn loads_of_absent_bytes_in_valid_sections_are_zero() {
    let mm = text_image(&[0x21]);
    assert_eq!(mm.load_word(0x00400100), Ok(0));
    assert_eq!(mm.load_byte(0x10010000), Ok(0));
    assert_eq!(mm.load_word(0x10040000), Ok(0));
}

#[test]
fn loads_outside_sections_or_denied_raise() {
    let mm = text_image(&[]);
    assert_eq!(mm.load_byte(0x00000000), Err(Exception::AddrLoadFetch));
    assert_eq!(mm.load_byte(0x003fffff), Err(Exception::AddrLoadFetch));
    assert_eq!(mm.load_word(0x80000000), Err(Exception::AddrLoadFetch));
    assert_eq!(mm.load_byte(0x90000000), Err(Exception::AddrLoadFetch));
    assert_eq!(mm.load_byte(0xffffffff), Err(Exception::AddrLoadFetch));
}

#[test]
fn misaligned_loads_raise() {
    let mm = text_image(&[1, 2, 3, 4]);
    assert_eq!(mm.load_word(0x00400001), Err(Exception::AddrLoadFetch));
    assert_eq!(mm.load_word(0x00400002), Err(Exception::AddrLoadFetch));
    assert_eq!(mm.load_halfword(0x00400001), Err(Exception::AddrLoadFetch));
}

#[test]
fn store_then_load_round_trips_in_data() {
    let mut mm = text_image(&[]);
    assert_eq!(mm.store_word(0x10010008, 0xdeadbeef), Ok(()));
    assert_eq!(mm.load_word(0x10010008), Ok(0xdeadbeef));
    assert_eq!(mm.load_byte(0x10010008), Ok(0xef));
    assert_eq!(mm.load_byte(0x1001000b), Ok(0xde));
    assert_eq!(mm.store_halfword(0x10010004, 0xbead), Ok(()));
    assert_eq!(mm.load_halfword(0x10010004), Ok(0xbead));
    assert_eq!(mm.store_byte(0x10010006, 0x42), Ok(()));
    assert_eq!(mm.load_byte(0x10010006), Ok(0x42));
}

#[test]
fn store_then_load_round_trips_in_heap() {
    let mut mm = text_image(&[]);
    assert_eq!(mm.store_word(0x10040800, 0x01020304), Ok(()));
    assert_eq!(mm.load_word(0x10040800), Ok(0x01020304));
    // neighbours in the touched frame surface as zero
    assert_eq!(mm.load_word(0x10040804), Ok(0));
}

#[test]
fn stores_refused_where_policy_or_alignment_forbid() {
    let mut mm = text_image(&[1, 2, 3, 4]);
    assert_eq!(mm.store_word(0x00400000, 5), Err(Exception::AddrStore));
    assert_eq!(mm.load_word(0x00400000), Ok(0x04030201));
    assert_eq!(mm.store_word(0x10010001, 5), Err(Exception::AddrStore));
    assert_eq!(mm.store_halfword(0x10010001, 5), Err(Exception::AddrStore));
    assert_eq!(mm.store_byte(0x00000000, 5), Err(Exception::AddrStore));
    assert_eq!(mm.store_word(0x90000000, 5), Err(Exception::AddrStore));
}
