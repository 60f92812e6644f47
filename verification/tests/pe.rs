use whimper::pe::{padded_length, PeImage};

fn put(file: &mut [u8], at: usize, bytes: &[u8]) {
    file[at..at + bytes.len()].copy_from_slice(bytes);
}

fn fixture() -> Vec<u8> {
    let mut file = vec![0; 0x800];
    put(&mut file, 0, b"MZ");
    put(&mut file, 0x3c, &0x80u32.to_le_bytes());
    put(&mut file, 0x80, b"PE\0\0");
    put(&mut file, 0x84, &0x8664u16.to_le_bytes());
    put(&mut file, 0x86, &2u16.to_le_bytes());
    put(&mut file, 0x94, &0xf0u16.to_le_bytes());
    let opt = 0x98;
    put(&mut file, opt, &0x20bu16.to_le_bytes());
    put(&mut file, opt + 16, &0x1000u32.to_le_bytes());
    put(&mut file, opt + 24, &0x140000000u64.to_le_bytes());
    put(&mut file, opt + 56, &0x3000u32.to_le_bytes());
    put(&mut file, opt + 60, &0x200u32.to_le_bytes());
    let text = opt + 0xf0;
    put(&mut file, text, b".text");
    put(&mut file, text + 8, &0x20u32.to_le_bytes());
    put(&mut file, text + 12, &0x1000u32.to_le_bytes());
    put(&mut file, text + 16, &0x10u32.to_le_bytes());
    put(&mut file, text + 20, &0x400u32.to_le_bytes());
    put(&mut file, text + 36, &0x60000020u32.to_le_bytes());
    let data = text + 40;
    put(&mut file, data, b".data");
    put(&mut file, data + 8, &0x30u32.to_le_bytes());
    put(&mut file, data + 12, &0x2000u32.to_le_bytes());
    put(&mut file, data + 16, &0x10u32.to_le_bytes());
    put(&mut file, data + 20, &0x600u32.to_le_bytes());
    put(&mut file, data + 36, &0xc0000040u32.to_le_bytes());
    file[0x400..0x410].fill(0x90);
    file[0x600..0x610].fill(0x42);
    file
}

#[test]
fn maps_code_data_and_zero_filled_tails() {
    let image = PeImage::parse(&fixture()).unwrap();
    assert_eq!(image.image_base(), 0x140000000);
    assert_eq!(image.entry_point(), 0x140001000);
    assert_eq!(image.read(0x140001000, 1), Some(&[0x90][..]));
    assert_eq!(image.read(0x140002000, 1), Some(&[0x42][..]));
    assert_eq!(image.read(0x140002010, 1), Some(&[0][..]));
    assert_eq!(image.read(0x14000101f, 1), Some(&[0][..]));
    assert!(image.read(0x140001020, 1).is_none());
    assert!(image.read(0x140001000, 0x1001).is_none());
    assert!(image.executable_bytes_at(0x140002000).is_none());
    assert_eq!(image.executable_bytes_at(0x140001000).unwrap().len(), 0x20);
}

#[test]
fn rejects_truncated_and_overlapping_sections() {
    let mut file = fixture();
    file.truncate(0x608);
    assert!(PeImage::parse(&file).is_err());
    let mut file = fixture();
    let data_va = 0x98 + 0xf0 + 40 + 12;
    put(&mut file, data_va, &0x1010u32.to_le_bytes());
    assert!(PeImage::parse(&file).is_err());
}

#[test]
fn excludes_file_alignment_padding_from_virtual_section() {
    let mut file = fixture();
    let text_virtual_size = 0x98 + 0xf0 + 8;
    put(&mut file, text_virtual_size, &8u32.to_le_bytes());
    let image = PeImage::parse(&file).unwrap();
    assert_eq!(
        image.executable_bytes_at(image.entry_point()).unwrap().len(),
        8
    );
    assert!(image.read(image.entry_point() + 8, 1).is_none());
}

#[test]
fn reads_across_adjacent_mapped_sections() {
    let mut file = fixture();
    let data_va = 0x98 + 0xf0 + 40 + 12;
    put(&mut file, data_va, &0x1020u32.to_le_bytes());
    let image = PeImage::parse(&file).unwrap();
    assert_eq!(image.read(0x14000101f, 2), Some(&[0, 0x42][..]));
}

#[test]
fn names_the_sections() {
    let image = PeImage::parse(&fixture()).unwrap();
    let sections = image.sections();
    assert_eq!(sections.len(), 2);
    assert_eq!(sections[0].name, ".text");
    assert!(sections[0].is_executable());
    assert_eq!(sections[1].name, ".data");
    assert!(!sections[1].is_executable());
    assert_eq!(image.section_at(0x140002001).unwrap().name, ".data");
    assert!(image.section_at(0x140001020).is_none());
}

#[test]
fn replaces_what_is_no_text_in_names() {
    let mut file = fixture();
    put(&mut file, 0x188, &[b'a', 0xff, b'b', 0xc3, 0xa9, 0, b'x', b'y']);
    let image = PeImage::parse(&file).unwrap();
    assert_eq!(image.sections()[0].name, "a\u{fffd}b\u{e9}");
    assert!(format!("{:?}", image.sections()[0]).starts_with("Section { name: "));
}

fn error_of(file: &[u8]) -> String {
    match PeImage::parse(file) {
        Ok(_) => panic!("an image"),
        Err(error) => error,
    }
}

#[test]
fn says_why_a_file_is_no_image() {
    let mut file = fixture();
    file[0] = b'Z';
    assert_eq!(error_of(&file), "missing DOS signature");
    let mut file = fixture();
    file[0x80] = 0;
    assert_eq!(error_of(&file), "missing PE signature");
    let mut file = fixture();
    put(&mut file, 0x84, &0x14cu16.to_le_bytes());
    assert_eq!(error_of(&file), "only x86_64 PE images are supported");
    let mut file = fixture();
    put(&mut file, 0x98, &0x10bu16.to_le_bytes());
    assert_eq!(error_of(&file), "expected a PE32+ optional header");
    let mut file = fixture();
    put(&mut file, 0x98 + 56, &0u32.to_le_bytes());
    assert_eq!(error_of(&file), "invalid PE image or header size");
    let mut file = fixture();
    put(&mut file, 0x98 + 16, &0x3000u32.to_le_bytes());
    assert_eq!(error_of(&file), "entry point is outside the PE image");
    let mut file = fixture();
    put(&mut file, 0x98 + 24, &u64::MAX.to_le_bytes());
    assert_eq!(error_of(&file), "PE virtual address overflow");
    let mut file = fixture();
    put(&mut file, 0x98 + 60, &0x100u32.to_le_bytes());
    assert_eq!(
        error_of(&file),
        "PE section table extends beyond mapped headers"
    );
    let mut file = fixture();
    put(&mut file, 0x98 + 0xf0 + 40 + 12, &0x1010u32.to_le_bytes());
    assert_eq!(error_of(&file), "invalid or overlapping section .data");
    let mut file = fixture();
    put(&mut file, 0x98 + 16, &0x2000u32.to_le_bytes());
    assert_eq!(error_of(&file), "entry point is outside executable sections");
}

#[test]
fn a_read_is_the_join_of_its_parts() {
    let image = PeImage::parse(&fixture()).unwrap();
    let first = image.read(0x140001000, 0x10).unwrap();
    let second = image.read(0x140001010, 0x10).unwrap();
    let whole = image.read(0x140001000, 0x20).unwrap();
    assert_eq!(&whole[..0x10], first);
    assert_eq!(&whole[0x10..], second);
    assert_eq!(image.read(0x140000000, 2), Some(&b"MZ"[..]));
}

#[test]
fn sections_lie_behind_the_headers() {
    let mut file = fixture();
    put(&mut file, 0x98 + 0xf0 + 12, &0x1ffu32.to_le_bytes());
    put(&mut file, 0x98 + 16, &0x200u32.to_le_bytes());
    assert_eq!(error_of(&file), "invalid or overlapping section .text");
    let mut file = fixture();
    put(&mut file, 0x98 + 0xf0 + 12, &0x200u32.to_le_bytes());
    put(&mut file, 0x98 + 16, &0x200u32.to_le_bytes());
    assert_eq!(PeImage::parse(&file).unwrap().read(0x140000200, 1), Some(&[0x90][..]));
}

#[test]
fn a_function_ends_at_its_padding() {
    assert_eq!(padded_length(&[0xc3, 0xcc, 0xcc]), Some(1));
    assert_eq!(padded_length(&[0x90, 0xc3]), None);
}
