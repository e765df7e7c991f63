use mips_assembler::emitter::{emit, to_hex};

#[test]
fn hex_of_word() {
    assert_eq!(to_hex(0x012A4020), "0x012a4020");
    assert_eq!(to_hex(0), "0x00000000");
    assert_eq!(to_hex(0xFFFF_FFFF), "0xffffffff");
}

#[test]
fn image_groups_four_words_per_line() {
    let out = emit(&vec![1, 2, 3, 4, 0xABCDEF01]);
    assert_eq!(
        out,
        "v2.0 raw\n0x00000001 0x00000002 0x00000003 0x00000004\n0xabcdef01 "
    );
}

#[test]
fn empty_image_is_header() {
    assert_eq!(emit(&Vec::new()), "v2.0 raw\n");
}
