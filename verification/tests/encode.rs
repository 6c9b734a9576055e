use hex_to_base64::bytes_to_base64;
use hex_to_base64::hex_to_bytes;

#[test]
fn happy_path_bytes_to_base64_no_padding() {
    // 0x4C, 0x69, 0x75, 0x62, 0x6F, 0x76,
    assert_eq!(
        bytes_to_base64(&[
            u8::from(0x4C),
            u8::from(0x69),
            u8::from(0x75),
            u8::from(0x62),
            u8::from(0x6F),
            u8::from(0x76),
        ]),
        "TGl1Ym92"
    );
}

#[test]
fn happy_path_bytes_to_base64_double_padding() {
    // 0x50, 0x61, 0x74, 0x72, 0x69, 0x63, 0x6B
    assert_eq!(
        bytes_to_base64(&[
            u8::from(0x50),
            u8::from(0x61),
            u8::from(0x74),
            u8::from(0x72),
            u8::from(0x69),
            u8::from(0x63),
            u8::from(0x6B),
        ]),
        "UGF0cmljaw=="
    );
}

#[test]
fn no_bytes_give_no_text() {
    assert_eq!(bytes_to_base64(&[]), "");
}

#[test]
fn one_byte_gives_two_pads() {
    assert_eq!(bytes_to_base64(&[0xFF]), "/w==");
    assert_eq!(bytes_to_base64(&[0x00]), "AA==");
    assert_eq!(bytes_to_base64(b"f"), "Zg==");
}

#[test]
fn two_bytes_give_one_pad() {
    assert_eq!(bytes_to_base64(&[0xFF, 0xFF]), "//8=");
    assert_eq!(bytes_to_base64(&[0x00, 0x00]), "AAA=");
    assert_eq!(bytes_to_base64(b"fo"), "Zm8=");
}

#[test]
fn three_bytes_give_no_pad() {
    assert_eq!(bytes_to_base64(&[0xFF, 0xFF, 0xFF]), "////");
    assert_eq!(bytes_to_base64(&[0x00, 0x00, 0x00]), "AAAA");
    assert_eq!(bytes_to_base64(b"foo"), "Zm9v");
}

#[test]
fn longer_texts_follow_the_groups() {
    assert_eq!(bytes_to_base64(b"foob"), "Zm9vYg==");
    assert_eq!(bytes_to_base64(b"fooba"), "Zm9vYmE=");
    assert_eq!(bytes_to_base64(b"foobar"), "Zm9vYmFy");
    assert_eq!(bytes_to_base64(b"Hello World"), "SGVsbG8gV29ybGQ=");
    assert_eq!(bytes_to_base64(&[0xfb, 0xf0, 0x3e]), "+/A+");
}

#[test]
fn every_symbol_of_the_alphabet_comes_out_in_order() {
    // the 64 six-bit values 0, 1, .., 63 packed into 48 bytes
    let mut bytes = Vec::new();
    let mut v = 0u32;
    while v < 64 {
        let word = (v << 18) | ((v + 1) << 12) | ((v + 2) << 6) | (v + 3);
        bytes.push((word >> 16) as u8);
        bytes.push((word >> 8) as u8);
        bytes.push(word as u8);
        v += 4;
    }
    assert_eq!(
        bytes_to_base64(&bytes),
        "ABCDEFGHIJKLMNOPQRSTUVWXYZabcdefghijklmnopqrstuvwxyz0123456789+/"
    );
}

#[test]
fn the_four_indices_follow_the_bit_packing() {
    // b0 = 0b101010_11, b1 = 0b0011_0101, b2 = 0b01_110010
    // i0 = 0b101010 = 42 'q', i1 = 0b110011 = 51 'z', i2 = 0b010101 = 21 'V', i3 = 0b110010 = 50 'y'
    assert_eq!(bytes_to_base64(&[0b1010_1011, 0b0011_0101, 0b0111_0010]), "qzVy");
    // a last group of two: the fourth symbol gives way to the pad
    assert_eq!(bytes_to_base64(&[0b1010_1011, 0b0011_0101]), "qzU=");
    // a last group of one: the second symbol holds only the low two bits of b0
    assert_eq!(bytes_to_base64(&[0b1010_1011]), "qw==");
}

#[test]
fn length_is_four_for_every_started_group() {
    for n in 0..100usize {
        let bytes = vec![0xA5u8; n];
        let text = bytes_to_base64(&bytes);
        assert_eq!(text.len(), 4 * ((n + 2) / 3), "{}", n);
        assert_eq!(text.len() % 4, 0);
    }
}

#[test]
fn text_is_alphabet_then_padding() {
    for n in 0..60usize {
        let bytes: Vec<u8> = (0..n).map(|i| (i * 37 + 11) as u8).collect();
        let text = bytes_to_base64(&bytes);
        let pads = match n % 3 {
            1 => 2,
            2 => 1,
            _ => 0,
        };
        let (body, end) = text.split_at(text.len() - pads);
        assert!(body.chars().all(|c| c.is_ascii_alphanumeric() || c == '+' || c == '/'));
        assert!(end.chars().all(|c| c == '='));
    }
}

#[test]
fn padding_does_not_depend_on_zero_bytes() {
    // a real zero byte is a byte: no pad takes its place
    assert_eq!(bytes_to_base64(&[0x4D, 0x00, 0x00]), "TQAA");
    assert_eq!(bytes_to_base64(&[0x4D, 0x00]), "TQA=");
    assert_eq!(bytes_to_base64(&[0x4D]), "TQ==");
}

#[test]
fn hex_text_goes_through_to_base64() {
    let bytes = hex_to_bytes("48656c6c6f20576f726c64").unwrap();
    assert_eq!(bytes_to_base64(&bytes), "SGVsbG8gV29ybGQ=");
    let bytes = hex_to_bytes("4C6975626F76").unwrap();
    assert_eq!(bytes_to_base64(&bytes), "TGl1Ym92");
    let bytes = hex_to_bytes("5061747269636b").unwrap();
    assert_eq!(bytes_to_base64(&bytes), "UGF0cmljaw==");
}

#[test]
fn the_sample_of_odd_length_is_refused() {
    assert!(hex_to_bytes("48656c6c6f20576f726c644").is_err());
}
