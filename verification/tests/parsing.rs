use usb_wait::device_id::{parse_device, DeviceID, Error};
use usb_wait::text::Printable;
use usb_wait::hex::{chars_of, hex_digit, parse_hex_u16, to_hex};

#[test]
fn parses_two_lower_case_fields() {
    assert_eq!(parse_device("1d6b:0002"), Ok(DeviceID { vid: 0x1d6b, pid: 0x0002 }));
    assert_eq!(parse_device("46d:c52b"), Ok(DeviceID { vid: 0x046d, pid: 0xc52b }));
}

#[test]
fn parses_upper_and_mixed_case() {
    assert_eq!(parse_device("1D6B:ABCD"), Ok(DeviceID { vid: 0x1d6b, pid: 0xabcd }));
    assert_eq!(parse_device("aBcD:Ef01"), Ok(DeviceID { vid: 0xabcd, pid: 0xef01 }));
    assert_eq!(parse_device("ABCD:EF01"), parse_device("abcd:ef01"));
}

#[test]
fn parses_the_ends_of_the_range() {
    assert_eq!(parse_device("0:0"), Ok(DeviceID { vid: 0, pid: 0 }));
    assert_eq!(parse_device("ffff:FFFF"), Ok(DeviceID { vid: 0xffff, pid: 0xffff }));
}

#[test]
fn leading_zeros_do_not_count() {
    assert_eq!(parse_device("0000001d6b:00000000000000000002"), Ok(DeviceID { vid: 0x1d6b, pid: 2 }));
}

#[test]
fn text_without_colon_misses_the_separator() {
    assert_eq!(parse_device("1d6b"), Err(Error::MissingSeparator));
    assert_eq!(parse_device(""), Err(Error::MissingSeparator));
    assert_eq!(parse_device("1d6b-0002"), Err(Error::MissingSeparator));
    assert_eq!(parse_device("not hex at all"), Err(Error::MissingSeparator));
}

#[test]
fn bad_first_field_is_an_invalid_vid() {
    assert_eq!(parse_device("xyz:1"), Err(Error::InvalidVID(String::from("xyz"))));
    assert_eq!(parse_device("12g4:1"), Err(Error::InvalidVID(String::from("12g4"))));
    assert_eq!(parse_device(" 1:2"), Err(Error::InvalidVID(String::from(" 1"))));
    assert_eq!(parse_device("0x1d6b:2"), Err(Error::InvalidVID(String::from("0x1d6b"))));
    assert_eq!(parse_device("-1:2"), Err(Error::InvalidVID(String::from("-1"))));
    assert_eq!(parse_device("+1:2"), Err(Error::InvalidVID(String::from("+1"))));
}

#[test]
fn empty_first_field_is_an_invalid_vid() {
    assert_eq!(parse_device(":1"), Err(Error::InvalidVID(String::new())));
    assert_eq!(parse_device(":"), Err(Error::InvalidVID(String::new())));
}

#[test]
fn first_field_over_sixteen_bits_is_an_invalid_vid() {
    assert_eq!(parse_device("10000:1"), Err(Error::InvalidVID(String::from("10000"))));
    assert_eq!(parse_device("fffff:1"), Err(Error::InvalidVID(String::from("fffff"))));
    assert_eq!(
        parse_device("123456789abcdef0123456789:1"),
        Err(Error::InvalidVID(String::from("123456789abcdef0123456789")))
    );
}

#[test]
fn bad_second_field_is_an_invalid_pid() {
    assert_eq!(parse_device("1:g"), Err(Error::InvalidPID(String::from("g"))));
    assert_eq!(parse_device("1d6b:00 2"), Err(Error::InvalidPID(String::from("00 2"))));
    assert_eq!(parse_device("1:"), Err(Error::InvalidPID(String::new())));
    assert_eq!(parse_device("1:10000"), Err(Error::InvalidPID(String::from("10000"))));
}

#[test]
fn the_first_bad_field_is_named() {
    assert_eq!(parse_device("zz:yy"), Err(Error::InvalidVID(String::from("zz"))));
    assert_eq!(parse_device("10000:10000"), Err(Error::InvalidVID(String::from("10000"))));
}

#[test]
fn fields_after_the_second_are_not_looked_at() {
    assert_eq!(parse_device("1:2:zz"), Ok(DeviceID { vid: 1, pid: 2 }));
    assert_eq!(parse_device("1:2:"), Ok(DeviceID { vid: 1, pid: 2 }));
    assert_eq!(parse_device("1d6b:2:3:4"), Ok(DeviceID { vid: 0x1d6b, pid: 2 }));
    assert_eq!(parse_device("1::2"), Err(Error::InvalidPID(String::new())));
    assert_eq!(parse_device("1:x:2"), Err(Error::InvalidPID(String::from("x"))));
}

#[test]
fn characters_outside_ascii_are_no_digits() {
    assert_eq!(parse_device("\u{e9}1:2"), Err(Error::InvalidVID(String::from("\u{e9}1"))));
    assert_eq!(parse_device("1:\u{ff12}"), Err(Error::InvalidPID(String::from("\u{ff12}"))));
    assert_eq!(parse_device("\u{e9}\u{e9}:\u{e9}:f"), Err(Error::InvalidVID(String::from("\u{e9}\u{e9}"))));
    assert_eq!(parse_device("a\u{ff1a}b"), Err(Error::MissingSeparator));
}

#[test]
fn identifier_is_written_in_lower_case_hex() {
    assert_eq!(DeviceID { vid: 0x1d6b, pid: 0x0002 }.to_text(), "1d6b:2");
    assert_eq!(DeviceID { vid: 0, pid: 0 }.to_text(), "0:0");
    assert_eq!(DeviceID { vid: 0xffff, pid: 0xABCD }.to_text(), "ffff:abcd");
    assert_eq!(DeviceID { vid: 0x046d, pid: 0xc52b }.to_text(), "46d:c52b");
}

#[test]
fn identifier_is_written_as_the_standard_formatter_writes_it() {
    let samples: [u16; 12] = [0, 1, 9, 10, 15, 16, 0xff, 0x100, 0xfff, 0x1000, 0xabcd, 0xffff];
    for vid in samples {
        for pid in samples {
            assert_eq!(DeviceID { vid, pid }.to_text(), format!("{:x}:{:x}", vid, pid));
        }
    }
}

#[test]
fn written_identifier_is_read_back() {
    let samples: [u16; 10] = [0, 1, 0xf, 0x10, 0xa0, 0x123, 0x1d6b, 0x8000, 0xfffe, 0xffff];
    for vid in samples {
        for pid in samples {
            let id = DeviceID { vid, pid };
            assert_eq!(parse_device(&id.to_text()), Ok(id));
            assert_eq!(parse_device(&id.to_text().to_uppercase()), Ok(id));
        }
    }
}

#[test]
fn every_vendor_id_is_read_back() {
    let mut vid: u16 = 0;
    loop {
        let id = DeviceID { vid, pid: !vid };
        assert_eq!(parse_device(&id.to_text()), Ok(id));
        if vid == u16::MAX {
            break;
        }
        vid += 1;
    }
}

#[test]
fn identifiers_compare_by_both_fields() {
    assert_eq!(DeviceID { vid: 1, pid: 2 }, DeviceID { vid: 1, pid: 2 });
    assert_ne!(DeviceID { vid: 1, pid: 2 }, DeviceID { vid: 2, pid: 1 });
    assert_ne!(DeviceID { vid: 1, pid: 2 }, DeviceID { vid: 1, pid: 3 });
}

#[test]
fn errors_say_what_is_wrong() {
    assert_eq!(Error::MissingSeparator.to_text(), "missing : separator");
    assert_eq!(Error::InvalidVID(String::from("xyz")).to_text(), "invalid hex VID xyz");
    assert_eq!(Error::InvalidPID(String::from("10000")).to_text(), "invalid hex PID 10000");
    assert_eq!(Error::InvalidVID(String::new()).to_text(), "invalid hex VID ");
}

#[test]
fn parse_errors_carry_their_message() {
    let refused = parse_device("1d6b:xyz").unwrap_err();
    assert_eq!(refused.to_text(), "invalid hex PID xyz");
    let refused = parse_device("1d6b").unwrap_err();
    assert_eq!(refused.to_text(), "missing : separator");
}

#[test]
fn hex_digits_have_their_values() {
    assert_eq!(hex_digit('0'), Some(0));
    assert_eq!(hex_digit('9'), Some(9));
    assert_eq!(hex_digit('a'), Some(10));
    assert_eq!(hex_digit('f'), Some(15));
    assert_eq!(hex_digit('A'), Some(10));
    assert_eq!(hex_digit('F'), Some(15));
    assert_eq!(hex_digit('g'), None);
    assert_eq!(hex_digit('G'), None);
    assert_eq!(hex_digit(':'), None);
    assert_eq!(hex_digit('/'), None);
    assert_eq!(hex_digit('@'), None);
    assert_eq!(hex_digit('`'), None);
    assert_eq!(hex_digit(' '), None);
}

#[test]
fn hex_tokens_are_read_as_the_standard_parser_reads_them() {
    let tokens = [
        "0", "1", "f", "F", "10", "ff", "FFFF", "ffff", "10000", "0ffff", "00000", "abcd",
        "AbCd", "g", "", " ", "1 ", "12345", "0x10", "fffg", "7fff", "8000",
    ];
    for token in tokens {
        assert_eq!(parse_hex_u16(token), u16::from_str_radix(token, 16).ok());
    }
}

#[test]
fn hex_tokens_take_no_sign() {
    assert_eq!(parse_hex_u16("+1"), None);
    assert_eq!(parse_hex_u16("-1"), None);
    assert_eq!(parse_hex_u16("+"), None);
}

#[test]
fn hex_token_values_are_exact() {
    assert_eq!(parse_hex_u16("ffff"), Some(65535));
    assert_eq!(parse_hex_u16("1d6b"), Some(7531));
    assert_eq!(parse_hex_u16("0000000000000001"), Some(1));
    assert_eq!(parse_hex_u16("10000"), None);
    assert_eq!(parse_hex_u16(""), None);
}

#[test]
fn numbers_are_written_without_leading_zeros() {
    assert_eq!(to_hex(0), "0");
    assert_eq!(to_hex(0xf), "f");
    assert_eq!(to_hex(0x10), "10");
    assert_eq!(to_hex(0xabc), "abc");
    assert_eq!(to_hex(0xffff), "ffff");
}

#[test]
fn characters_are_listed_one_by_one() {
    assert_eq!(chars_of("1d:2"), vec!['1', 'd', ':', '2']);
    assert_eq!(chars_of(""), Vec::<char>::new());
    assert_eq!(chars_of("\u{e9}:\u{ff12}"), vec!['\u{e9}', ':', '\u{ff12}']);
}

#[test]
fn long_texts_are_read_too() {
    let zeros = "0".repeat(5000);
    let text = format!("{}1d6b:{}2", zeros, zeros);
    assert_eq!(parse_device(&text), Ok(DeviceID { vid: 0x1d6b, pid: 2 }));
    let long = "f".repeat(5000);
    assert_eq!(parse_device(&format!("{}:1", long)), Err(Error::InvalidVID(long)));
}
