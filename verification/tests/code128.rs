use barcoders::error::Error;
use barcoders::sym::code128::Code128;
use barcoders::sym::code128::Unit;

#[test]
fn new_code128() {
    let code128 = Code128::new("12120".to_owned());

    assert!(code128.is_ok());
}

#[test]
fn code128_raw_data() {
    let code128 = Code128::new("12001".to_owned()).unwrap();

    assert_eq!(
        code128.raw_data(),
        &[
            Unit::A('1'),
            Unit::A('2'),
            Unit::A('0'),
            Unit::A('0'),
            Unit::A('1'),
        ]
    );
}

#[test]
fn invalid_data_code128() {
    let code128 = Code128::new("\u{263a} ".to_owned());

    assert_eq!(code128.err().unwrap(), Error::Character);
}

#[test]
fn invalid_len_code128() {
    let code128 = Code128::new("".to_owned());

    assert_eq!(code128.err().unwrap(), Error::Length);
}

#[test]
fn directive_only_is_length_error() {
    let code128 = Code128::new("\\a".to_owned());

    assert_eq!(code128.err().unwrap(), Error::Length);
}

#[test]
fn set_switch_round_trip() {
    // "\aHE\c1234": set A units for H and E, then set C digit pairs.
    let code128 = Code128::new("\\aHE\\c1234".to_owned()).unwrap();

    assert_eq!(
        code128.raw_data(),
        &[
            Unit::A('H'),
            Unit::A('E'),
            Unit::C('1', '2'),
            Unit::C('3', '4'),
        ]
    );

    // Start + H + E + switch-to-C + "12" + "34" + checksum, stop, termination.
    let encoded = code128.encode();
    assert_eq!(encoded.len(), 11 * (1 + 4 + 1 + 1) + 13 + 1);

    // The switch-to-C code (value 99) sits right after the two set A units.
    assert_eq!(&encoded[33..44], &[1, 0, 1, 1, 1, 0, 1, 1, 1, 1, 0]);
}

#[test]
fn literal_backslash_is_not_a_switch() {
    // "\b\\a": a doubled backslash encodes one literal backslash, so the
    // trailing 'a' is a data character of set B, not a directive.
    let code128 = Code128::new("\\b\\\\a".to_owned()).unwrap();

    assert_eq!(code128.raw_data(), &[Unit::B('\\'), Unit::B('a')]);
}

#[test]
fn literal_backslash_in_set_a() {
    let code128 = Code128::new("\\\\0".to_owned()).unwrap();

    assert_eq!(code128.raw_data(), &[Unit::A('\\'), Unit::A('0')]);
}

#[test]
fn odd_digits_in_set_c() {
    let code128 = Code128::new("\\c123".to_owned());

    assert_eq!(code128.err().unwrap(), Error::Character);
}

#[test]
fn odd_digits_before_switch() {
    let code128 = Code128::new("\\c1\\a0".to_owned());

    assert_eq!(code128.err().unwrap(), Error::Character);
}

#[test]
fn non_digit_in_set_c() {
    let code128 = Code128::new("\\c1x".to_owned());

    assert_eq!(code128.err().unwrap(), Error::Character);
}

#[test]
fn lone_trailing_backslash() {
    let code128 = Code128::new("ABC\\".to_owned());

    assert_eq!(code128.err().unwrap(), Error::Character);
}

#[test]
fn unknown_directive() {
    let code128 = Code128::new("\\d0".to_owned());

    assert_eq!(code128.err().unwrap(), Error::Character);
}

#[test]
fn lowercase_needs_set_b() {
    assert_eq!(
        Code128::new("hello".to_owned()).err().unwrap(),
        Error::Character
    );
    assert!(Code128::new("\\bhello".to_owned()).is_ok());
}

#[test]
fn checksum_modulo_103() {
    // Start A (103) * 1 + '1' (17) * 1 + '2' (18) * 2 = 156; 156 mod 103 = 53.
    let code128 = Code128::new("12".to_owned()).unwrap();

    assert_eq!(code128.checksum_unit(), Some(53));
}

#[test]
fn checksum_in_set_c() {
    // Start C (105) * 1 + 0 * 1 + 0 * 2 = 105; 105 mod 103 = 2.
    let code128 = Code128::new("\\c0000".to_owned()).unwrap();

    assert_eq!(code128.raw_data(), &[Unit::C('0', '0'), Unit::C('0', '0')]);
    assert_eq!(code128.checksum_unit(), Some(2));
}

#[test]
fn checksum_deterministic() {
    let first = Code128::new("\\bBarcode".to_owned()).unwrap();
    let second = Code128::new("\\bBarcode".to_owned()).unwrap();

    assert_eq!(first.checksum_unit(), second.checksum_unit());
    assert_eq!(first.checksum_unit(), first.checksum_unit());
}

#[test]
fn encode_exact_modules() {
    // "0": start A (103), then '0' (value 16); checksum 119 mod 103 = 16.
    let code128 = Code128::new("0".to_owned()).unwrap();

    let expected: Vec<u8> = vec![
        1, 1, 0, 1, 0, 0, 0, 0, 1, 0, 0, // start A
        1, 0, 0, 1, 1, 1, 0, 1, 1, 0, 0, // '0'
        1, 0, 0, 1, 1, 1, 0, 1, 1, 0, 0, // checksum, also value 16
        1, 1, 0, 0, 0, 1, 1, 1, 0, 1, 0, 1, 1, // stop
        0, // termination
    ];
    assert_eq!(code128.encode(), expected);
}

#[test]
fn encode_length_and_binary_modules() {
    let code128 = Code128::new("\\bHE1234A*1".to_owned()).unwrap();

    let encoded = code128.encode();
    // Start + 9 data units + checksum, no switch, stop, termination.
    assert_eq!(encoded.len(), 11 * (1 + 9 + 0 + 1) + 13 + 1);
    assert!(encoded.iter().all(|&m| m == 0 || m == 1));
}

#[test]
fn encode_idempotent() {
    let code128 = Code128::new("\\aHE@$A\\c123456".to_owned()).unwrap();

    assert_eq!(code128.encode(), code128.encode());
}

#[test]
fn control_character_in_set_a() {
    // Horizontal tab has code 9, value 9 + 64 = 73 in set A.
    let code128 = Code128::new("\u{0009}".to_owned()).unwrap();

    assert_eq!(code128.raw_data(), &[Unit::A('\u{0009}')]);
    // 103 + 73 = 176; 176 mod 103 = 73.
    assert_eq!(code128.checksum_unit(), Some(73));
}
