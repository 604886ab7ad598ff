use nom_sql_learning::scan::{byte, eof, line_ending, run1, skip, to_ascii_lower, ByteClass};

#[test]
fn runs_of_each_class() {
    let input = b"12ab_c.d \t\r\n;";
    assert_eq!(skip(input, 0, ByteClass::Digit), 2);
    assert_eq!(skip(input, 0, ByteClass::Alphanumeric), 4);
    assert_eq!(skip(input, 0, ByteClass::Identifier), 8);
    assert_eq!(skip(input, 0, ByteClass::FpNumber), 4);
    assert_eq!(skip(input, 5, ByteClass::FpNumber), 8);
    assert_eq!(skip(input, 8, ByteClass::Space), 10);
    assert_eq!(skip(input, 8, ByteClass::Multispace), 12);
    assert_eq!(skip(input, 12, ByteClass::Multispace), 12);
    assert_eq!(skip(input, 13, ByteClass::Multispace), 13);
    assert_eq!(skip(input, 2, ByteClass::Digit), 2);
    assert_eq!(skip(b"123", 0, ByteClass::Digit), 3);
    assert_eq!(skip(b"", 0, ByteClass::Digit), 0);
}

#[test]
fn runs_need_a_byte() {
    let input = b"12ab \n";
    assert_eq!(run1(input, 0, ByteClass::Digit), Some(2));
    assert_eq!(run1(input, 2, ByteClass::Digit), None);
    assert_eq!(run1(input, 2, ByteClass::Alphanumeric), Some(4));
    assert_eq!(run1(input, 4, ByteClass::Space), Some(5));
    assert_eq!(run1(input, 5, ByteClass::Space), None);
    assert_eq!(run1(input, 4, ByteClass::Multispace), Some(6));
    assert_eq!(run1(input, 6, ByteClass::Multispace), None);
    assert_eq!(run1(input, 0, ByteClass::Identifier), Some(4));
    assert_eq!(run1(input, 4, ByteClass::FpNumber), None);
}

#[test]
fn positions_behind_the_input() {
    let input = b"ab";
    assert_eq!(skip(input, 3, ByteClass::Alphanumeric), 3);
    assert_eq!(skip(input, 7, ByteClass::Identifier), 7);
    assert_eq!(run1(input, 3, ByteClass::Alphanumeric), None);
    assert_eq!(byte(input, 3, b'a'), None);
    assert_eq!(line_ending(input, 3), None);
    assert_eq!(eof(input, 3), None);
}

#[test]
fn class_members() {
    for b in 0u8..=255 {
        let input = [b];
        assert_eq!(
            run1(&input, 0, ByteClass::Digit).is_some(),
            b.is_ascii_digit()
        );
        assert_eq!(
            run1(&input, 0, ByteClass::Alphanumeric).is_some(),
            b.is_ascii_alphanumeric()
        );
        assert_eq!(
            run1(&input, 0, ByteClass::Space).is_some(),
            b == b' ' || b == b'\t'
        );
        assert_eq!(
            run1(&input, 0, ByteClass::Multispace).is_some(),
            b == b' ' || b == b'\t' || b == b'\r' || b == b'\n'
        );
    }
}

#[test]
fn single_bytes() {
    assert_eq!(byte(b"a;b", 1, b';'), Some(2));
    assert_eq!(byte(b"a;b", 0, b';'), None);
    assert_eq!(byte(b"a;b", 3, b';'), None);
    assert_eq!(byte(b"", 0, b';'), None);
}

#[test]
fn line_feeds_and_the_end() {
    assert_eq!(line_ending(b"\nabc", 0), Some(1));
    assert_eq!(line_ending(b"a\n", 1), Some(2));
    assert_eq!(line_ending(b"abc", 0), None);
    assert_eq!(line_ending(b"\r\n", 0), None);
    assert_eq!(line_ending(b"", 0), None);
    assert_eq!(eof(b"", 0), Some(0));
    assert_eq!(eof(b"abc", 3), Some(3));
    assert_eq!(eof(b"abc", 2), None);
    assert_eq!(eof(b"abc", 0), None);
}

#[test]
fn lower_case() {
    assert_eq!(to_ascii_lower(b'A'), b'a');
    assert_eq!(to_ascii_lower(b'Z'), b'z');
    assert_eq!(to_ascii_lower(b'a'), b'a');
    assert_eq!(to_ascii_lower(b'@'), b'@');
    assert_eq!(to_ascii_lower(b'['), b'[');
    assert_eq!(to_ascii_lower(b'_'), b'_');
    for b in 0u8..=255 {
        assert_eq!(to_ascii_lower(b), b.to_ascii_lowercase());
    }
}
