use shortner::form::{lookup_field, parse_form, percent_decode_bytes};
use shortner::multipart::{parse_boundary, parse_first_field, FirstField};

#[test]
fn percent_decode_passes_plain_bytes_through() {
    assert_eq!(percent_decode_bytes(b"abc123"), b"abc123".to_vec());
}

#[test]
fn percent_decode_decodes_escapes_plus_and_invalid_escapes() {
    assert_eq!(percent_decode_bytes(b"a%20b%2Bc+d"), b"a b+c d".to_vec());
    assert_eq!(percent_decode_bytes(b"%41%6a%6A"), b"Ajj".to_vec());
    // a '%' without two hexadecimal digits stands for itself
    assert_eq!(percent_decode_bytes(b"100%&%zz%4"), b"100%&%zz%4".to_vec());
}

#[test]
fn parse_form_splits_pairs_and_skips_empty_pieces() {
    let pairs = parse_form(b"a=1&&b=2&novalue&c=");
    assert_eq!(pairs.len(), 4);
    assert_eq!(pairs[0], (b"a".to_vec(), b"1".to_vec()));
    assert_eq!(pairs[1], (b"b".to_vec(), b"2".to_vec()));
    assert_eq!(pairs[2], (b"novalue".to_vec(), b"".to_vec()));
    assert_eq!(pairs[3], (b"c".to_vec(), b"".to_vec()));
}

#[test]
fn lookup_field_takes_the_last_occurrence() {
    let pairs = parse_form(b"a=1&b=2&a=3");
    assert_eq!(lookup_field(&pairs, b"a"), Some(b"3".to_vec()));
    assert_eq!(lookup_field(&pairs, b"b"), Some(b"2".to_vec()));
    assert_eq!(lookup_field(&pairs, b"c"), None);
}

#[test]
fn lookup_field_decodes_keys_and_values() {
    let pairs = parse_form(b"shorten=https%3A%2F%2Fexample.com%2Fa+b");
    assert_eq!(
        lookup_field(&pairs, b"shorten"),
        Some(b"https://example.com/a b".to_vec())
    );
}

#[test]
fn parse_boundary_reads_the_boundary_parameter() {
    assert_eq!(
        parse_boundary(b"multipart/form-data; boundary=XyZ123"),
        Some(b"XyZ123".to_vec())
    );
    assert_eq!(
        parse_boundary(b"multipart/form-data; charset=utf-8; boundary=\"quoted value\""),
        Some(b"quoted value".to_vec())
    );
}

#[test]
fn parse_boundary_rejects_other_content_types() {
    assert_eq!(parse_boundary(b"application/x-www-form-urlencoded"), None);
    assert_eq!(parse_boundary(b"text/plain; boundary=abc"), None);
    assert_eq!(parse_boundary(b"multipart/form-datax; boundary=abc"), None);
    assert_eq!(parse_boundary(b"multipart/form-data"), None);
}

#[test]
fn parse_first_field_finds_the_named_field() {
    let body = b"--XX\r\nContent-Disposition: form-data; name=\"shorten\"\r\n\r\nhttps://example.com\r\n--XX--\r\n";
    match parse_first_field(body, b"XX") {
        FirstField::Found(name, content) => {
            assert_eq!(name, b"shorten".to_vec());
            assert_eq!(content, b"https://example.com".to_vec());
        }
        _ => panic!("expected a field"),
    }
}

#[test]
fn parse_first_field_reports_an_empty_body() {
    match parse_first_field(b"--XX--\r\n", b"XX") {
        FirstField::Absent => {}
        _ => panic!("expected no field"),
    }
}

#[test]
fn parse_first_field_reports_broken_framing() {
    match parse_first_field(b"not a multipart body", b"XX") {
        FirstField::Malformed => {}
        _ => panic!("expected malformed framing"),
    }
    // an unterminated part
    match parse_first_field(b"--XX\r\nContent-Disposition: form-data; name=\"a\"\r\n\r\nabc", b"XX") {
        FirstField::Malformed => {}
        _ => panic!("expected malformed framing"),
    }
}
