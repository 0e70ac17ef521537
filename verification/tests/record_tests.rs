use heimdallr::record::{read_number, read_record, read_string};

fn parse(s: &str) -> Option<heimdallr::record::PartialMsg> {
    read_record(s.as_bytes())
}

#[test]
fn plain_record_decodes() {
    let m = parse("{\"resource\":\"ram\",\"warning\":0.6,\"icon\":\"\"}").unwrap();
    assert_eq!(m.resource, b"ram".to_vec());
    assert_eq!(m.warning, 600);
    assert_eq!(m.icon, Vec::<u8>::new());
    assert!(!m.has_data);
    assert_eq!(m.eta, None);
    assert_eq!(m.state, None);
}

#[test]
fn key_order_does_not_matter() {
    let m = parse("{\"icon\":\"x\",\"warning\":1,\"resource\":\"disk\"}").unwrap();
    assert_eq!(m.resource, b"disk".to_vec());
    assert_eq!(m.warning, 1000);
    assert_eq!(m.icon, b"x".to_vec());
}

#[test]
fn unknown_keys_are_skipped() {
    let m = parse(
        "{\"resource\":\"ram\",\"color\":\"#55FF00\",\"warning\":0.25,\"icon\":\"\",\"extra\":[1,{\"a\":true},null]}",
    )
    .unwrap();
    assert_eq!(m.warning, 250);
}

#[test]
fn missing_required_field_is_malformed() {
    assert!(parse("{\"resource\":\"ram\",\"warning\":0.6}").is_none());
    assert!(parse("{\"warning\":0.6,\"icon\":\"\"}").is_none());
    assert!(parse("{}").is_none());
}

#[test]
fn trailing_garbage_is_malformed() {
    assert!(parse("{\"resource\":\"ram\",\"warning\":1,\"icon\":\"\"} x").is_none());
    assert!(parse("not json at all").is_none());
}

#[test]
fn whitespace_around_the_object_is_fine() {
    let m = parse("  {\"resource\" : \"ram\" , \"warning\" : 0.5 , \"icon\" : \"\"}  ").unwrap();
    assert_eq!(m.warning, 500);
}

#[test]
fn battery_payload_is_extracted() {
    let m = parse(
        "{\"resource\":\"battery\",\"warning\":0.0,\"icon\":\"\",\"data\":{\"capacity\":177228.0,\"eta\":380.0978088378906,\"percentage\":100,\"state\":\"Discharging\",\"watt\":7.76800012588501}}",
    )
    .unwrap();
    assert!(m.has_data);
    assert_eq!(m.eta, Some(380097));
    assert_eq!(m.state, Some(b"Discharging".to_vec()));
}

#[test]
fn null_payload_counts_as_absent() {
    let m = parse("{\"resource\":\"battery\",\"warning\":0,\"icon\":\"\",\"data\":null}").unwrap();
    assert!(!m.has_data);
    assert_eq!(m.eta, None);
}

#[test]
fn non_object_payload_yields_no_battery_fields() {
    let m = parse("{\"resource\":\"battery\",\"warning\":0,\"icon\":\"\",\"data\":5}").unwrap();
    assert!(m.has_data);
    assert_eq!(m.eta, None);
    assert_eq!(m.state, None);
}

#[test]
fn later_duplicate_keys_win() {
    let m = parse("{\"resource\":\"a\",\"resource\":\"b\",\"warning\":1,\"icon\":\"\"}").unwrap();
    assert_eq!(m.resource, b"b".to_vec());
}

#[test]
fn numbers_decode_to_thousandths() {
    assert_eq!(read_number(b"0.6,", 0), Some((600, 3)));
    assert_eq!(read_number(b"1", 0), Some((1000, 1)));
    assert_eq!(read_number(b"-2.5", 0), Some((-2500, 4)));
    assert_eq!(read_number(b"1e3", 0), Some((1_000_000, 3)));
    assert_eq!(read_number(b"2.5e-1", 0), Some((250, 6)));
    assert_eq!(read_number(b"0.0001", 0), Some((0, 6)));
    assert_eq!(read_number(b"380.0978088378906", 0), Some((380097, 17)));
}

#[test]
fn oversized_numbers_are_refused() {
    // beyond the magnitude cap
    assert!(read_number(b"1e300", 0).is_none());
    // more than seventeen digits
    assert!(read_number(b"123456789012345678", 0).is_none());
    // more than four exponent digits
    assert!(read_number(b"1e00005", 0).is_none());
}

#[test]
fn number_syntax_is_enforced() {
    assert!(read_number(b"-", 0).is_none());
    assert!(read_number(b".5", 0).is_none());
    assert!(read_number(b"1.", 0).is_none());
    assert!(read_number(b"abc", 0).is_none());
}

#[test]
fn strings_decode_escapes() {
    let (v, end) = read_string(b"\"a\\n\\\"b\\\\\"", 0).unwrap();
    assert_eq!(v, vec![97u8, 10, 34, 98, 92]);
    assert_eq!(end, 10);
}

#[test]
fn unicode_escapes_are_refused() {
    assert!(read_string(b"\"\\u0041\"", 0).is_none());
}

#[test]
fn unterminated_string_is_refused() {
    assert!(read_string(b"\"abc", 0).is_none());
}

#[test]
fn non_ascii_bytes_pass_through_strings() {
    let raw: Vec<u8> = vec![34, 243, 176, 172, 162, 34];
    let (v, end) = read_string(raw.as_slice(), 0).unwrap();
    assert_eq!(v, vec![243u8, 176, 172, 162]);
    assert_eq!(end, 6);
}
