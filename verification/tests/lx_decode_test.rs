use flarmnet::lx::cipher::encrypt;
use flarmnet::lx::convert;
use flarmnet::lx::decode_file;
use flarmnet::lx::DecodeError;
use flarmnet::Record;

#[test]
fn decoding_fails_for_empty_file() {
    let file = "";
    assert!(matches!(
        decode_file(file).unwrap_err(),
        DecodeError::Xml(minidom::Error::EndOfDocument)
    ));
}

#[test]
fn decoding_fails_for_invalid_file() {
    let file = "foo";
    assert!(matches!(
        decode_file(file).unwrap_err(),
        DecodeError::Xml(minidom::Error::EndOfDocument)
    ));
}

#[test]
fn decoding_fails_for_undecipherable_text() {
    // U+0080 is the bytes C2 80; shifting both down gives C1 7F, which is
    // not valid UTF-8, so deciphering must report an encoding failure
    let file = "\u{80}";
    assert!(matches!(decode_file(file).unwrap_err(), DecodeError::Utf8(_)));
}

#[test]
fn decoding_fails_for_missing_root_element() {
    let file = encrypt(
        "<?xml version=\"1.0\" encoding=\"UTF-8\"?>\n                <FOO>\n                </FOO>",
    )
    .unwrap();
    match decode_file(&file).unwrap_err() {
        DecodeError::MissingElement(name) => assert_eq!(name, "FLARMNET"),
        other => panic!("unexpected error: {:?}", other),
    }
}

#[test]
fn decoding_fails_for_missing_file_version() {
    let file = encrypt(
        "<?xml version=\"1.0\" encoding=\"UTF-8\"?>\n                <FLARMNET>\n                </FLARMNET>",
    )
    .unwrap();
    assert!(matches!(decode_file(&file).unwrap_err(), DecodeError::MissingVersion));
}

#[test]
fn decoding_fails_for_invalid_file_version() {
    let file = encrypt(
        "<?xml version=\"1.0\" encoding=\"UTF-8\"?>\n                <FLARMNET Version=\"foo\">\n                </FLARMNET>",
    )
    .unwrap();
    match decode_file(&file).unwrap_err() {
        DecodeError::InvalidVersion(v) => assert_eq!(v, "foo"),
        other => panic!("unexpected error: {:?}", other),
    }
}

#[test]
fn converting_works() {
    let element: minidom::Element = "
            <FLARMDATA FlarmID=\"c0ffee\">
              <NAME>John Doe</NAME>
              <AIRFIELD>EDKA</AIRFIELD>
              <TYPE>ASG 29</TYPE>
              <REG>D-KESH</REG>
              <COMPID>AS</COMPID>
              <FREQUENCY>123.500</FREQUENCY>
            </FLARMDATA>
        "
    .parse()
    .unwrap();

    assert_eq!(
        convert(&element).unwrap(),
        Record {
            flarm_id: "c0ffee".to_string(),
            pilot_name: "John Doe".to_string(),
            airfield: "EDKA".to_string(),
            plane_type: "ASG 29".to_string(),
            registration: "D-KESH".to_string(),
            call_sign: "AS".to_string(),
            frequency: "123.500".to_string(),
        }
    );
}

#[test]
fn converting_fails_for_missing_flarm_id() {
    let element: minidom::Element = "
            <FLARMDATA>
              <NAME></NAME>
              <AIRFIELD>000000</AIRFIELD>
              <TYPE>Paraglider</TYPE>
              <REG>000000</REG>
              <COMPID></COMPID>
              <FREQUENCY></FREQUENCY>
            </FLARMDATA>
        "
    .parse()
    .unwrap();

    assert!(matches!(convert(&element).unwrap_err(), DecodeError::MissingFlarmId));
}

#[test]
fn converting_fails_for_invalid_flarm_id() {
    let element: minidom::Element = "
            <FLARMDATA FlarmID=\"foo\">
              <NAME></NAME>
              <AIRFIELD>000000</AIRFIELD>
              <TYPE>Paraglider</TYPE>
              <REG>000000</REG>
              <COMPID></COMPID>
              <FREQUENCY></FREQUENCY>
            </FLARMDATA>
        "
    .parse()
    .unwrap();

    match convert(&element).unwrap_err() {
        DecodeError::InvalidFlarmId(v) => assert_eq!(v, "foo"),
        other => panic!("unexpected error: {:?}", other),
    }
}

#[test]
fn missing_field_elements_default_to_empty() {
    let element: minidom::Element = "<FLARMDATA FlarmID=\"000001\"></FLARMDATA>".parse().unwrap();
    let record = convert(&element).unwrap();
    assert_eq!(record.flarm_id, "000001");
    assert_eq!(record.pilot_name, "");
    assert_eq!(record.frequency, "");
}

#[test]
fn decoding_isolates_a_record_without_flarm_id() {
    // three FLARMDATA children, one missing its FlarmID attribute: the
    // version and the two good records survive, the bad one is its own error
    let xml = "<?xml version=\"1.0\" encoding=\"UTF-8\"?>\n<FLARMNET Version=\"00007b\">\n<FLARMDATA FlarmID=\"000001\">\n\t<NAME>A</NAME>\n</FLARMDATA>\n<FLARMDATA>\n\t<NAME>B</NAME>\n</FLARMDATA>\n<FLARMDATA FlarmID=\"000003\">\n\t<NAME>C</NAME>\n</FLARMDATA>\n</FLARMNET>";
    let file = encrypt(xml).unwrap();
    let decoded = decode_file(&file).unwrap();
    assert_eq!(decoded.version, 123);
    assert_eq!(decoded.records.len(), 3);
    assert_eq!(decoded.records[0].as_ref().unwrap().flarm_id, "000001");
    assert!(matches!(decoded.records[1], Err(DecodeError::MissingFlarmId)));
    assert_eq!(decoded.records[2].as_ref().unwrap().flarm_id, "000003");
}
