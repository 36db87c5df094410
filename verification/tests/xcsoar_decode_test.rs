use flarmnet::xcsoar::decode_file;
use flarmnet::xcsoar::decode_record;
use flarmnet::xcsoar::DecodeError;
use flarmnet::Record;

#[test]
fn decode_decoding_fails_for_empty_file() {
    let file = "";
    assert!(matches!(decode_file(file).unwrap_err(), DecodeError::MissingVersion));
}

#[test]
fn decode_decoding_fails_for_invalid_file_version() {
    let file = "0123x4\n";
    match decode_file(file).unwrap_err() {
        DecodeError::InvalidVersion(v) => assert_eq!(v, "0123x4"),
        other => panic!("unexpected error: {:?}", other),
    }
}

#[test]
fn decoding_fails_for_short_line() {
    let row = "3030303030304dfc6c6c6572202020202020202020202020202020442d3231383820202020202020202020202020202041534b2d3133202020202020202020202020202020442d32313838202020203132332e31353";
    match decode_record(row).unwrap_err() {
        DecodeError::UnexpectedLineLength(n) => assert_eq!(n, 171),
        other => panic!("unexpected error: {:?}", other),
    }
}

#[test]
fn decoding_fails_for_long_line() {
    let row = "3030303030304dfc6c6c6572202020202020202020202020202020442d3231383820202020202020202020202020202041534b2d3133202020202020202020202020202020442d32313838202020203132332e3135301";
    match decode_record(row).unwrap_err() {
        DecodeError::UnexpectedLineLength(n) => assert_eq!(n, 173),
        other => panic!("unexpected error: {:?}", other),
    }
}

#[test]
fn decoding_fails_for_unexpected_characters() {
    let row = "30XX303030304dfc6c6c6572202020202020202020202020202020442d3231383820202020202020202020202020202041534b2d3133202020202020202020202020202020442d32313838202020203132332e313530";
    match decode_record(row).unwrap_err() {
        DecodeError::UnexpectedCharacter(s) => assert_eq!(s, "30XX30303030"),
        other => panic!("unexpected error: {:?}", other),
    }
}

#[test]
fn decoding_fails_for_empty_flarm_id() {
    let row = "2020202020204dfc6c6c6572202020202020202020202020202020442d3231383820202020202020202020202020202041534b2d3133202020202020202020202020202020442d32313838202020203132332e313530";
    match decode_record(row).unwrap_err() {
        DecodeError::InvalidFlarmId(s) => assert_eq!(s, ""),
        other => panic!("unexpected error: {:?}", other),
    }
}

#[test]
fn decoding_fails_for_invalid_flarm_id() {
    let row = "3030573030304dfc6c6c6572202020202020202020202020202020442d3231383820202020202020202020202020202041534b2d3133202020202020202020202020202020442d32313838202020203132332e313530";
    match decode_record(row).unwrap_err() {
        DecodeError::InvalidFlarmId(s) => assert_eq!(s, "00W000"),
        other => panic!("unexpected error: {:?}", other),
    }
}

#[test]
fn fixed_width_record_example_decodes() {
    let line = "334545334337546f62696173204269656e69656b2020202020202045444b4120202020202020202020202020202020204c5336612020202020202020202020202020202020442d30383136205347203133302e353330";
    let result = decode_record(line);
    assert_eq!(
        result.unwrap(),
        Record {
            flarm_id: "3EE3C7".to_string(),
            pilot_name: "Tobias Bieniek".to_string(),
            airfield: "EDKA".to_string(),
            plane_type: "LS6a".to_string(),
            registration: "D-0816".to_string(),
            call_sign: "SG".to_string(),
            frequency: "130.530".to_string(),
        }
    );
}

#[test]
fn decoding_works() {
    let file = "006fb0\n3030303030304dfc6c6c6572202020202020202020202020202020442d3231383820202020202020202020202020202041534b2d3133202020202020202020202020202020442d32313838202020203132332e313530\n30303030303120202020202020202020202020202020202020202030303030303020202020202020202020202020202050617261676c6964657220202020202020202020203030303030302020202020202020202020\n303030303066202020202020202020202020202020202020202020442d39353237202020202020202020202020202020415357203237202020202020202020202020202020442d393532372058323720202020202020\n";
    let result = decode_file(file).unwrap();
    assert_eq!(result.version, 28592);
    assert_eq!(result.records.iter().filter(|it| it.is_ok()).count(), 3);
}

#[test]
fn decoding_keeps_blank_lines_out_and_errors_in_place() {
    // one good line, a blank line (skipped), one bad line: the bad line's
    // error is isolated, the good record survives
    let good = "334545334337546f62696173204269656e69656b2020202020202045444b4120202020202020202020202020202020204c5336612020202020202020202020202020202020442d30383136205347203133302e353330";
    let file = format!("00007b\n{}\n\nshort\n", good);
    let result = decode_file(&file).unwrap();
    assert_eq!(result.version, 123);
    assert_eq!(result.records.len(), 2);
    assert!(result.records[0].is_ok());
    assert!(matches!(result.records[1], Err(DecodeError::UnexpectedLineLength(5))));
}

#[test]
fn decoding_fails_for_overflowing_version() {
    let file = "fffffffff\n";
    match decode_file(file).unwrap_err() {
        DecodeError::InvalidVersion(v) => assert_eq!(v, "fffffffff"),
        other => panic!("unexpected error: {:?}", other),
    }
}
