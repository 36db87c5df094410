use flarmnet::xcsoar::decode_file;
use flarmnet::xcsoar::encode_file;
use flarmnet::xcsoar::push_field;
use flarmnet::xcsoar::EncodeError;
use flarmnet::File;
use flarmnet::Record;

fn encode_str(value: &str, length: usize) -> String {
    let mut out: Vec<char> = Vec::new();
    push_field(&mut out, &value.to_string(), length);
    out.into_iter().collect()
}

fn example_record() -> Record {
    Record {
        flarm_id: "3EE3C7".to_string(),
        pilot_name: "Tobias Bieniek".to_string(),
        airfield: "EDKA".to_string(),
        plane_type: "LS6a".to_string(),
        registration: "D-0816".to_string(),
        call_sign: "SG".to_string(),
        frequency: "130.530".to_string(),
    }
}

#[test]
fn encoding_works() {
    assert_eq!(encode_str("D-4711", 7), "442d3437313120");
    assert_eq!(encode_str("1234567890", 7), "31323334353637");
    assert_eq!(encode_str("Müller", 10), "4dfc6c6c657220202020");
}

#[test]
fn encoding_fails_for_non_latin1() {
    let file = File {
        version: 123,
        records: vec![Record {
            flarm_id: "3EE3C7".to_string(),
            pilot_name: "😅".to_string(),
            airfield: String::new(),
            plane_type: String::new(),
            registration: String::new(),
            call_sign: String::new(),
            frequency: String::new(),
        }],
    };
    match encode_file(&file).unwrap_err() {
        EncodeError::InvalidEncoding(v) => assert_eq!(v, "😅"),
        other => panic!("unexpected error: {:?}", other),
    }
}

#[test]
fn fixed_width_example_reencodes() {
    let file = File { version: 123, records: vec![example_record()] };
    let result = encode_file(&file).unwrap();
    assert_eq!(
        result.as_slice(),
        &b"00007b\n334545334337546f62696173204269656e69656b2020202020202045444b4120202020202020202020202020202020204c5336612020202020202020202020202020202020442d30383136205347203133302e353330\n"[..]
    );
}

#[test]
fn fixed_width_roundtrip() {
    let file = File {
        version: 28592,
        records: vec![
            example_record(),
            Record {
                flarm_id: "00000f".to_string(),
                pilot_name: String::new(),
                airfield: "D-9527".to_string(),
                plane_type: "ASW 27".to_string(),
                registration: "D-9527".to_string(),
                call_sign: "X27".to_string(),
                frequency: String::new(),
            },
        ],
    };
    let encoded = encode_file(&file).unwrap();
    let text = String::from_utf8(encoded).unwrap();
    let decoded = decode_file(&text).unwrap();
    assert_eq!(decoded.version, file.version);
    assert_eq!(decoded.records.len(), 2);
    for (got, want) in decoded.records.iter().zip(file.records.iter()) {
        assert_eq!(got.as_ref().unwrap(), want);
    }
}

#[test]
fn leading_whitespace_is_a_known_roundtrip_asymmetry() {
    // the decoder trims both ends of a field, though only trailing padding
    // is structurally guaranteed: a genuine leading space is lost
    let file = File {
        version: 1,
        records: vec![Record {
            flarm_id: "000001".to_string(),
            pilot_name: " Bob".to_string(),
            airfield: String::new(),
            plane_type: String::new(),
            registration: String::new(),
            call_sign: String::new(),
            frequency: String::new(),
        }],
    };
    let encoded = encode_file(&file).unwrap();
    let text = String::from_utf8(encoded).unwrap();
    let decoded = decode_file(&text).unwrap();
    let got = decoded.records[0].as_ref().unwrap();
    assert_eq!(got.pilot_name, "Bob");
}

#[test]
fn version_wider_than_six_digits_keeps_all_digits() {
    let file = File { version: 0x1234567, records: vec![] };
    let encoded = encode_file(&file).unwrap();
    assert_eq!(encoded.as_slice(), &b"1234567\n"[..]);
    let decoded = decode_file("1234567\n").unwrap();
    assert_eq!(decoded.version, 0x1234567);
}

#[test]
fn long_fields_are_truncated() {
    let file = File {
        version: 1,
        records: vec![Record {
            flarm_id: "000001".to_string(),
            pilot_name: String::new(),
            airfield: String::new(),
            plane_type: String::new(),
            registration: String::new(),
            call_sign: "WXYZ".to_string(),
            frequency: String::new(),
        }],
    };
    let encoded = encode_file(&file).unwrap();
    let text = String::from_utf8(encoded).unwrap();
    let decoded = decode_file(&text).unwrap();
    let got = decoded.records[0].as_ref().unwrap();
    assert_eq!(got.call_sign, "WXY");
}
