use flarmnet::lx::cipher::encrypt_bytes;
use flarmnet::lx::decode_file;
use flarmnet::lx::encode_file;
use flarmnet::File;
use flarmnet::Record;

fn example_record() -> Record {
    Record {
        flarm_id: "3EE3C7".to_string(),
        pilot_name: "Tobias Bieniek".to_string(),
        airfield: "EDKA".to_string(),
        plane_type: "LS6a".to_string(),
        registration: "D-0816".to_string(),
        call_sign: "SG".to_string(),
        frequency: "130.530".to_string(),
    }
}

const EXAMPLE_XML: &str = "<?xml version=\"1.0\" encoding=\"UTF-8\"?>\n<FLARMNET Version=\"00007b\">\n<FLARMDATA FlarmID=\"3EE3C7\">\n\t<NAME>Tobias Bieniek</NAME>\n\t<AIRFIELD>EDKA</AIRFIELD>\n\t<TYPE>LS6a</TYPE>\n\t<REG>D-0816</REG>\n\t<COMPID>SG</COMPID>\n\t<FREQUENCY>130.530</FREQUENCY>\n</FLARMDATA>\n</FLARMNET>";

#[test]
fn markup_example_reencodes() {
    let file = File { version: 123, records: vec![example_record()] };
    let encoded = encode_file(&file).unwrap();
    assert_eq!(encoded, encrypt_bytes(EXAMPLE_XML.as_bytes()));
}

#[test]
fn markup_example_decodes() {
    let ciphered = String::from_utf8(encrypt_bytes(EXAMPLE_XML.as_bytes())).unwrap();
    let decoded = decode_file(&ciphered).unwrap();
    assert_eq!(decoded.version, 123);
    assert_eq!(decoded.records.len(), 1);
    assert_eq!(decoded.records[0].as_ref().unwrap(), &example_record());
}

#[test]
fn markup_roundtrip() {
    let file = File {
        version: 0x933e,
        records: vec![
            example_record(),
            Record {
                flarm_id: "1".to_string(),
                pilot_name: "Smith & Jones <quoted>".to_string(),
                airfield: "\"EDKA\"".to_string(),
                plane_type: "K'8".to_string(),
                registration: String::new(),
                call_sign: String::new(),
                frequency: String::new(),
            },
        ],
    };
    let encoded = encode_file(&file).unwrap();
    let ciphered = String::from_utf8(encoded.clone()).unwrap();
    let decoded = decode_file(&ciphered).unwrap();
    assert_eq!(decoded.version, file.version);
    assert_eq!(decoded.records.len(), 2);
    for (got, want) in decoded.records.iter().zip(file.records.iter()) {
        assert_eq!(got.as_ref().unwrap(), want);
    }
    // re-encoding what was decoded reproduces the bytes
    let rebuilt = File {
        version: decoded.version,
        records: decoded.records.into_iter().map(|r| r.unwrap()).collect(),
    };
    assert_eq!(encode_file(&rebuilt).unwrap(), encoded);
}

#[test]
fn markup_empty_file_roundtrip() {
    let file = File { version: 0, records: vec![] };
    let encoded = encode_file(&file).unwrap();
    let ciphered = String::from_utf8(encoded).unwrap();
    let decoded = decode_file(&ciphered).unwrap();
    assert_eq!(decoded.version, 0);
    assert_eq!(decoded.records.len(), 0);
}
