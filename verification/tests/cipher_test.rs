use flarmnet::lx::cipher::decode_byte;
use flarmnet::lx::cipher::decrypt_bytes;
use flarmnet::lx::cipher::encode_byte;
use flarmnet::lx::cipher::encrypt_bytes;

#[test]
fn decryption_works() {
    assert_eq!(
        decrypt_bytes(b"=@ynm!wfstjpo>#2/1#!fodpejoh>#VUG.9#@?\x0b=GMBSNOFU!Wfstjpo>#11:44f#?\x0b=GMBSNEBUB!GmbsnJE>#111111#?\x0b").as_slice(),
        &b"<?xml version=\"1.0\" encoding=\"UTF-8\"?>\n<FLARMNET Version=\"00933e\">\n<FLARMDATA FlarmID=\"000000\">\n"[..]
    );
}

#[test]
fn encryption_works() {
    assert_eq!(
        encrypt_bytes(b"<?xml version=\"1.0\" encoding=\"UTF-8\"?>\n<FLARMNET Version=\"00933e\">\n<FLARMDATA FlarmID=\"000000\">\n").as_slice(),
        &b"=@ynm!wfstjpo>#2/1#!fodpejoh>#VUG.9#@?\x0b=GMBSNOFU!Wfstjpo>#11:44f#?\x0b=GMBSNEBUB!GmbsnJE>#111111#?\x0b"[..]
    );
}

#[test]
fn cipher_roundtrip_every_byte_value() {
    for b in 0u8..=255u8 {
        assert_eq!(decode_byte(encode_byte(b)), b);
        assert_eq!(encode_byte(decode_byte(b)), b);
    }
    // the wraparound is exact, not saturating
    assert_eq!(encode_byte(0xff), 0x00);
    assert_eq!(decode_byte(0x00), 0xff);
}

#[test]
fn cipher_roundtrip_sequences() {
    let all: Vec<u8> = (0u8..=255u8).collect();
    assert_eq!(decrypt_bytes(encrypt_bytes(&all).as_slice()), all);
    assert_eq!(encrypt_bytes(decrypt_bytes(&all).as_slice()), all);
    let empty: Vec<u8> = Vec::new();
    assert_eq!(decrypt_bytes(encrypt_bytes(&empty).as_slice()), empty);
}
