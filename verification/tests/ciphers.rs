use video_sniffer::aes::decrypt;

fn bytes(hex: &str) -> Vec<u8> {
    (0..hex.len())
        .step_by(2)
        .map(|i| u8::from_str_radix(&hex[i..i + 2], 16).unwrap())
        .collect()
}

const KEY: &str = "2b7e151628aed2a6abf7158809cf4f3c";
const IV: u128 = 0x000102030405060708090a0b0c0d0e0f;

#[test]
fn a_block_of_the_standard_is_decrypted() {
    let key = bytes("000102030405060708090a0b0c0d0e0f");
    let text = bytes("69c4e0d86a7b0430d8cdb78070b4c55a9e978e6d16b086570ef794ef97984232");
    let plain = bytes("00112233445566778899aabbccddeeff");
    assert_eq!(decrypt(&key, 0, &text), Some(plain));
}

#[test]
fn chained_blocks_are_decrypted() {
    let text = bytes("7649abac8119b246cee98e9b12e9197d5086cb9b507219ee95db113a917678b255e21d7100b988ffec32feeafaf23538");
    let plain = bytes("6bc1bee22e409f96e93d7e117393172aae2d8a571e03ac9c9eb76fac45af8e51");
    assert_eq!(decrypt(&bytes(KEY), IV, &text), Some(plain.clone()));
    let other = decrypt(&bytes(KEY), IV + 1, &text).unwrap();
    assert_eq!(other[16..], plain[16..]);
    assert_ne!(other[..16], plain[..16]);
}

#[test]
fn the_initial_number_is_that_of_the_segment() {
    let key = vec![0u8; 16];
    assert_eq!(decrypt(&key, 7, &bytes("04d696c7ca76b8962937231d64a90da3")), Some(b"abc".to_vec()));
    assert_eq!(decrypt(&key, 8, &bytes("0351e3a3a4f4dd141ca1e61be1ba0b73")), Some(b"defg".to_vec()));
}

#[test]
fn a_block_of_padding_is_nothing() {
    assert_eq!(decrypt(&bytes(KEY), IV, &bytes("c84af0b613435d5d9182801a9bd9320b")), Some(vec![]));
}

#[test]
fn bad_padding_is_refused() {
    for text in [
        "",
        "5027419bd2a55c2af4cc2fb31fd2a385",
        "5c05f3b463ca965a75d2c0dba814f67a",
        "af844bbff4d902427a4ab02d83e61721",
        "c84af0b613435d5d9182801a9bd9320bff",
    ] {
        assert_eq!(decrypt(&bytes(KEY), IV, &bytes(text)), None);
    }
}
