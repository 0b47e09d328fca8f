use srs::util::{base64_email_safe_decode, base64_email_safe_encode, Base64Err};

fn e(x: &str) -> String {
    base64_email_safe_encode(x.as_bytes()).expect("encoding should work in this test")
}

fn d(x: &str) -> String {
    let d = base64_email_safe_decode(x).expect("should decode in this test");
    String::from_utf8(d).expect("decoding should produce ASCII")
}

#[test]
fn test_base64() {
    assert!(e("Man") == "TWFu");
    assert!(e("") == "");
}

#[test]
fn it_base64_encodes_only_supports_lengths_multiples_of_3() {
    let r = base64_email_safe_encode("four".as_bytes());
    assert!(r.is_err());
}

#[test]
fn it_base64_decodes() {
    assert!(d("TWFu") == "Man");
    assert!(d("") == "");
}

#[test]
fn it_can_decode_its_encoding() {
    let enc = base64_email_safe_encode("Man".as_bytes()).expect("should encode");
    let dec = base64_email_safe_decode(&enc).expect("should decode");
    let dec_str = &String::from_utf8(dec).expect("decoding should produce ASCII");
    assert!(dec_str == "Man");
}

#[test]
fn it_names_the_fault_of_each_rejected_input() {
    assert_eq!(base64_email_safe_encode(b"four"), Err(Base64Err::PaddingErr(3)));
    assert_eq!(base64_email_safe_encode(b"ab"), Err(Base64Err::PaddingErr(3)));
    assert_eq!(base64_email_safe_decode("TWF"), Err(Base64Err::PaddingErr(4)));
    assert_eq!(base64_email_safe_decode("TWFuT"), Err(Base64Err::PaddingErr(4)));
    assert_eq!(base64_email_safe_decode("TW=u"), Err(Base64Err::DecodingErr));
    assert_eq!(base64_email_safe_decode("TWF+"), Err(Base64Err::DecodingErr));
    assert_eq!(base64_email_safe_decode("TWF/"), Err(Base64Err::DecodingErr));
    assert_eq!(base64_email_safe_decode("TWFuTW u"), Err(Base64Err::DecodingErr));
    // the length in bytes is judged before the symbols are
    assert_eq!(base64_email_safe_decode("\u{e9}bc"), Err(Base64Err::DecodingErr));
    assert_eq!(base64_email_safe_decode("\u{e9}bcd"), Err(Base64Err::PaddingErr(4)));
}

#[test]
fn it_uses_the_email_safe_alphabet() {
    assert_eq!(base64_email_safe_encode(&[0xfb, 0xff, 0xbf]), Ok("-_-_".to_string()));
    assert_eq!(base64_email_safe_decode("-_-_"), Ok(vec![0xfb, 0xff, 0xbf]));
    assert_eq!(base64_email_safe_encode(&[0, 0, 0]), Ok("AAAA".to_string()));
    assert_eq!(base64_email_safe_encode(&[0xff, 0xff, 0xff]), Ok("____".to_string()));
    assert_eq!(
        base64_email_safe_encode(&[0x00, 0x10, 0x83, 0x10, 0x51, 0x87, 0x20, 0x92, 0x8b]),
        Ok("ABCDEFGHIJKL".to_string())
    );
    assert_eq!(
        base64_email_safe_encode(b"any carnal plea"),
        Ok("YW55IGNhcm5hbCBwbGVh".to_string())
    );
    assert_eq!(base64_email_safe_decode("0123456789-_"), Ok(vec![0xd3, 0x5d, 0xb7, 0xe3, 0x9e, 0xbb, 0xf3, 0xdf, 0xbf]));
}

#[test]
fn it_decodes_what_it_encoded_for_every_pair_of_octets() {
    for a in 0..=255u8 {
        for b in 0..=255u8 {
            let input = vec![a, b, a ^ b, b, a, 0x5a];
            let enc = base64_email_safe_encode(&input).unwrap();
            assert_eq!(enc.len(), 8);
            assert_eq!(base64_email_safe_decode(&enc), Ok(input));
        }
    }
}

#[test]
fn it_encodes_what_it_decoded() {
    let alphabet = "ABCDEFGHIJKLMNOPQRSTUVWXYZabcdefghijklmnopqrstuvwxyz0123456789-_";
    let dec = base64_email_safe_decode(alphabet).unwrap();
    assert_eq!(dec.len(), 48);
    assert_eq!(base64_email_safe_encode(&dec), Ok(alphabet.to_string()));
}
