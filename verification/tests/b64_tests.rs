use base64::engine::general_purpose::STANDARD;
use base64::engine::general_purpose::URL_SAFE_NO_PAD;
use base64::Engine;
use rcli::b64::decode;
use rcli::b64::decode_text;
use rcli::b64::encode;
use rcli::b64::Base64Format;
use rcli::error::Error;

#[test]
fn encode_hello_standard() {
    let out = encode(b"hello", Base64Format::Standard);
    assert_eq!(out, b"aGVsbG8=".to_vec());
}

#[test]
fn decode_hello_standard() {
    let out = decode_text(b"aGVsbG8=", Base64Format::Standard);
    assert_eq!(out, Ok("hello".to_string()));
}

#[test]
fn encode_hello_urlsafe() {
    let out = encode(b"hello", Base64Format::UrlSafe);
    assert_eq!(out, b"aGVsbG8".to_vec());
}

#[test]
fn decode_hello_urlsafe() {
    let out = decode_text(b"aGVsbG8", Base64Format::UrlSafe);
    assert_eq!(out, Ok("hello".to_string()));
}

#[test]
fn urlsafe_rejects_plus_symbol() {
    let out = decode_text(b"aGVsbG8+", Base64Format::UrlSafe);
    assert_eq!(out, Err(Error::Codec));
}

#[test]
fn urlsafe_rejects_padding() {
    let out = decode(b"aGVsbG8=", Base64Format::UrlSafe);
    assert_eq!(out, Err(Error::Codec));
}

#[test]
fn standard_rejects_unpadded_length() {
    let out = decode(b"aGVsbG8", Base64Format::Standard);
    assert_eq!(out, Err(Error::Codec));
}

#[test]
fn rejects_leftover_bits() {
    // "aGVsbG9=" carries a nonzero low bit in its final symbol.
    let out = decode(b"aGVsbG9=", Base64Format::Standard);
    assert_eq!(out, Err(Error::Codec));
    assert!(STANDARD.decode("aGVsbG9=").is_err());
}

#[test]
fn rejects_length_one_remainder() {
    let out = decode(b"aGVsb", Base64Format::UrlSafe);
    assert_eq!(out, Err(Error::Codec));
}

#[test]
fn encode_empty_is_empty() {
    assert_eq!(encode(b"", Base64Format::Standard), Vec::<u8>::new());
    assert_eq!(encode(b"", Base64Format::UrlSafe), Vec::<u8>::new());
}

#[test]
fn decode_empty_is_empty_text() {
    assert_eq!(decode_text(b"", Base64Format::Standard), Ok(String::new()));
    assert_eq!(decode_text(b"", Base64Format::UrlSafe), Ok(String::new()));
}

#[test]
fn decode_trims_whitespace() {
    let out = decode_text(b"  aGVsbG8=\r\n", Base64Format::Standard);
    assert_eq!(out, Ok("hello".to_string()));
}

#[test]
fn decode_rejects_inner_whitespace() {
    let out = decode_text(b"aGVs bG8=", Base64Format::Standard);
    assert_eq!(out, Err(Error::Codec));
}

#[test]
fn decoded_bytes_must_be_text() {
    let bad = encode(&[0xff, 0xfe, 0x01], Base64Format::Standard);
    let out = decode_text(&bad, Base64Format::Standard);
    assert_eq!(out, Err(Error::Encoding));
}

#[test]
fn round_trip_both_alphabets() {
    let buffers: Vec<Vec<u8>> = vec![
        Vec::new(),
        b"a".to_vec(),
        b"ab".to_vec(),
        b"abc".to_vec(),
        b"abcd".to_vec(),
        b"hello world, hello base64".to_vec(),
        vec![0u8, 255, 17, 3, 200, 99, 1],
    ];
    for buf in buffers {
        for format in [Base64Format::Standard, Base64Format::UrlSafe] {
            let text = encode(&buf, format);
            assert_eq!(decode(&text, format), Ok(buf.clone()));
        }
    }
}

#[test]
fn matches_base64_crate_encoding() {
    let buffers: Vec<Vec<u8>> = vec![
        Vec::new(),
        b"f".to_vec(),
        b"fo".to_vec(),
        b"foo".to_vec(),
        b"foobar".to_vec(),
        vec![251u8, 239, 190, 0, 62, 63],
    ];
    for buf in buffers {
        let std_text = String::from_utf8(encode(&buf, Base64Format::Standard)).unwrap();
        assert_eq!(std_text, STANDARD.encode(&buf));
        let url_text = String::from_utf8(encode(&buf, Base64Format::UrlSafe)).unwrap();
        assert_eq!(url_text, URL_SAFE_NO_PAD.encode(&buf));
    }
}

#[test]
fn matches_base64_crate_decoding() {
    let texts = ["", "Zg==", "Zm8=", "Zm9v", "Zm9vYmFy", "+/8=", "aGVsbG8="];
    for text in texts {
        let ours = decode(text.as_bytes(), Base64Format::Standard);
        let theirs = STANDARD.decode(text);
        assert_eq!(ours.ok(), theirs.ok());
    }
    let url_texts = ["", "Zg", "Zm8", "Zm9v", "-_8", "aGVsbG8"];
    for text in url_texts {
        let ours = decode(text.as_bytes(), Base64Format::UrlSafe);
        let theirs = URL_SAFE_NO_PAD.decode(text);
        assert_eq!(ours.ok(), theirs.ok());
    }
}

#[test]
fn standard_symbols_decode() {
    // '+' and '/' belong to the standard alphabet only.
    assert_eq!(
        decode(b"+/+/", Base64Format::Standard).unwrap(),
        vec![0xfb, 0xff, 0xbf]
    );
    assert_eq!(decode(b"+/+/", Base64Format::UrlSafe), Err(Error::Codec));
    assert_eq!(
        decode(b"-_-_", Base64Format::UrlSafe).unwrap(),
        vec![0xfb, 0xff, 0xbf]
    );
    assert_eq!(decode(b"-_-_", Base64Format::Standard), Err(Error::Codec));
}
