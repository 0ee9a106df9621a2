use webrtc_transfer::sdp::{
    checked_decode_sdp, decode_sdp, encode_sdp, sdp_of_decompressed, text_of_compressed, SdpError,
};

const SDP: &str = "v=0\r\no=- 4611731400430051336 2 IN IP4 127.0.0.1\r\ns=-\r\nt=0 0\r\n";

#[test]
fn sdp_is_read_back() {
    let text = encode_sdp(SDP);
    assert_ne!(text, SDP);
    assert_eq!(decode_sdp(&text).ok().unwrap(), SDP);
}

#[test]
fn any_description_is_read_back() {
    for sdp in ["", "x", "\u{1f980} \u{e9}\0", &SDP.repeat(200)] {
        let text = encode_sdp(sdp);
        assert!(text.len() >= 2);
        assert!(text
            .chars()
            .all(|c| c.is_ascii_alphanumeric() || c == '-' || c == '_'));
        assert_eq!(decode_sdp(&text).ok().unwrap(), sdp);
        assert_eq!(checked_decode_sdp(&text).unwrap().ok().unwrap(), sdp);
    }
}

#[test]
fn a_long_description_gets_shorter() {
    let sdp = SDP.repeat(50);
    assert!(encode_sdp(&sdp).len() < sdp.len() / 10);
}

#[test]
fn a_given_text_is_read() {
    assert_eq!(decode_sdp("jwKAaGVsbG8KAw").ok().unwrap(), "hello\n");
}

#[test]
fn compressed_bytes_become_base64() {
    assert_eq!(text_of_compressed(&[]), "");
    assert_eq!(text_of_compressed(&[0, 0, 0]), "AAAA");
    assert_eq!(text_of_compressed(&[0xfb, 0xff]), "-_8");
    assert_eq!(text_of_compressed(b"Man"), "TWFu");
    assert_eq!(text_of_compressed(b"Ma"), "TWE");
    assert_eq!(text_of_compressed(b"M"), "TQ");
}

#[test]
fn what_is_not_base64_is_refused() {
    for text in ["***", "AA==", "AB", "A", "AAAA+", "jwKA aGVsbG8KAw"] {
        assert!(matches!(decode_sdp(text), Err(SdpError::Base64(_))));
        assert!(matches!(checked_decode_sdp(text), Some(Err(SdpError::Base64(_)))));
    }
}

#[test]
fn what_is_not_utf8_is_refused() {
    let text = text_of_compressed(&[0x8f, 0x02, 0x80, 0xff, 0x65, 0x6c, 0x6c, 0x6f, 0x0a, 0x03]);
    assert!(matches!(decode_sdp(&text), Err(SdpError::Utf8(_))));
    assert!(matches!(checked_decode_sdp(&text), Some(Err(SdpError::Utf8(_)))));
}

#[test]
fn what_is_not_brotli_is_told_apart() {
    let cut_short = text_of_compressed(&[0x8f, 0x02, 0x80, 0x68]);
    assert!(checked_decode_sdp(&cut_short).is_none());
    let garbage = text_of_compressed(&[0xff, 0xff, 0xff, 0xff, 0xff, 0xff]);
    assert!(checked_decode_sdp(&garbage).is_none());
}

#[test]
fn decompressed_bytes_become_a_description() {
    assert_eq!(sdp_of_decompressed(b"v=0".to_vec()).ok().unwrap(), "v=0");
    assert!(matches!(sdp_of_decompressed(vec![0xff]), Err(SdpError::Utf8(_))));
}

#[test]
fn different_descriptions_have_different_texts() {
    assert_ne!(encode_sdp("v=0"), encode_sdp("v=1"));
    assert_ne!(encode_sdp(""), encode_sdp(" "));
}
