use ghostty_web::utf8_stream::{decode_utf8_lossy_streaming, utf8_lossy, StreamDecoder};

#[test]
fn decodes_ascii_whole() {
    let (s, rest) = decode_utf8_lossy_streaming(b"hello");
    assert_eq!(s, "hello");
    assert!(rest.is_empty());
}

#[test]
fn holds_back_incomplete_tail() {
    let (s, rest) = decode_utf8_lossy_streaming(&[b'x', 0xE2, 0x82]);
    assert_eq!(s, "x");
    assert_eq!(rest, vec![0xE2, 0x82]);
}

#[test]
fn replaces_invalid_bytes() {
    let (s, rest) = decode_utf8_lossy_streaming(&[0x61, 0xFF, 0x62]);
    assert_eq!(s, "a\u{FFFD}b");
    assert!(rest.is_empty());
}

#[test]
fn one_replacement_per_maximal_subpart() {
    // E0 must be followed by A0..BF: E0 80 is two ill-formed subparts.
    let (s, _) = decode_utf8_lossy_streaming(&[0xE0, 0x80, 0x41]);
    assert_eq!(s, "\u{FFFD}\u{FFFD}A");
    // F0 9F 98 followed by 'A': one ill-formed subpart of three bytes.
    let (s, _) = decode_utf8_lossy_streaming(&[0xF0, 0x9F, 0x98, 0x41]);
    assert_eq!(s, "\u{FFFD}A");
    // surrogate encoding ED A0 80
    let (s, _) = decode_utf8_lossy_streaming(&[0xED, 0xA0, 0x80]);
    assert_eq!(s, "\u{FFFD}\u{FFFD}\u{FFFD}");
}

#[test]
fn decodes_multibyte_characters() {
    let text = "é€😀";
    let (s, rest) = decode_utf8_lossy_streaming(text.as_bytes());
    assert_eq!(s, text);
    assert!(rest.is_empty());
}

fn std_streaming(buf: &[u8]) -> (String, Vec<u8>) {
    match std::str::from_utf8(buf) {
        Ok(s) => (s.to_string(), Vec::new()),
        Err(e) => {
            let valid_up_to = e.valid_up_to();
            let head = std::str::from_utf8(&buf[..valid_up_to]).unwrap().to_string();
            let tail = &buf[valid_up_to..];
            match e.error_len() {
                Some(len) => {
                    let mut s = head;
                    s.push('\u{FFFD}');
                    let (more, last) = std_streaming(&tail[len..]);
                    s.push_str(&more);
                    (s, last)
                }
                None => (head, tail.to_vec()),
            }
        }
    }
}

#[test]
fn agrees_with_std_on_all_two_byte_inputs() {
    for a in 0..=255u8 {
        for b in 0..=255u8 {
            let buf = [a, b];
            assert_eq!(decode_utf8_lossy_streaming(&buf), std_streaming(&buf), "{:?}", buf);
            assert_eq!(utf8_lossy(&buf), String::from_utf8_lossy(&buf), "{:?}", buf);
        }
    }
}

#[test]
fn agrees_with_std_on_many_longer_inputs() {
    let interesting: Vec<u8> = vec![
        0x00, 0x41, 0x7F, 0x80, 0x8F, 0x90, 0x9F, 0xA0, 0xBF, 0xC0, 0xC1, 0xC2, 0xDF, 0xE0, 0xE1,
        0xEC, 0xED, 0xEE, 0xEF, 0xF0, 0xF1, 0xF3, 0xF4, 0xF5, 0xFF,
    ];
    for &a in &interesting {
        for &b in &interesting {
            for &c in &interesting {
                for &d in &interesting {
                    let buf = [a, b, c, d];
                    assert_eq!(decode_utf8_lossy_streaming(&buf), std_streaming(&buf), "{:?}", buf);
                    assert_eq!(utf8_lossy(&buf), String::from_utf8_lossy(&buf), "{:?}", buf);
                    assert_eq!(utf8_lossy(&buf[..3]), String::from_utf8_lossy(&buf[..3]));
                }
            }
        }
    }
}

#[test]
fn streaming_equals_whole_decoding() {
    let text = "ab€😀ç\u{FFFD}z".as_bytes().to_vec();
    let mut bytes = text.clone();
    bytes.insert(3, 0xFF);
    let (whole, whole_rest) = decode_utf8_lossy_streaming(&bytes);
    for split in 0..=bytes.len() {
        let mut dec = StreamDecoder::new();
        let mut out = dec.feed(&bytes[..split]);
        out.push_str(&dec.feed(&bytes[split..]));
        assert_eq!(out, whole, "split at {split}");
        assert!(whole_rest.is_empty());
    }
    // byte by byte
    let mut dec = StreamDecoder::new();
    let mut out = String::new();
    for b in &bytes {
        out.push_str(&dec.feed(std::slice::from_ref(b)));
    }
    assert_eq!(out, whole);
}

#[test]
fn decoder_keeps_at_most_three_bytes() {
    let mut dec = StreamDecoder::new();
    assert_eq!(dec.feed(&[0xF0, 0x9F, 0x98]), "");
    assert_eq!(dec.feed(&[0x80]), "😀");
}

#[test]
fn lossy_complete_replaces_truncated_tail() {
    assert_eq!(utf8_lossy(&[b'o', b'k', 0xE2, 0x82]), "ok\u{FFFD}");
    assert_eq!(utf8_lossy(b""), "");
}
