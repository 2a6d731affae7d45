use b64url::dispatch::{decode, encode, resolve_source, transform, Mode, Source};

/// Pairs of raw bytes and their unpadded base64url encoding.
fn cases() -> Vec<(Vec<u8>, Vec<u8>)> {
    vec![
        (b"hello".to_vec(), b"aGVsbG8".to_vec()),
        (b"hello\n".to_vec(), b"aGVsbG8K".to_vec()),
        (b"John Doe".to_vec(), b"Sm9obiBEb2U".to_vec()),
        (b"John Doe\n".to_vec(), b"Sm9obiBEb2UK".to_vec()),
        (b"\xF0\x9F\x8D\xA3".to_vec(), b"8J-Now".to_vec()),
        (b"\xF0\x9F\x8D\xA3\n".to_vec(), b"8J-Nowo".to_vec()),
        (
            b"\xde\x9a\x4c\x32\x9e\x0d\x5b\xa8\x39\xed\x33\x5b\xe1\x9c\x01\xd9".to_vec(),
            b"3ppMMp4NW6g57TNb4ZwB2Q".to_vec(),
        ),
        (
            b"\xde\x9a\x4c\x32\x9e\x0d\x5b\xa8\x39\xed\x33\x5b\xe1\x9c\x01\xd9\n".to_vec(),
            b"3ppMMp4NW6g57TNb4ZwB2Qo".to_vec(),
        ),
    ]
}

fn trailing_whitespaces() -> Vec<Vec<u8>> {
    vec![
        b"".to_vec(),
        b" ".to_vec(),
        b"  ".to_vec(),
        b"   ".to_vec(),
        b"\n".to_vec(),
        b"\n\n".to_vec(),
        b"\n\n\n".to_vec(),
    ]
}

#[test]
fn it_writes_encoded_bytes() {
    for (raw, encoded) in cases() {
        let output = encode(&raw);
        assert!(!output.is_empty());
        assert_eq!(output, [encoded.as_slice(), b"\n"].concat());
    }
}

#[test]
fn it_writes_decoded_bytes() {
    for (raw, encoded) in cases() {
        let result = decode(&encoded);
        assert!(result.is_ok());
        assert_eq!(result.unwrap(), raw);
    }
}

#[test]
fn it_ignores_trailing_whitespace() {
    for trailing_whitespace in trailing_whitespaces() {
        for (raw, encoded) in cases() {
            let input = [encoded.as_slice(), trailing_whitespace.as_slice()].concat();
            let result = decode(&input);
            assert!(result.is_ok());
            assert_eq!(result.unwrap(), raw);
        }
    }
}

#[test]
fn it_encodes_standard_input() {
    let files = vec![Some("-".to_string()), None];
    for file in files {
        let source = resolve_source(file);
        assert_eq!(source, Source::StandardInput);
        for (raw, encoded) in cases() {
            let output = transform(Mode::Encode, &raw).unwrap();
            assert_eq!(output, [encoded.as_slice(), b"\n"].concat());
        }
    }
}

#[test]
fn it_decode_standard_input() {
    let files = vec![Some("-".to_string()), None];
    for file in files {
        let source = resolve_source(file);
        assert_eq!(source, Source::StandardInput);
        for (raw, encoded) in cases() {
            let output = transform(Mode::Decode, &encoded).unwrap();
            assert_eq!(output, raw);
        }
    }
}

#[test]
fn encode_of_empty_input_is_a_bare_newline() {
    assert_eq!(encode(b""), b"\n".to_vec());
}

#[test]
fn decode_of_empty_input_is_empty() {
    assert_eq!(decode(b""), Ok(Vec::new()));
    assert_eq!(decode(b"\n"), Ok(Vec::new()));
    assert_eq!(decode(b"  \n"), Ok(Vec::new()));
}

#[test]
fn round_trip_of_generated_buffers() {
    // A fixed linear congruential generator stands in for random bytes,
    // over every input length residue modulo three.
    let mut state: u64 = 0x2545_f491_4f6c_dd1d;
    for len in 0..48usize {
        let mut raw: Vec<u8> = Vec::new();
        for _ in 0..len {
            state = state.wrapping_mul(6364136223846793005).wrapping_add(1442695040888963407);
            raw.push((state >> 56) as u8);
        }
        let encoded = encode(&raw);
        assert_eq!(decode(&encoded), Ok(raw.clone()));
        for ws in trailing_whitespaces() {
            let input = [encoded.as_slice(), ws.as_slice()].concat();
            assert_eq!(decode(&input), Ok(raw.clone()));
        }
    }
}

#[test]
fn transform_decode_rejects_what_decode_rejects() {
    assert_eq!(
        transform(Mode::Decode, b"a!b2"),
        Err(b64url::Error::InvalidEncoding)
    );
}
