use rg_launcher::frame::{decode_fields, encode_fields};

#[test]
fn fields_are_length_prefixed() {
    let fields = vec![b"http://x/video".to_vec(), Vec::new(), b"My|Video\n".to_vec()];
    let bytes = encode_fields(&fields);
    let mut expected = vec![0, 0, 0, 14];
    expected.extend_from_slice(b"http://x/video");
    expected.extend_from_slice(&[0, 0, 0, 0]);
    expected.extend_from_slice(&[0, 0, 0, 9]);
    expected.extend_from_slice(b"My|Video\n");
    assert_eq!(bytes, expected);
    assert_eq!(decode_fields(&bytes), Some(fields));
}

#[test]
fn long_field_round_trips() {
    let fields = vec![vec![7u8; 300]];
    let bytes = encode_fields(&fields);
    assert_eq!(&bytes[..4], &[0, 0, 1, 44]);
    assert_eq!(decode_fields(&bytes), Some(fields));
}

#[test]
fn no_fields_is_no_bytes() {
    assert!(encode_fields(&Vec::new()).is_empty());
    assert_eq!(decode_fields(&Vec::new()), Some(Vec::new()));
}

#[test]
fn cut_short_bytes_are_refused() {
    assert_eq!(decode_fields(&vec![0, 0, 1]), None);
    assert_eq!(decode_fields(&vec![0, 0, 0, 5, 1, 2]), None);
    assert_eq!(decode_fields(&vec![0, 0, 0, 1, 9, 0]), None);
}
