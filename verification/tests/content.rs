use image_index::content::{can_represent, digest_of, fnv1a_hash, represent, ContentStrategy};

#[test]
fn hash_of_nothing_is_the_offset() {
    assert_eq!(fnv1a_hash(b""), 0xcbf2_9ce4_8422_2325);
}

#[test]
fn hash_matches_published_vectors() {
    assert_eq!(fnv1a_hash(b"a"), 0xaf63_dc4c_8601_ec8c);
    assert_eq!(fnv1a_hash(b"b"), 0xaf63_df4c_8601_f1a5);
    assert_eq!(fnv1a_hash(b"foobar"), 0x8594_4171_f739_67e8);
    assert_eq!(fnv1a_hash(&[0u8]), 0xaf63_bd4c_8601_b7df);
}

#[test]
fn hash_depends_on_order() {
    assert_ne!(fnv1a_hash(b"ab"), fnv1a_hash(b"ba"));
}

#[test]
fn digest_is_sixteen_lower_case_hex_digits() {
    assert_eq!(digest_of(b""), "cbf29ce484222325");
    assert_eq!(digest_of(b"a"), "af63dc4c8601ec8c");
    assert_eq!(digest_of(b"foobar"), "85944171f73967e8");
}

#[test]
fn digest_keeps_leading_zeros() {
    // Found by search: the hash of these four bytes is below 2^60.
    let mut found = None;
    let mut n: u32 = 0;
    while found.is_none() {
        let bytes = n.to_le_bytes();
        if fnv1a_hash(&bytes) >> 60 == 0 {
            found = Some(bytes);
        }
        n += 1;
    }
    let bytes = found.unwrap();
    let text = digest_of(&bytes);
    assert_eq!(text.len(), 16);
    assert!(text.starts_with('0'));
    assert_eq!(u64::from_str_radix(&text, 16).unwrap(), fnv1a_hash(&bytes));
}

#[test]
fn digest_text_is_the_hash_in_hex() {
    for input in [&b"x"[..], &b"hello world"[..], &[0xffu8, 0x00, 0x7f][..]] {
        assert_eq!(digest_of(input), format!("{:016x}", fnv1a_hash(input)));
    }
}

#[test]
fn inline_text_is_padded_standard_base64() {
    assert_eq!(represent(ContentStrategy::Inline, b""), "");
    assert_eq!(represent(ContentStrategy::Inline, b"f"), "Zg==");
    assert_eq!(represent(ContentStrategy::Inline, b"fo"), "Zm8=");
    assert_eq!(represent(ContentStrategy::Inline, b"foo"), "Zm9v");
    assert_eq!(represent(ContentStrategy::Inline, b"hello"), "aGVsbG8=");
    assert_eq!(represent(ContentStrategy::Inline, &[0xfb, 0xff, 0xfe]), "+//+");
}

#[test]
fn strategies_give_different_texts() {
    assert_eq!(represent(ContentStrategy::Digest, b"hello"), digest_of(b"hello"));
    assert_ne!(
        represent(ContentStrategy::Digest, b"hello"),
        represent(ContentStrategy::Inline, b"hello")
    );
}

#[test]
fn digest_is_always_representable() {
    assert!(can_represent(ContentStrategy::Digest, 0));
    assert!(can_represent(ContentStrategy::Digest, usize::MAX));
}

#[test]
fn inline_is_representable_while_the_text_length_fits() {
    assert!(can_represent(ContentStrategy::Inline, 0));
    assert!(can_represent(ContentStrategy::Inline, 1 << 20));
    let most = usize::MAX / 4 * 3;
    assert!(can_represent(ContentStrategy::Inline, most));
    assert!(!can_represent(ContentStrategy::Inline, most + 1));
    assert!(!can_represent(ContentStrategy::Inline, usize::MAX));
}
