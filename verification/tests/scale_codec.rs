use pallet_poe::Content;
use pallet_poe::Post;
use pallet_poe::scale::decode_bytes;
use pallet_poe::scale::decode_compact;
use pallet_poe::scale::decode_content;
use pallet_poe::scale::decode_post;
use pallet_poe::scale::decode_u64;
use pallet_poe::scale::encode_bytes;
use pallet_poe::scale::encode_compact;
use pallet_poe::scale::encode_content;
use pallet_poe::scale::encode_post;
use pallet_poe::scale::encode_u64;

use parity_scale_codec::Compact;
use parity_scale_codec::Decode;
use parity_scale_codec::Encode;

#[test]
fn compact_single_byte_values() {
    assert_eq!(encode_compact(0), vec![0]);
    assert_eq!(encode_compact(1), vec![4]);
    assert_eq!(encode_compact(3), vec![12]);
    assert_eq!(encode_compact(63), vec![252]);
}

#[test]
fn compact_width_boundaries() {
    assert_eq!(encode_compact(64), vec![0x01, 0x01]);
    assert_eq!(encode_compact(16383), vec![0xfd, 0xff]);
    assert_eq!(encode_compact(16384), vec![0x02, 0x00, 0x01, 0x00]);
    assert_eq!(encode_compact(0x3fff_ffff), vec![0xfe, 0xff, 0xff, 0xff]);
    assert_eq!(encode_compact(0x4000_0000), vec![0x03, 0x00, 0x00, 0x00, 0x40]);
    assert_eq!(encode_compact(u32::MAX), vec![0x03, 0xff, 0xff, 0xff, 0xff]);
}

#[test]
fn compact_matches_reference_codec() {
    for n in [0u32, 1, 42, 63, 64, 255, 16383, 16384, 65536, 0x3fff_ffff, 0x4000_0000, u32::MAX] {
        assert_eq!(encode_compact(n), Compact(n).encode(), "value {n}");
        let decoded = Compact::<u32>::decode(&mut &encode_compact(n)[..]).unwrap();
        assert_eq!(decoded.0, n, "value {n}");
        let reference = Compact(n).encode();
        assert_eq!(decode_compact(&reference, 0), Some((n, reference.len())), "value {n}");
    }
}

#[test]
fn compact_rejects_non_canonical_and_truncated_input() {
    // 3 in the two-byte width: the canonical form is the single byte 12.
    assert_eq!(decode_compact(&[13, 0], 0), None);
    assert!(Compact::<u32>::decode(&mut &[13u8, 0][..]).is_err());
    // 100 in the four-byte width: the canonical form takes two bytes.
    assert_eq!(decode_compact(&[0x92, 0x01, 0, 0], 0), None);
    // Truncated two- and four-byte forms, and empty input.
    assert_eq!(decode_compact(&[0x01], 0), None);
    assert_eq!(decode_compact(&[0x02, 0x00, 0x01], 0), None);
    assert_eq!(decode_compact(&[], 0), None);
}

#[test]
fn byte_strings_match_reference_codec() {
    for payload in [&b""[..], b"a", b"hello", &[0u8; 200][..]] {
        let mine = encode_bytes(payload);
        let reference = payload.to_vec().encode();
        assert_eq!(mine, reference);
        let back = <Vec<u8>>::decode(&mut &mine[..]).unwrap();
        assert_eq!(back, payload.to_vec());
    }
}

#[test]
fn u64_encoding_matches_reference_codec() {
    for n in [0u64, 1, 256, u32::MAX as u64, u64::MAX] {
        assert_eq!(encode_u64(n), n.encode());
        assert_eq!(decode_u64(&encode_u64(n)), Some(n));
    }
    assert_eq!(decode_u64(&[1, 2, 3]), None);
}

#[test]
fn byte_strings_round_trip() {
    for payload in [&b""[..], b"key", &[7u8; 70][..]] {
        let encoded = encode_bytes(payload);
        assert_eq!(decode_bytes(&encoded), Some(payload.to_vec()));
    }
    // Length prefix that does not match the remaining bytes.
    assert_eq!(decode_bytes(&[8, 1]), None);
}

#[test]
fn content_encodings_are_exact() {
    assert_eq!(encode_content(&Content::Empty), vec![0]);
    assert_eq!(encode_content(&Content::Raw(vec![1, 2, 3])), vec![1, 12, 1, 2, 3]);
    assert_eq!(encode_content(&Content::IPFS(vec![9])), vec![2, 4, 9]);
    assert_eq!(encode_content(&Content::Hyper(vec![])), vec![3, 0]);
}

#[test]
fn content_payload_matches_reference_codec() {
    // An enum's wire form is its variant's tag byte followed by the fields'
    // encodings; cross-check the payload part against the reference codec.
    let payload = vec![1u8, 2, 3, 4, 5];
    let mine = encode_content(&Content::Raw(payload.clone()));
    let mut expected = vec![1u8];
    expected.extend_from_slice(&payload.encode());
    assert_eq!(mine, expected);
}

#[test]
fn content_round_trips_every_variant() {
    let values = [
        Content::Empty,
        Content::Raw(vec![]),
        Content::Raw(vec![1, 2, 3]),
        Content::IPFS(vec![0x12, 0x20, 0xaa]),
        Content::Hyper((0u8..100).collect()),
    ];
    for value in values {
        let encoded = encode_content(&value);
        let decoded = decode_content(&encoded).unwrap();
        assert_eq!(decoded, value);
    }
}

#[test]
fn content_decoding_rejects_malformed_input() {
    assert_eq!(decode_content(&[]), None);
    // Trailing byte after the empty variant.
    assert_eq!(decode_content(&[0, 0]), None);
    // Unknown tag.
    assert_eq!(decode_content(&[4]), None);
    // Length prefix does not match the remaining bytes.
    assert_eq!(decode_content(&[1, 12, 1, 2]), None);
    assert_eq!(decode_content(&[1, 12, 1, 2, 3, 4]), None);
    // Missing length prefix.
    assert_eq!(decode_content(&[2]), None);
}

#[test]
fn post_round_trips_and_matches_reference_prefix() {
    let post = Post { id: 77, content: Content::Raw(vec![5, 6]) };
    let encoded = encode_post(&post);
    assert_eq!(&encoded[..8], &77u64.encode()[..]);
    assert_eq!(&encoded[8..], &encode_content(&Content::Raw(vec![5, 6]))[..]);
    let decoded = decode_post(&encoded).unwrap();
    assert_eq!(decoded, post);
    assert_eq!(decode_post(&encoded[..7]), None);
}
