use witness_generator::field::{fe_from_u64, fe_zero, poseidon_two, Fe};
use witness_generator::{bytepack, data_hasher, field_element_to_base10_string, poseidon,
    polynomial_digest, ByteOrPad};

#[test]
fn test_bytepack() {
    let pack0 = bytepack(
        &[0u8, 0, 0].into_iter().map(ByteOrPad::Byte).collect::<Vec<ByteOrPad>>(),
    );
    assert_eq!(pack0, Some(fe_from_u64(0)));

    let pack1 = bytepack(
        &[1u8, 0, 0].into_iter().map(ByteOrPad::Byte).collect::<Vec<ByteOrPad>>(),
    );
    assert_eq!(pack1, Some(fe_from_u64(1)));

    let pack2 = bytepack(
        &[0u8, 1, 0].into_iter().map(ByteOrPad::Byte).collect::<Vec<ByteOrPad>>(),
    );
    assert_eq!(pack2, Some(fe_from_u64(256)));

    let pack3 = bytepack(
        &[0u8, 0, 1].into_iter().map(ByteOrPad::Byte).collect::<Vec<ByteOrPad>>(),
    );
    assert_eq!(pack3, Some(fe_from_u64(65536)));

    let pack4 = bytepack(&[ByteOrPad::Pad; 3]);
    assert_eq!(pack4, None);

    let pack5 = bytepack(&[ByteOrPad::Pad; 16]);
    assert_eq!(pack5, None);

    // A padding slot between real bytes contributes zero but the chunk still
    // packs.
    let pack6 = bytepack(&[ByteOrPad::Pad, ByteOrPad::Byte(1), ByteOrPad::Pad]);
    assert_eq!(pack6, Some(fe_from_u64(256)));
}

#[test]
fn test_poseidon() {
    let hash = poseidon(&[fe_from_u64(0), fe_from_u64(0)]);
    assert_eq!(hash.bytes, vec![
        100, 72, 182, 70, 132, 238, 57, 168, 35, 213, 254, 95, 213, 36, 49, 220, 129, 228, 129,
        123, 242, 195, 234, 60, 171, 158, 35, 158, 251, 245, 152, 32,
    ]);

    let hash = poseidon(&[fe_from_u64(69), fe_from_u64(420)]);
    assert_eq!(hash.bytes, vec![
        10, 230, 247, 95, 9, 23, 36, 117, 25, 37, 98, 141, 178, 220, 241, 100, 187, 169, 126, 226,
        80, 175, 17, 100, 232, 1, 29, 0, 165, 144, 139, 2,
    ]);
}

#[test]
fn test_data_hasher() {
    let hash = data_hasher(&[ByteOrPad::Byte(0); 16], &fe_zero());
    assert_eq!(
        field_element_to_base10_string(&hash),
        "14744269619966411208579211824598458697587494354926760081771325075741142829156"
    );

    let hash = data_hasher(&[ByteOrPad::Pad; 16], &fe_zero());
    assert_eq!(hash, fe_zero());

    let mut hash_input = [ByteOrPad::Byte(0); 16];
    hash_input[0] = ByteOrPad::Byte(1);
    let hash = data_hasher(hash_input.as_ref(), &fe_zero());
    assert_eq!(hash, poseidon_two(&fe_zero(), &fe_from_u64(1)));

    hash_input = [ByteOrPad::Byte(0); 16];
    hash_input[15] = ByteOrPad::Byte(1);
    let hash = data_hasher(hash_input.as_ref(), &fe_zero());
    let packed = bytepack(&hash_input).unwrap();
    assert_eq!(
        field_element_to_base10_string(&packed),
        "1329227995784915872903807060280344576"
    );
    assert_eq!(hash, poseidon_two(&fe_zero(), &packed));
}

#[test]
fn test_data_hasher_ignores_trailing_padding() {
    let seed = poseidon_two(&fe_from_u64(7), &fe_from_u64(11));
    let mut input: Vec<ByteOrPad> = (1u8..=16).map(ByteOrPad::Byte).collect();
    let short = data_hasher(&input, &seed);
    input.extend(std::iter::repeat(ByteOrPad::Pad).take(16));
    let long = data_hasher(&input, &seed);
    assert_eq!(short, long);
}

#[test]
fn test_polynomial_digest() {
    let bytes = [1, 2, 3, 4, 5];
    let digest_ctr_0 = polynomial_digest(&bytes, &fe_from_u64(2), 0);
    assert_eq!(
        digest_ctr_0,
        fe_from_u64(1 + 2 * 2 + 3 * 2_u64.pow(2) + 4 * 2_u64.pow(3) + 5 * 2_u64.pow(4))
    );

    let digest_ctr_2 = polynomial_digest(&bytes, &fe_from_u64(2), 2);
    assert_eq!(
        digest_ctr_2,
        fe_from_u64(
            2_u64.pow(2) + 2 * 2_u64.pow(3) + 3 * 2_u64.pow(4) + 4 * 2_u64.pow(5)
                + 5 * 2_u64.pow(6)
        )
    );
}

#[test]
fn test_polynomial_digest_horner_example() {
    // bytes[0] + p * digest(bytes[1..]) equals digest(bytes) for p = 7
    let p = fe_from_u64(7);
    let bytes = [9u8, 8, 7, 6];
    let whole = polynomial_digest(&bytes, &p, 0);
    let tail = polynomial_digest(&bytes[1..], &p, 0);
    let expected = fe_from_u64(9 + 7 * (8 + 7 * (7 + 7 * 6)));
    assert_eq!(whole, expected);
    // and the tail digest scaled by p, shifted by the head byte
    let tail_val = 8 + 7 * (7 + 7 * 6u64);
    assert_eq!(tail, fe_from_u64(tail_val));
}

#[test]
fn test_polynomial_digest_counter_scales() {
    // digest with counter k equals p^k times the digest with counter 0
    let p = fe_from_u64(3);
    let bytes = [5u8, 4, 3];
    let base = polynomial_digest(&bytes, &p, 0);
    let offset = polynomial_digest(&bytes, &p, 2);
    let base_val = 5 + 3 * 4 + 9 * 3u64;
    assert_eq!(base, fe_from_u64(base_val));
    assert_eq!(offset, fe_from_u64(9 * base_val));
}

#[test]
fn test_field_element_to_base10_string() {
    assert_eq!(field_element_to_base10_string(&fe_from_u64(0)), "0");
    assert_eq!(field_element_to_base10_string(&fe_from_u64(12345)), "12345");
    let minus_one = ByteOrPad::Pad.to_field();
    assert_eq!(
        field_element_to_base10_string(&minus_one),
        "21888242871839275222246405745257275088548364400416034343698204186575808495616"
    );
}

#[test]
fn test_byte_or_pad_padding() {
    let padded = ByteOrPad::pad_to_nearest_multiple(&[1, 2, 3], 16);
    assert_eq!(padded.len(), 16);
    assert_eq!(padded[0], ByteOrPad::Byte(1));
    assert_eq!(padded[3], ByteOrPad::Pad);
    assert_eq!(ByteOrPad::as_bytes(&padded)[..3], [1, 2, 3]);
    assert!(ByteOrPad::as_bytes(&padded)[3..].iter().all(|&b| b == 0));

    let exact = ByteOrPad::pad_to_nearest_multiple(&[0u8; 32], 16);
    assert_eq!(exact.len(), 32);

    let with_padding = ByteOrPad::from_bytes_with_padding(&[9, 9], 5);
    assert_eq!(with_padding.len(), 7);
    assert!(!ByteOrPad::Pad.eq_byte(0));
    assert!(ByteOrPad::Byte(13).eq_byte(13));

    let one: Fe = ByteOrPad::Byte(1).to_field();
    assert_eq!(one, fe_from_u64(1));
}
