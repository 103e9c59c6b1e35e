use witness_generator::field::{fe_from_u64, fe_zero, poseidon_two, Fe};
use witness_generator::json::{JsonKey, RawJsonMachine};
use witness_generator::{compress_tree_hash, field_element_to_base10_string, json_tree_hasher,
    json_value_digest, polynomial_digest, ByteOrPad, Request, Response, ResponseBody,
    WitnessGeneratorError};

const KEY_0: &str = "data";
const KEY_1: &str = "items";
const KEY_2: &str = "profile";
const KEY_3: &str = "name";

fn polynomial_input() -> Fe {
    poseidon_two(&fe_from_u64(69), &fe_from_u64(420))
}

fn tswift_keys() -> Vec<JsonKey> {
    vec![
        JsonKey::String(KEY_0.to_string()),
        JsonKey::String(KEY_1.to_string()),
        JsonKey::Num(0),
        JsonKey::String(KEY_2.to_string()),
        JsonKey::String(KEY_3.to_string()),
    ]
}

fn string_hash(input: &str, polynomial_input: &Fe) -> Fe {
    polynomial_digest(input.as_bytes(), polynomial_input, 0)
}

#[test]
fn test_json_tree_hasher() {
    let polynomial_input = polynomial_input();
    let raw_json_machine =
        RawJsonMachine::from_chosen_sequence_and_input(&polynomial_input, &tswift_keys(), 10)
            .unwrap();

    assert_eq!(raw_json_machine.stack[0], (fe_from_u64(1), fe_from_u64(1)));
    assert_eq!(raw_json_machine.stack[1], (fe_from_u64(1), fe_from_u64(1)));
    assert_eq!(raw_json_machine.stack[2], (fe_from_u64(2), fe_from_u64(0)));
    assert_eq!(raw_json_machine.stack[3], (fe_from_u64(1), fe_from_u64(1)));
    assert_eq!(raw_json_machine.stack[4], (fe_from_u64(1), fe_from_u64(1)));

    assert_eq!(
        raw_json_machine.tree_hash[0],
        (string_hash(KEY_0, &polynomial_input), fe_zero())
    );
    assert_eq!(
        raw_json_machine.tree_hash[1],
        (string_hash(KEY_1, &polynomial_input), fe_zero())
    );
    assert_eq!(raw_json_machine.tree_hash[2], (fe_zero(), fe_zero()));
    assert_eq!(
        raw_json_machine.tree_hash[3],
        (string_hash(KEY_2, &polynomial_input), fe_zero())
    );
    assert_eq!(
        raw_json_machine.tree_hash[4],
        (string_hash(KEY_3, &polynomial_input), fe_zero())
    );

    // Empty sequence: all slots stay zero.
    let result = RawJsonMachine::from_chosen_sequence_and_input(&fe_from_u64(7), &vec![], 10);
    assert!(result.is_ok());
    let machine = result.unwrap();
    assert_eq!(machine.polynomial_input, fe_from_u64(7));
    assert!(machine.stack.iter().all(|p| p.0 == fe_zero() && p.1 == fe_zero()));

    // A single string key.
    let sequence = vec![JsonKey::String("test".to_string())];
    let machine =
        RawJsonMachine::from_chosen_sequence_and_input(&fe_from_u64(7), &sequence, 10).unwrap();
    assert_eq!(machine.stack[0], (fe_from_u64(1), fe_from_u64(1)));
    assert_eq!(
        machine.tree_hash[0],
        (polynomial_digest("test".as_bytes(), &fe_from_u64(7), 0), fe_zero())
    );

    // A single array index.
    let sequence = vec![JsonKey::Num(5)];
    let machine =
        RawJsonMachine::from_chosen_sequence_and_input(&fe_from_u64(7), &sequence, 10).unwrap();
    assert_eq!(machine.stack[0], (fe_from_u64(2), fe_from_u64(5)));
    assert_eq!(machine.tree_hash[0], (fe_zero(), fe_zero()));

    // A mixed sequence.
    let sequence = vec![
        JsonKey::String("outer".to_string()),
        JsonKey::Num(3),
        JsonKey::String("inner".to_string()),
    ];
    let machine =
        RawJsonMachine::from_chosen_sequence_and_input(&fe_from_u64(7), &sequence, 10).unwrap();
    assert_eq!(machine.stack[0], (fe_from_u64(1), fe_from_u64(1)));
    assert_eq!(machine.stack[1], (fe_from_u64(2), fe_from_u64(3)));
    assert_eq!(machine.stack[2], (fe_from_u64(1), fe_from_u64(1)));

    // A sequence longer than the stack bound is refused.
    let long_sequence = (0..11).map(JsonKey::Num).collect::<Vec<_>>();
    let result =
        RawJsonMachine::from_chosen_sequence_and_input(&fe_from_u64(7), &long_sequence, 10);
    assert!(result.is_err());
    assert!(matches!(result.unwrap_err(), WitnessGeneratorError::JsonKeyError(_)));
}

#[test]
fn test_free_json_tree_hasher_matches_raw_machine() {
    let polynomial_input = polynomial_input();
    let keys = tswift_keys();
    let (stack, tree_hashes) = json_tree_hasher(&polynomial_input, &keys, 10);
    assert_eq!(stack.len(), keys.len());
    assert_eq!(tree_hashes.len(), keys.len());
    let digest = compress_tree_hash(&polynomial_input, (stack, tree_hashes));

    // The raw machine pads the columns with zeros past the path, which the
    // compression absorbs only if the digests agree up front; check against a
    // machine of exactly the path's height.
    let raw = RawJsonMachine::from_chosen_sequence_and_input(&polynomial_input, &keys, 5).unwrap();
    assert_eq!(digest, raw.compress_tree_hash());
}

#[test]
fn test_compress_tree_hash() {
    let mut empty = RawJsonMachine::initial_state(10);
    empty.polynomial_input = fe_from_u64(7);
    assert_eq!(empty.compress_tree_hash(), fe_zero());

    // A single entry: 1 + 2 p + 3 p^2 at p = 7.
    let mut single = empty.clone();
    single.stack[0] = (fe_from_u64(1), fe_from_u64(2));
    single.tree_hash[0] = (fe_from_u64(3), fe_zero());
    assert_eq!(
        single.compress_tree_hash(),
        fe_from_u64(1 + 2 * 7 + 3 * 7 * 7)
    );

    // Two entries spread over six monomials.
    let mut multi = empty.clone();
    multi.stack[0] = (fe_from_u64(1), fe_from_u64(1));
    multi.stack[1] = (fe_from_u64(2), fe_zero());
    multi.tree_hash[0] = (fe_from_u64(5), fe_zero());
    multi.tree_hash[1] = (fe_from_u64(7), fe_zero());
    let p = 7u64;
    let expected = 1 + p + 5 * p.pow(2) + 2 * p.pow(3) + 7 * p.pow(5);
    assert_eq!(multi.compress_tree_hash(), fe_from_u64(expected));

    // A different polynomial input changes the digest.
    let mut machine1 = empty.clone();
    let mut machine2 = empty.clone();
    machine2.polynomial_input = fe_from_u64(11);
    machine1.stack[0] = (fe_from_u64(1), fe_from_u64(1));
    machine1.tree_hash[0] = (fe_from_u64(3), fe_zero());
    machine2.stack[0] = (fe_from_u64(1), fe_from_u64(1));
    machine2.tree_hash[0] = (fe_from_u64(3), fe_zero());
    assert_ne!(machine1.compress_tree_hash(), machine2.compress_tree_hash());

    // The same value in a different slot changes the digest.
    let mut pos1 = empty.clone();
    let mut pos2 = empty.clone();
    pos1.stack[0] = (fe_from_u64(1), fe_zero());
    pos2.stack[1] = (fe_from_u64(1), fe_zero());
    assert_ne!(pos1.compress_tree_hash(), pos2.compress_tree_hash());
}

#[test]
fn test_chosen_sequence_digest_sensitivity() {
    let p1 = polynomial_input();
    let p2 = poseidon_two(&fe_from_u64(420), &fe_from_u64(69));
    let keys = tswift_keys();

    let digest_of = |p: &Fe, keys: &Vec<JsonKey>| {
        RawJsonMachine::from_chosen_sequence_and_input(p, keys, 10)
            .unwrap()
            .compress_tree_hash()
    };

    // Same inputs give the same digest.
    assert_eq!(digest_of(&p1, &keys), digest_of(&p1, &keys));
    // Changing the polynomial input changes the digest.
    assert_ne!(digest_of(&p1, &keys), digest_of(&p2, &keys));
    // Permuting the keys changes the digest.
    let mut permuted = keys.clone();
    permuted.swap(0, 1);
    assert_ne!(digest_of(&p1, &keys), digest_of(&p1, &permuted));
    // Moving a key to a different slot changes the digest.
    let moved = vec![
        JsonKey::String(String::new()),
        JsonKey::String(KEY_0.to_string()),
    ];
    let orig = vec![
        JsonKey::String(KEY_0.to_string()),
        JsonKey::String(String::new()),
    ];
    assert_ne!(digest_of(&p1, &orig), digest_of(&p1, &moved));
}

#[test]
fn test_json_value_digest() {
    let json = r#"{"data": {"items": [{"profile": {"name": "Taylor Swift"}}]}}"#;
    let value = json_value_digest(&json.as_bytes().to_vec(), &tswift_keys(), 5).unwrap();
    assert_eq!(value, b"Taylor Swift");
}

#[test]
fn lib_test_json_value_digest() {
    // The padded pipeline: the document is padded out to 1024 sentinels and
    // stripped back before the lookup.
    let json = r#"{"data": {"items": [{"profile": {"name": "Taylor Swift"}}]}}"#;
    let json_bytes_padded = ByteOrPad::from_bytes_with_padding(json.as_bytes(), 1024);
    let pad_index = json_bytes_padded
        .iter()
        .position(|b| matches!(b, ByteOrPad::Pad))
        .unwrap_or(json_bytes_padded.len());
    let stripped = ByteOrPad::as_bytes(&json_bytes_padded[..pad_index]);

    let value = json_value_digest(&stripped, &tswift_keys(), 5).unwrap();
    assert_eq!(value, b"Taylor Swift");
}

#[test]
fn test_json_value_digest_primitives() {
    let json = r#"{"a": [12, 34.5, true, null, "x"]}"#.as_bytes().to_vec();
    let key = |i: usize| vec![JsonKey::String("a".to_string()), JsonKey::Num(i)];
    assert_eq!(json_value_digest(&json, &key(0), 5).unwrap(), b"12");
    assert_eq!(json_value_digest(&json, &key(1), 5).unwrap(), b"34.5");
    assert_eq!(json_value_digest(&json, &key(2), 5).unwrap(), b"true");
    assert_eq!(json_value_digest(&json, &key(3), 5).unwrap(), b"null");
    assert_eq!(json_value_digest(&json, &key(4), 5).unwrap(), b"x");
}

#[test]
fn test_json_value_digest_errors() {
    let json = r#"{"a": {"b": 1}}"#.as_bytes().to_vec();
    // missing key
    let missing = vec![JsonKey::String("zz".to_string())];
    assert!(matches!(
        json_value_digest(&json, &missing, 5),
        Err(WitnessGeneratorError::JsonKeyError(_))
    ));
    // index out of bounds
    let oob = vec![JsonKey::String("a".to_string()), JsonKey::Num(3)];
    assert!(matches!(
        json_value_digest(&json, &oob, 5),
        Err(WitnessGeneratorError::JsonKeyError(_))
    ));
    // terminal value is an object
    let object = vec![JsonKey::String("a".to_string())];
    assert!(matches!(
        json_value_digest(&json, &object, 5),
        Err(WitnessGeneratorError::JsonKeyError(_))
    ));
    // not JSON at all
    let garbage = b"this is not json".to_vec();
    assert!(matches!(
        json_value_digest(&garbage, &object, 5),
        Err(WitnessGeneratorError::SerdeJson(_))
    ));
}

fn mock_manifest_response() -> Response {
    let headers = vec![
        ("content-type".to_string(), "application/json; charset=utf-8".to_string()),
        ("content-encoding".to_string(), "gzip".to_string()),
    ];
    Response {
        status: "200".to_string(),
        version: "HTTP/1.1".to_string(),
        message: "OK".to_string(),
        headers,
        body: ResponseBody { json: tswift_keys() },
    }
}

const TEST_CIPHERTEXT: [u8; 320] = [
    2, 125, 219, 141, 140, 93, 49, 129, 95, 178, 135, 109, 48, 36, 194, 46, 239, 155, 160, 70,
    208, 147, 37, 212, 17, 195, 149, 190, 38, 215, 23, 241, 84, 204, 167, 184, 179, 172, 187, 145,
    38, 75, 123, 96, 81, 6, 149, 36, 135, 227, 226, 254, 177, 90, 241, 159, 0, 230, 183, 163, 210,
    88, 133, 176, 9, 122, 225, 83, 171, 157, 185, 85, 122, 4, 110, 52, 2, 90, 36, 189, 145, 63,
    122, 75, 94, 21, 163, 24, 77, 85, 110, 90, 228, 157, 103, 41, 59, 128, 233, 149, 57, 175, 121,
    163, 185, 144, 162, 100, 17, 34, 9, 252, 162, 223, 59, 221, 106, 127, 104, 11, 121, 129, 154,
    49, 66, 220, 65, 130, 171, 165, 43, 8, 21, 248, 12, 214, 33, 6, 109, 3, 144, 52, 124, 225,
    206, 223, 213, 86, 186, 93, 170, 146, 141, 145, 140, 57, 152, 226, 218, 57, 30, 4, 131, 161,
    0, 248, 172, 49, 206, 181, 47, 231, 87, 72, 96, 139, 145, 117, 45, 77, 134, 249, 71, 87, 178,
    239, 30, 244, 156, 70, 118, 180, 176, 90, 92, 80, 221, 177, 86, 120, 222, 223, 244, 109, 150,
    226, 142, 97, 171, 210, 38, 117, 143, 163, 204, 25, 223, 238, 209, 58, 59, 100, 1, 86, 241,
    103, 152, 228, 37, 187, 79, 36, 136, 133, 171, 41, 184, 145, 146, 45, 192, 173, 219, 146, 133,
    12, 246, 190, 5, 54, 99, 155, 8, 198, 156, 174, 99, 12, 210, 95, 5, 128, 166, 118, 50, 66, 26,
    20, 3, 129, 232, 1, 192, 104, 23, 152, 212, 94, 97, 138, 162, 90, 185, 108, 221, 211, 247,
    184, 253, 15, 16, 24, 32, 240, 240, 3, 148, 89, 30, 54, 161, 131, 230, 161, 217, 29, 229, 251,
    33, 220, 230, 102, 131, 245, 27, 141, 220, 67, 16, 26,
];

#[test]
fn test_initial_digest() {
    let test_ciphertext_padded = TEST_CIPHERTEXT
        .iter()
        .map(|x| ByteOrPad::Byte(*x))
        .collect::<Vec<ByteOrPad>>();
    let ciphertext_digest = witness_generator::data_hasher(&test_ciphertext_padded, &fe_zero());

    let (ct_digest, _manifest_digest) = witness_generator::response_initial_digest(
        &mock_manifest_response(),
        &ciphertext_digest,
        5,
    );
    assert_eq!(
        field_element_to_base10_string(&ct_digest),
        "5947802862726868637928743536818722886587721698845887498686185738472802646104"
    );

    let request = Request {
        method: "GET".to_string(),
        url: "spotify.com".to_string(),
        version: "HTTP/1.1".to_string(),
        headers: vec![],
    };
    let (ct_digest, _manifest_digest) =
        witness_generator::request_initial_digest(&request, &ciphertext_digest);
    assert_eq!(
        field_element_to_base10_string(&ct_digest),
        "5947802862726868637928743536818722886587721698845887498686185738472802646104"
    );
}

#[test]
fn test_headers_to_bytes() {
    let headers = vec![("a".to_string(), "b c".to_string())];
    let lines = witness_generator::headers_to_bytes(&headers);
    assert_eq!(lines.len(), 1);
    assert_eq!(lines[0], b"a: b c");
    assert_eq!(witness_generator::default_version(), "HTTP/1.1");
    assert_eq!(witness_generator::default_message(), "OK");
}
