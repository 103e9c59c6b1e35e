use witness_generator::field::{fe_from_u64, fe_zero, poseidon_two, Fe};
use witness_generator::http;
use witness_generator::http::RawHttpMachine;
use witness_generator::json;
use witness_generator::json::{JsonKey, JsonMachine, Location, RawJsonMachine};

const RESPONSE_PLAINTEXT: &str = "HTTP/1.1 200 OK\r\ncontent-type: application/json; charset=utf-8\r\ncontent-encoding: gzip\r\nTransfer-Encoding: chunked\r\n\r\n{\r\n   \"data\": {\r\n       \"items\": [\r\n           {\r\n               \"data\": \"Artist\",\r\n               \"profile\": {\r\n                \"name\": \"Taylor Swift\"\r\n               }\r\n           }\r\n       ]\r\n   }\r\n}";

fn polynomial_input() -> Fe {
    poseidon_two(&fe_from_u64(69), &fe_from_u64(420))
}

#[test]
fn parser_test_parse_http() {
    let polynomial_input = polynomial_input();
    let states = http::parse(RESPONSE_PLAINTEXT.as_bytes(), &polynomial_input).unwrap();
    assert_eq!(states.len(), RESPONSE_PLAINTEXT.len());

    let machine_state = RawHttpMachine::from_machine(states.last().unwrap());
    assert_eq!(machine_state.parsing_start, fe_zero());
    assert_eq!(machine_state.parsing_header, fe_zero());
    assert_eq!(machine_state.parsing_field_name, fe_zero());
    assert_eq!(machine_state.parsing_field_value, fe_zero());
    assert_eq!(machine_state.parsing_body, fe_from_u64(1));
    assert_eq!(machine_state.line_status, fe_from_u64(0));
    assert_eq!(machine_state.line_digest, fe_from_u64(0));
    assert_eq!(machine_state.line_monomial, fe_from_u64(0));
}

const HTTP_BYTES: [u8; 915] = [
    72, 84, 84, 80, 47, 49, 46, 49, 32, 50, 48, 48, 32, 79, 75, 13, 10, 67, 111, 110, 110, 101,
    99, 116, 105, 111, 110, 58, 32, 99, 108, 111, 115, 101, 13, 10, 67, 111, 110, 116, 101, 110,
    116, 45, 76, 101, 110, 103, 116, 104, 58, 32, 50, 50, 13, 10, 67, 97, 99, 104, 101, 45, 67,
    111, 110, 116, 114, 111, 108, 58, 32, 109, 97, 120, 45, 97, 103, 101, 61, 51, 48, 48, 13, 10,
    67, 111, 110, 116, 101, 110, 116, 45, 83, 101, 99, 117, 114, 105, 116, 121, 45, 80, 111, 108,
    105, 99, 121, 58, 32, 100, 101, 102, 97, 117, 108, 116, 45, 115, 114, 99, 32, 39, 110, 111,
    110, 101, 39, 59, 32, 115, 116, 121, 108, 101, 45, 115, 114, 99, 32, 39, 117, 110, 115, 97,
    102, 101, 45, 105, 110, 108, 105, 110, 101, 39, 59, 32, 115, 97, 110, 100, 98, 111, 120, 13,
    10, 67, 111, 110, 116, 101, 110, 116, 45, 84, 121, 112, 101, 58, 32, 116, 101, 120, 116, 47,
    112, 108, 97, 105, 110, 59, 32, 99, 104, 97, 114, 115, 101, 116, 61, 117, 116, 102, 45, 56,
    13, 10, 69, 84, 97, 103, 58, 32, 34, 101, 48, 101, 54, 53, 49, 48, 99, 49, 102, 99, 49, 51,
    98, 51, 97, 54, 51, 97, 99, 98, 99, 48, 54, 49, 53, 101, 101, 48, 55, 97, 52, 57, 53, 50, 56,
    55, 51, 97, 56, 100, 97, 55, 55, 48, 50, 55, 100, 48, 48, 52, 49, 50, 102, 99, 99, 102, 49,
    97, 53, 99, 101, 50, 57, 34, 13, 10, 83, 116, 114, 105, 99, 116, 45, 84, 114, 97, 110, 115,
    112, 111, 114, 116, 45, 83, 101, 99, 117, 114, 105, 116, 121, 58, 32, 109, 97, 120, 45, 97,
    103, 101, 61, 51, 49, 53, 51, 54, 48, 48, 48, 13, 10, 88, 45, 67, 111, 110, 116, 101, 110,
    116, 45, 84, 121, 112, 101, 45, 79, 112, 116, 105, 111, 110, 115, 58, 32, 110, 111, 115, 110,
    105, 102, 102, 13, 10, 88, 45, 70, 114, 97, 109, 101, 45, 79, 112, 116, 105, 111, 110, 115,
    58, 32, 100, 101, 110, 121, 13, 10, 88, 45, 88, 83, 83, 45, 80, 114, 111, 116, 101, 99, 116,
    105, 111, 110, 58, 32, 49, 59, 32, 109, 111, 100, 101, 61, 98, 108, 111, 99, 107, 13, 10, 88,
    45, 71, 105, 116, 72, 117, 98, 45, 82, 101, 113, 117, 101, 115, 116, 45, 73, 100, 58, 32, 55,
    56, 51, 49, 58, 51, 50, 55, 52, 49, 52, 58, 49, 50, 70, 57, 69, 54, 58, 49, 65, 51, 51, 67,
    50, 58, 54, 55, 54, 52, 54, 56, 70, 49, 13, 10, 65, 99, 99, 101, 112, 116, 45, 82, 97, 110,
    103, 101, 115, 58, 32, 98, 121, 116, 101, 115, 13, 10, 68, 97, 116, 101, 58, 32, 84, 104, 117,
    44, 32, 49, 57, 32, 68, 101, 99, 32, 50, 48, 50, 52, 32, 50, 49, 58, 51, 53, 58, 53, 57, 32,
    71, 77, 84, 13, 10, 86, 105, 97, 58, 32, 49, 46, 49, 32, 118, 97, 114, 110, 105, 115, 104, 13,
    10, 88, 45, 83, 101, 114, 118, 101, 100, 45, 66, 121, 58, 32, 99, 97, 99, 104, 101, 45, 104,
    121, 100, 49, 49, 48, 48, 48, 51, 52, 45, 72, 89, 68, 13, 10, 88, 45, 67, 97, 99, 104, 101,
    58, 32, 72, 73, 84, 13, 10, 88, 45, 67, 97, 99, 104, 101, 45, 72, 105, 116, 115, 58, 32, 48,
    13, 10, 88, 45, 84, 105, 109, 101, 114, 58, 32, 83, 49, 55, 51, 52, 54, 52, 52, 49, 54, 48,
    46, 53, 54, 48, 57, 53, 51, 44, 86, 83, 48, 44, 86, 69, 49, 13, 10, 86, 97, 114, 121, 58, 32,
    65, 117, 116, 104, 111, 114, 105, 122, 97, 116, 105, 111, 110, 44, 65, 99, 99, 101, 112, 116,
    45, 69, 110, 99, 111, 100, 105, 110, 103, 44, 79, 114, 105, 103, 105, 110, 13, 10, 65, 99, 99,
    101, 115, 115, 45, 67, 111, 110, 116, 114, 111, 108, 45, 65, 108, 108, 111, 119, 45, 79, 114,
    105, 103, 105, 110, 58, 32, 42, 13, 10, 67, 114, 111, 115, 115, 45, 79, 114, 105, 103, 105,
    110, 45, 82, 101, 115, 111, 117, 114, 99, 101, 45, 80, 111, 108, 105, 99, 121, 58, 32, 99,
    114, 111, 115, 115, 45, 111, 114, 105, 103, 105, 110, 13, 10, 88, 45, 70, 97, 115, 116, 108,
    121, 45, 82, 101, 113, 117, 101, 115, 116, 45, 73, 68, 58, 32, 50, 48, 97, 101, 102, 56, 55,
    48, 50, 53, 102, 54, 56, 52, 98, 101, 55, 54, 50, 53, 55, 102, 49, 53, 98, 102, 102, 53, 97,
    55, 57, 50, 97, 99, 49, 53, 97, 97, 100, 50, 13, 10, 69, 120, 112, 105, 114, 101, 115, 58, 32,
    84, 104, 117, 44, 32, 49, 57, 32, 68, 101, 99, 32, 50, 48, 50, 52, 32, 50, 49, 58, 52, 48, 58,
    53, 57, 32, 71, 77, 84, 13, 10, 83, 111, 117, 114, 99, 101, 45, 65, 103, 101, 58, 32, 49, 53,
    51, 13, 10, 13, 10, 123, 10, 32, 32, 34, 104, 101, 108, 108, 111, 34, 58, 32, 34, 119, 111,
    114, 108, 100, 34, 10, 125,
];

#[test]
fn test_parse_http_complex() {
    let polynomial_input = polynomial_input();
    let states = http::parse(&HTTP_BYTES, &polynomial_input).unwrap();

    let machine_state = RawHttpMachine::from_machine(states.last().unwrap());
    assert_eq!(machine_state.parsing_start, fe_zero());
    assert_eq!(machine_state.parsing_header, fe_zero());
    assert_eq!(machine_state.parsing_field_name, fe_zero());
    assert_eq!(machine_state.parsing_field_value, fe_zero());
    assert_eq!(machine_state.parsing_body, fe_from_u64(1));
    assert_eq!(machine_state.line_status, fe_from_u64(0));
    assert_eq!(machine_state.line_digest, fe_from_u64(0));
}

#[test]
fn test_pointer() {
    let mut machine = JsonMachine::new(3);
    assert_eq!(machine.pointer(), 0);
    machine.location[0] = Location::ObjectKey;
    assert_eq!(machine.pointer(), 1);
    machine.location[1] = Location::ObjectKey;
    assert_eq!(machine.pointer(), 2);
}

const SPOTIFY_EXAMPLE: &str = r#"{ "data" : { "items" : [ { "data" : "Artist" , "profile" : { "name" : "Taylor Swift" } } ] } }"#;

#[test]
fn test_json_parser_spotify() {
    let polynomial_input = polynomial_input();

    let states = json::parse(SPOTIFY_EXAMPLE.as_bytes(), &polynomial_input, 5).unwrap();
    assert_eq!(states.len(), SPOTIFY_EXAMPLE.len());

    let key_sequence = vec![
        JsonKey::String("data".to_string()),
        JsonKey::String("items".to_string()),
        JsonKey::Num(0),
        JsonKey::String("profile".to_string()),
        JsonKey::String("name".to_string()),
    ];
    let t_swizzle =
        witness_generator::polynomial_digest(b"Taylor Swift", &polynomial_input, 0);

    let raw_json_state =
        RawJsonMachine::from_chosen_sequence_and_input(&polynomial_input, &key_sequence, 5)
            .unwrap();
    let target = raw_json_state.compress_tree_hash();
    let hits = states
        .iter()
        .map(RawJsonMachine::from_machine)
        .filter(|raw| raw.compress_tree_hash() == target)
        .filter(|raw| raw.tree_hash.iter().any(|pair| pair.1 == t_swizzle))
        .count();
    assert_eq!(hits, 1);
}

#[test]
fn test_json_parser_stack_overflow() {
    let input = "{".repeat(6) + &"}".repeat(6);
    let result = json::parse(input.as_bytes(), &polynomial_input(), 5);
    assert!(result.is_err());
    assert!(matches!(
        result.unwrap_err(),
        witness_generator::WitnessGeneratorError::JsonParser(_)
    ));
}

fn check_clean_final_state(input: &str) {
    let polynomial_input = polynomial_input();
    let states = json::parse(input.as_bytes(), &polynomial_input, 5).unwrap();
    assert_eq!(states.len(), input.len());
    let last = states.last().unwrap();
    assert_eq!(last.location, vec![Location::Empty; 5]);
    for (key, value) in &last.label_stack {
        assert!(key.is_empty());
        assert!(value.is_empty());
    }
    let raw = RawJsonMachine::from_machine(last);
    for pair in raw.stack.iter().chain(raw.tree_hash.iter()) {
        assert_eq!(pair.0, fe_zero());
        assert_eq!(pair.1, fe_zero());
    }
    assert_eq!(raw.parsing_string, fe_zero());
    assert_eq!(raw.parsing_primitive, fe_zero());
    assert_eq!(raw.monomial, fe_zero());
    assert_eq!(raw.escaped, fe_zero());
}

#[test]
fn test_json_parser_valid_array_only() {
    check_clean_final_state(r#"[ 42, { "a" : "b" } , [ 0 , 1 ] , "foobar"]"#);
}

#[test]
fn test_json_parser_valid_value_array() {
    check_clean_final_state(
        r#"{ "k" : [ 420 , 69 , 4200 , 600 ] , "b" : [ "ab" , "ba" , "ccc" , "d" ] }"#,
    );
}

#[test]
fn test_json_parser_valid_value_array_object() {
    check_clean_final_state(r#"{ "a" : [ { "b" : [ 1 , 4 ] } , { "c" : "b" } ] }"#);
}

#[test]
fn test_json_parser_valid_nested_number() {
    check_clean_final_state(r#"{"data":{"redditorInfoByName":{"karma":{"total":1789.0}}}}"#);
}

#[test]
fn test_json_parser_valid_string_escape() {
    check_clean_final_state(r#"{"a": "\"b\""}"#);
}
