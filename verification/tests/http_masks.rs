use witness_generator::http;
use witness_generator::{compute_http_header_witness, compute_http_witness, ByteOrPad,
    HttpMaskType};

const TEST_HTTP_BYTES: &[u8] = &[
    72, 84, 84, 80, 47, 49, 46, 49, 32, 50, 48, 48, 32, 79, 75, 13, 10, 99, 111, 110, 116, 101,
    110, 116, 45, 116, 121, 112, 101, 58, 32, 97, 112, 112, 108, 105, 99, 97, 116, 105, 111, 110,
    47, 106, 115, 111, 110, 59, 32, 99, 104, 97, 114, 115, 101, 116, 61, 117, 116, 102, 45, 56,
    13, 10, 99, 111, 110, 116, 101, 110, 116, 45, 101, 110, 99, 111, 100, 105, 110, 103, 58, 32,
    103, 122, 105, 112, 13, 10, 84, 114, 97, 110, 115, 102, 101, 114, 45, 69, 110, 99, 111, 100,
    105, 110, 103, 58, 32, 99, 104, 117, 110, 107, 101, 100, 13, 10, 13, 10, 123, 13, 10, 32, 32,
    32, 34, 100, 97, 116, 97, 34, 58, 32, 123, 13, 10, 32, 32, 32, 32, 32, 32, 32, 34, 105, 116,
    101, 109, 115, 34, 58, 32, 91, 13, 10, 32, 32, 32, 32, 32, 32, 32, 32, 32, 32, 32, 123, 13,
    10, 32, 32, 32, 32, 32, 32, 32, 32, 32, 32, 32, 32, 32, 32, 32, 34, 100, 97, 116, 97, 34, 58,
    32, 34, 65, 114, 116, 105, 115, 116, 34, 44, 13, 10, 32, 32, 32, 32, 32, 32, 32, 32, 32, 32,
    32, 32, 32, 32, 32, 34, 112, 114, 111, 102, 105, 108, 101, 34, 58, 32, 123, 13, 10, 32, 32,
    32, 32, 32, 32, 32, 32, 32, 32, 32, 32, 32, 32, 32, 32, 34, 110, 97, 109, 101, 34, 58, 32, 34,
    84, 97, 121, 108, 111, 114, 32, 83, 119, 105, 102, 116, 34, 13, 10, 32, 32, 32, 32, 32, 32,
    32, 32, 32, 32, 32, 32, 32, 32, 32, 125, 13, 10, 32, 32, 32, 32, 32, 32, 32, 32, 32, 32, 32,
    125, 13, 10, 32, 32, 32, 32, 32, 32, 32, 93, 13, 10, 32, 32, 32, 125, 13, 10, 125,
];

const TEST_HTTP_START_LINE: &[u8] = &[72, 84, 84, 80, 47, 49, 46, 49, 32, 50, 48, 48, 32, 79, 75];

const TEST_HTTP_HEADER_0: &[u8] = &[
    99, 111, 110, 116, 101, 110, 116, 45, 116, 121, 112, 101, 58, 32, 97, 112, 112, 108, 105, 99,
    97, 116, 105, 111, 110, 47, 106, 115, 111, 110, 59, 32, 99, 104, 97, 114, 115, 101, 116, 61,
    117, 116, 102, 45, 56,
];

const TEST_HTTP_HEADER_1: &[u8] = &[
    99, 111, 110, 116, 101, 110, 116, 45, 101, 110, 99, 111, 100, 105, 110, 103, 58, 32, 103, 122,
    105, 112,
];

const TEST_HTTP_BODY: &[u8] = &[
    123, 13, 10, 32, 32, 32, 34, 100, 97, 116, 97, 34, 58, 32, 123, 13, 10, 32, 32, 32, 32, 32,
    32, 32, 34, 105, 116, 101, 109, 115, 34, 58, 32, 91, 13, 10, 32, 32, 32, 32, 32, 32, 32, 32,
    32, 32, 32, 123, 13, 10, 32, 32, 32, 32, 32, 32, 32, 32, 32, 32, 32, 32, 32, 32, 32, 34, 100,
    97, 116, 97, 34, 58, 32, 34, 65, 114, 116, 105, 115, 116, 34, 44, 13, 10, 32, 32, 32, 32, 32,
    32, 32, 32, 32, 32, 32, 32, 32, 32, 32, 34, 112, 114, 111, 102, 105, 108, 101, 34, 58, 32,
    123, 13, 10, 32, 32, 32, 32, 32, 32, 32, 32, 32, 32, 32, 32, 32, 32, 32, 32, 34, 110, 97, 109,
    101, 34, 58, 32, 34, 84, 97, 121, 108, 111, 114, 32, 83, 119, 105, 102, 116, 34, 13, 10, 32,
    32, 32, 32, 32, 32, 32, 32, 32, 32, 32, 32, 32, 32, 32, 125, 13, 10, 32, 32, 32, 32, 32, 32,
    32, 32, 32, 32, 32, 125, 13, 10, 32, 32, 32, 32, 32, 32, 32, 93, 13, 10, 32, 32, 32, 125, 13,
    10, 125,
];

fn padded() -> Vec<ByteOrPad> {
    TEST_HTTP_BYTES.iter().copied().map(ByteOrPad::Byte).collect()
}

// ByteOrPad masks, as used by the padded pipeline.

#[test]
fn http_test_compute_http_witness_start_line() {
    let bytes = compute_http_witness(&padded(), HttpMaskType::StartLine);
    assert_eq!(ByteOrPad::as_bytes(&bytes), TEST_HTTP_START_LINE);
}

#[test]
fn http_test_compute_http_witness_header_0() {
    let bytes = compute_http_witness(&padded(), HttpMaskType::Header(0));
    assert_eq!(ByteOrPad::as_bytes(&bytes), TEST_HTTP_HEADER_0);
}

#[test]
fn http_test_compute_http_witness_header_1() {
    let bytes = compute_http_witness(&padded(), HttpMaskType::Header(1));
    assert_eq!(ByteOrPad::as_bytes(&bytes), TEST_HTTP_HEADER_1);
}

#[test]
fn http_test_compute_http_witness_body() {
    let bytes = compute_http_witness(&padded(), HttpMaskType::Body);
    assert_eq!(ByteOrPad::as_bytes(&bytes), TEST_HTTP_BODY);
}

#[test]
fn http_test_compute_http_witness_name() {
    let (index, bytes_from_name) =
        compute_http_header_witness(&padded(), "Transfer-Encoding".as_bytes());
    let bytes_from_index = compute_http_witness(&padded(), HttpMaskType::Header(2));
    assert_eq!(bytes_from_index, bytes_from_name);
    assert_eq!(index, 2);
}

#[test]
fn http_test_compute_http_witness_name_not_present() {
    let (_, bytes_from_name) = compute_http_header_witness(&padded(), "pluto-rocks".as_bytes());
    assert!(bytes_from_name.is_empty());
}

// The same masks again, through the identical crate-root path.

#[test]
fn lib_test_compute_http_witness_start_line() {
    let bytes = compute_http_witness(&padded(), HttpMaskType::StartLine);
    assert_eq!(ByteOrPad::as_bytes(&bytes), TEST_HTTP_START_LINE);
}

#[test]
fn lib_test_compute_http_witness_header_0() {
    let bytes = compute_http_witness(&padded(), HttpMaskType::Header(0));
    assert_eq!(ByteOrPad::as_bytes(&bytes), TEST_HTTP_HEADER_0);
}

#[test]
fn lib_test_compute_http_witness_header_1() {
    let bytes = compute_http_witness(&padded(), HttpMaskType::Header(1));
    assert_eq!(ByteOrPad::as_bytes(&bytes), TEST_HTTP_HEADER_1);
}

#[test]
fn lib_test_compute_http_witness_body() {
    let bytes = compute_http_witness(&padded(), HttpMaskType::Body);
    assert_eq!(ByteOrPad::as_bytes(&bytes), TEST_HTTP_BODY);
}

#[test]
fn lib_test_compute_http_witness_name() {
    let (index, bytes_from_name) =
        compute_http_header_witness(&padded(), "Transfer-Encoding".as_bytes());
    let bytes_from_index = compute_http_witness(&padded(), HttpMaskType::Header(2));
    assert_eq!(bytes_from_index, bytes_from_name);
    assert_eq!(index, 2);
}

#[test]
fn lib_test_compute_http_witness_name_not_present() {
    let (_, bytes_from_name) = compute_http_header_witness(&padded(), "pluto-rocks".as_bytes());
    assert!(bytes_from_name.is_empty());
}

// Plain-byte masks.

#[test]
fn mod_test_compute_http_witness_start_line() {
    let bytes = http::compute_http_witness(TEST_HTTP_BYTES, HttpMaskType::StartLine);
    assert_eq!(bytes, TEST_HTTP_START_LINE);
}

#[test]
fn mod_test_compute_http_witness_header_0() {
    let bytes = http::compute_http_witness(TEST_HTTP_BYTES, HttpMaskType::Header(0));
    assert_eq!(bytes, TEST_HTTP_HEADER_0);
}

#[test]
fn mod_test_compute_http_witness_header_1() {
    let bytes = http::compute_http_witness(TEST_HTTP_BYTES, HttpMaskType::Header(1));
    assert_eq!(bytes, TEST_HTTP_HEADER_1);
}

#[test]
fn mod_test_compute_http_witness_body() {
    let bytes = http::compute_http_witness(TEST_HTTP_BYTES, HttpMaskType::Body);
    assert_eq!(bytes, TEST_HTTP_BODY);
}

#[test]
fn mod_test_compute_http_witness_name() {
    let (index, bytes_from_name) =
        http::compute_http_header_witness(TEST_HTTP_BYTES, "Transfer-Encoding".as_bytes());
    let bytes_from_index = http::compute_http_witness(TEST_HTTP_BYTES, HttpMaskType::Header(2));
    assert_eq!(bytes_from_index, bytes_from_name);
    assert_eq!(index, 2);
}

#[test]
fn mod_test_compute_http_witness_name_not_present() {
    let (_, bytes_from_name) =
        http::compute_http_header_witness(TEST_HTTP_BYTES, "pluto-rocks".as_bytes());
    assert!(bytes_from_name.is_empty());
}
