//! The HTTP line-oriented state machine.
//!
//! Every input byte is classified into start-line, header-name, header-value,
//! body or a CR/LF transition, while a rolling polynomial digest of the
//! current line is maintained.  `parse` yields one snapshot per byte; the
//! snapshot after the first `i` bytes is exactly `http_run` of that prefix.

use vstd::prelude::*;

use crate::field::{fe_add, fe_add_s, fe_from_u64, fe_mul, fe_mul_s, fe_one, fe_pow, fe_pow_s,
    fe_zero, Fe};
use crate::json::JsonKey;
use crate::masks;
use crate::{byte_of_pad_s, ByteOrPad, WitnessGeneratorError};

pub use crate::masks::HttpMaskType;

verus! {

/// Where inside the start line the machine stands.
#[derive(Debug, Clone, Copy, PartialEq, Eq, Structural)]
pub enum StartLineLocation {
    /// Before the first space.
    Beginning,
    /// Between the two spaces.
    Middle,
    /// After the second space.
    End,
}

/// Which half of a header line is being read.
#[derive(Debug, Clone, Copy, PartialEq, Eq, Structural)]
pub enum NameOrValue {
    /// Before the colon.
    Name,
    /// After the colon.
    Value,
}

/// Progress through a CR LF (CR LF) transition.
#[derive(Debug, Clone, Copy, PartialEq, Eq, Structural)]
pub enum LineStatus {
    CR,
    CRLF,
    CRLFCR,
}

/// The machine's coarse location in the message.
#[derive(Debug, Clone, Copy, PartialEq, Eq, Structural)]
pub enum HttpStatus {
    ParsingStart(StartLineLocation),
    ParsingHeader(NameOrValue),
    ParsingBody,
    LineStatus(LineStatus),
}

/// One per-byte snapshot of the HTTP machine.
#[derive(Debug, Clone)]
pub struct HttpMachine {
    /// Headers completed so far (1-based once inside the headers).
    pub header_num: usize,
    /// Coarse location in the message.
    pub status: HttpStatus,
    /// Polynomial digest of the bytes on the current line.
    pub line_digest: Fe,
    /// The next monomial, `p^k` for the line's k-th byte, or zero at a line
    /// start.
    pub line_monomial: Fe,
}

/// The machine's mathematical state, including the line-position counter
/// that the snapshots only expose through `line_monomial`.
pub ghost struct HttpModel {
    pub header_num: nat,
    pub status: HttpStatus,
    pub line_digest: nat,
    pub line_monomial: nat,
    pub line_ctr: nat,
}

/// The machine before any byte: start of the start line, digest zero,
/// monomial one.
pub open spec fn http_init() -> HttpModel {
    HttpModel {
        header_num: 0,
        status: HttpStatus::ParsingStart(StartLineLocation::Beginning),
        line_digest: 0,
        line_monomial: 1,
        line_ctr: 0,
    }
}

/// One byte of the HTTP transition table.  Space (32) advances the start
/// line, CR/LF (13, 10) drive the line-status transitions and reset the
/// line, a byte after CR LF opens a new header, colon (58) moves from header
/// name to value, the body absorbs everything, and any other byte merely
/// accumulates into the line digest.
pub open spec fn http_step(g: HttpModel, b: u8, p: nat) -> HttpModel {
    let acc_digest = fe_add_s(g.line_digest, fe_mul_s(fe_pow_s(p, g.line_ctr), b as nat));
    let m = if b == 32 && g.status == HttpStatus::ParsingStart(StartLineLocation::Beginning) {
        HttpModel {
            status: HttpStatus::ParsingStart(StartLineLocation::Middle),
            line_digest: acc_digest,
            line_ctr: g.line_ctr + 1,
            ..g
        }
    } else if b == 32 && g.status == HttpStatus::ParsingStart(StartLineLocation::Middle) {
        HttpModel {
            status: HttpStatus::ParsingStart(StartLineLocation::End),
            line_digest: acc_digest,
            line_ctr: g.line_ctr + 1,
            ..g
        }
    } else if b == 32 && g.status == HttpStatus::ParsingStart(StartLineLocation::End) {
        HttpModel { line_digest: acc_digest, line_ctr: g.line_ctr + 1, ..g }
    } else if b == 13 && (g.status == HttpStatus::ParsingStart(StartLineLocation::End)
        || g.status == HttpStatus::ParsingHeader(NameOrValue::Value)) {
        HttpModel { status: HttpStatus::LineStatus(LineStatus::CR), line_digest: 0, line_ctr: 0, ..g }
    } else if b == 13 && g.status == HttpStatus::LineStatus(LineStatus::CRLF) {
        HttpModel {
            status: HttpStatus::LineStatus(LineStatus::CRLFCR),
            line_digest: 0,
            line_ctr: 0,
            ..g
        }
    } else if b == 10 && g.status == HttpStatus::LineStatus(LineStatus::CR) {
        HttpModel { status: HttpStatus::LineStatus(LineStatus::CRLF), line_digest: 0, line_ctr: 0, ..g }
    } else if b == 10 && g.status == HttpStatus::LineStatus(LineStatus::CRLFCR) {
        HttpModel {
            status: HttpStatus::ParsingBody,
            header_num: 0,
            line_digest: 0,
            line_ctr: 0,
            ..g
        }
    } else if g.status == HttpStatus::LineStatus(LineStatus::CRLF) {
        HttpModel {
            status: HttpStatus::ParsingHeader(NameOrValue::Name),
            header_num: g.header_num + 1,
            line_digest: acc_digest,
            line_ctr: g.line_ctr + 1,
            ..g
        }
    } else if b == 58 && g.status == HttpStatus::ParsingHeader(NameOrValue::Name) {
        HttpModel {
            status: HttpStatus::ParsingHeader(NameOrValue::Value),
            line_digest: acc_digest,
            line_ctr: g.line_ctr + 1,
            ..g
        }
    } else if g.status == HttpStatus::ParsingBody {
        g
    } else {
        HttpModel { line_digest: acc_digest, line_ctr: g.line_ctr + 1, ..g }
    };
    HttpModel {
        line_monomial: if m.line_ctr == 0 {
            0
        } else {
            fe_pow_s(p, m.line_ctr)
        },
        ..m
    }
}

/// The machine state after consuming all of `bytes` under `p`.
pub open spec fn http_run(bytes: Seq<u8>, p: nat) -> HttpModel
    decreases bytes.len(),
{
    if bytes.len() == 0 {
        http_init()
    } else {
        http_step(http_run(bytes.drop_last(), p), bytes.last(), p)
    }
}

/// The snapshot's field elements are canonical.
pub open spec fn http_machine_inv(m: HttpMachine) -> bool {
    m.line_digest.wf() && m.line_monomial.wf()
}

/// A snapshot agrees with a model state on everything a snapshot carries.
pub open spec fn http_machine_matches(m: HttpMachine, g: HttpModel) -> bool {
    m.header_num as nat == g.header_num && m.status == g.status && m.line_digest@
        == g.line_digest && m.line_monomial@ == g.line_monomial
}

/// Runs the HTTP machine over the bytes, one snapshot per byte: the `i`-th
/// snapshot is the machine state after the first `i + 1` bytes.  Parsing
/// never fails; malformed HTTP merely yields states the circuit will reject.
pub fn parse(bytes: &[u8], polynomial_input: &Fe) -> (r: Result<
    Vec<HttpMachine>,
    WitnessGeneratorError,
>)
    requires
        polynomial_input.wf(),
    ensures
        r is Ok,
        r->Ok_0@.len() == bytes@.len(),
        forall|j: int| 0 <= j < bytes@.len() ==> http_machine_inv(#[trigger] r->Ok_0@[j])
            && http_machine_matches(
            r->Ok_0@[j],
            http_run(bytes@.take(j + 1), polynomial_input@),
        ),
{
    let ghost p = polynomial_input@;
    let mut machine = HttpMachine {
        header_num: 0,
        status: HttpStatus::ParsingStart(StartLineLocation::Beginning),
        line_digest: fe_zero(),
        line_monomial: fe_one(),
    };
    let mut line_ctr: u64 = 0;
    let mut output: Vec<HttpMachine> = Vec::new();
    let n = bytes.len();
    proof {
        assert(bytes@.take(0) =~= Seq::<u8>::empty());
    }
    let mut i: usize = 0;
    while i < n
        invariant
            polynomial_input.wf(),
            p == polynomial_input@,
            n == bytes@.len(),
            i <= n,
            output@.len() == i,
            machine.header_num <= i,
            line_ctr <= i,
            http_machine_inv(machine),
            http_machine_matches(machine, http_run(bytes@.take(i as int), p)),
            line_ctr as nat == http_run(bytes@.take(i as int), p).line_ctr,
            forall|j: int| 0 <= j < i ==> http_machine_inv(#[trigger] output@[j])
                && http_machine_matches(output@[j], http_run(bytes@.take(j + 1), p)),
        decreases n - i,
    {
        let c = bytes[i];
        let st = machine.status;
        let hn = machine.header_num;
        // (next status, next header count, reset the line, leave untouched)
        let (next_status, next_header, reset, skip): (HttpStatus, usize, bool, bool) = if c == 32
            && st == HttpStatus::ParsingStart(StartLineLocation::Beginning) {
            (HttpStatus::ParsingStart(StartLineLocation::Middle), hn, false, false)
        } else if c == 32 && st == HttpStatus::ParsingStart(StartLineLocation::Middle) {
            (HttpStatus::ParsingStart(StartLineLocation::End), hn, false, false)
        } else if c == 32 && st == HttpStatus::ParsingStart(StartLineLocation::End) {
            (st, hn, false, false)
        } else if c == 13 && (st == HttpStatus::ParsingStart(StartLineLocation::End)
            || st == HttpStatus::ParsingHeader(NameOrValue::Value)) {
            (HttpStatus::LineStatus(LineStatus::CR), hn, true, false)
        } else if c == 13 && st == HttpStatus::LineStatus(LineStatus::CRLF) {
            (HttpStatus::LineStatus(LineStatus::CRLFCR), hn, true, false)
        } else if c == 10 && st == HttpStatus::LineStatus(LineStatus::CR) {
            (HttpStatus::LineStatus(LineStatus::CRLF), hn, true, false)
        } else if c == 10 && st == HttpStatus::LineStatus(LineStatus::CRLFCR) {
            (HttpStatus::ParsingBody, 0, true, false)
        } else if st == HttpStatus::LineStatus(LineStatus::CRLF) {
            (HttpStatus::ParsingHeader(NameOrValue::Name), hn + 1, false, false)
        } else if c == 58 && st == HttpStatus::ParsingHeader(NameOrValue::Name) {
            (HttpStatus::ParsingHeader(NameOrValue::Value), hn, false, false)
        } else if st == HttpStatus::ParsingBody {
            (st, hn, false, true)
        } else {
            (st, hn, false, false)
        };
        machine.status = next_status;
        machine.header_num = next_header;
        if reset {
            line_ctr = 0;
            machine.line_digest = fe_zero();
        } else if !skip {
            let monomial = fe_pow(polynomial_input, line_ctr);
            let term = fe_mul(&monomial, &fe_from_u64(c as u64));
            machine.line_digest = fe_add(&machine.line_digest, &term);
            line_ctr = line_ctr + 1;
        }
        machine.line_monomial = if line_ctr == 0 {
            fe_zero()
        } else {
            fe_pow(polynomial_input, line_ctr)
        };
        proof {
            let pre = bytes@.take(i as int);
            let post = bytes@.take(i as int + 1);
            assert(post.drop_last() =~= pre);
            assert(post.last() == bytes@[i as int]);
        }
        output.push(
            HttpMachine {
                header_num: machine.header_num,
                status: machine.status,
                line_digest: machine.line_digest.dup(),
                line_monomial: machine.line_monomial.dup(),
            },
        );
        i = i + 1;
    }
    Ok(output)
}

/// The circuit-facing projection of an HTTP snapshot: eight field-element
/// signals.
#[derive(Debug, Clone)]
pub struct RawHttpMachine {
    pub parsing_start: Fe,
    pub parsing_header: Fe,
    pub parsing_field_name: Fe,
    pub parsing_field_value: Fe,
    pub parsing_body: Fe,
    pub line_status: Fe,
    pub line_digest: Fe,
    pub line_monomial: Fe,
}

/// How a status encodes into the `parsing_start` signal.
pub open spec fn raw_parsing_start_s(st: HttpStatus) -> nat {
    match st {
        HttpStatus::ParsingStart(StartLineLocation::Beginning) => 1,
        HttpStatus::ParsingStart(StartLineLocation::Middle) => 2,
        HttpStatus::ParsingStart(StartLineLocation::End) => 3,
        _ => 0,
    }
}

/// How a status encodes into the `line_status` signal.
pub open spec fn raw_line_status_s(st: HttpStatus) -> nat {
    match st {
        HttpStatus::LineStatus(LineStatus::CR) => 1,
        HttpStatus::LineStatus(LineStatus::CRLF) => 2,
        HttpStatus::LineStatus(LineStatus::CRLFCR) => 3,
        _ => 0,
    }
}

/// All eight signals are canonical field elements.
pub open spec fn raw_http_inv(r: RawHttpMachine) -> bool {
    &&& r.parsing_start.wf()
    &&& r.parsing_header.wf()
    &&& r.parsing_field_name.wf()
    &&& r.parsing_field_value.wf()
    &&& r.parsing_body.wf()
    &&& r.line_status.wf()
    &&& r.line_digest.wf()
    &&& r.line_monomial.wf()
}

impl RawHttpMachine {
    /// The raw state before any byte: `parsing_start` one, `line_monomial`
    /// one, all other signals zero.
    pub fn initial_state() -> (r: RawHttpMachine)
        ensures
            raw_http_inv(r),
            r.parsing_start@ == 1,
            r.parsing_header@ == 0,
            r.parsing_field_name@ == 0,
            r.parsing_field_value@ == 0,
            r.parsing_body@ == 0,
            r.line_status@ == 0,
            r.line_digest@ == 0,
            r.line_monomial@ == 1,
    {
        RawHttpMachine {
            parsing_start: fe_one(),
            parsing_header: fe_zero(),
            parsing_field_name: fe_zero(),
            parsing_field_value: fe_zero(),
            parsing_body: fe_zero(),
            line_status: fe_zero(),
            line_digest: fe_zero(),
            line_monomial: fe_one(),
        }
    }

    /// Expands a machine snapshot into the eight signals: the status becomes
    /// the small-integer encodings, the header count becomes
    /// `parsing_header`, and the digest and monomial are carried over.
    pub fn from_machine(value: &HttpMachine) -> (r: RawHttpMachine)
        requires
            http_machine_inv(*value),
        ensures
            raw_http_inv(r),
            r.parsing_start@ == raw_parsing_start_s(value.status),
            r.parsing_header@ == value.header_num as nat,
            r.parsing_field_name@ == if value.status == HttpStatus::ParsingHeader(
                NameOrValue::Name,
            ) { 1nat } else { 0nat },
            r.parsing_field_value@ == if value.status == HttpStatus::ParsingHeader(
                NameOrValue::Value,
            ) { 1nat } else { 0nat },
            r.parsing_body@ == if value.status == HttpStatus::ParsingBody { 1nat } else { 0nat },
            r.line_status@ == raw_line_status_s(value.status),
            r.line_digest@ == value.line_digest@,
            r.line_monomial@ == value.line_monomial@,
    {
        let parsing_start = match value.status {
            HttpStatus::ParsingStart(StartLineLocation::Beginning) => fe_one(),
            HttpStatus::ParsingStart(StartLineLocation::Middle) => fe_from_u64(2),
            HttpStatus::ParsingStart(StartLineLocation::End) => fe_from_u64(3),
            _ => fe_zero(),
        };
        let parsing_field_name = match value.status {
            HttpStatus::ParsingHeader(NameOrValue::Name) => fe_one(),
            _ => fe_zero(),
        };
        let parsing_field_value = match value.status {
            HttpStatus::ParsingHeader(NameOrValue::Value) => fe_one(),
            _ => fe_zero(),
        };
        let parsing_body = match value.status {
            HttpStatus::ParsingBody => fe_one(),
            _ => fe_zero(),
        };
        let line_status = match value.status {
            HttpStatus::LineStatus(LineStatus::CR) => fe_one(),
            HttpStatus::LineStatus(LineStatus::CRLF) => fe_from_u64(2),
            HttpStatus::LineStatus(LineStatus::CRLFCR) => fe_from_u64(3),
            _ => fe_zero(),
        };
        RawHttpMachine {
            parsing_start,
            parsing_header: fe_from_u64(value.header_num as u64),
            parsing_field_name,
            parsing_field_value,
            parsing_body,
            line_status,
            line_digest: value.line_digest.dup(),
            line_monomial: value.line_monomial.dup(),
        }
    }

    /// The eight signals in their circuit order.
    pub fn flatten(&self) -> (r: Vec<Fe>)
        ensures
            r@.len() == 8,
            r@[0]@ == self.parsing_start@ && r@[0].wf() == self.parsing_start.wf(),
            r@[1]@ == self.parsing_header@ && r@[1].wf() == self.parsing_header.wf(),
            r@[2]@ == self.parsing_field_name@ && r@[2].wf() == self.parsing_field_name.wf(),
            r@[3]@ == self.parsing_field_value@ && r@[3].wf() == self.parsing_field_value.wf(),
            r@[4]@ == self.parsing_body@ && r@[4].wf() == self.parsing_body.wf(),
            r@[5]@ == self.line_status@ && r@[5].wf() == self.line_status.wf(),
            r@[6]@ == self.line_digest@ && r@[6].wf() == self.line_digest.wf(),
            r@[7]@ == self.line_monomial@ && r@[7].wf() == self.line_monomial.wf(),
    {
        let mut r: Vec<Fe> = Vec::new();
        r.push(self.parsing_start.dup());
        r.push(self.parsing_header.dup());
        r.push(self.parsing_field_name.dup());
        r.push(self.parsing_field_value.dup());
        r.push(self.parsing_body.dup());
        r.push(self.line_status.dup());
        r.push(self.line_digest.dup());
        r.push(self.line_monomial.dup());
        r
    }
}

/// The padded image of a plain byte string.
pub open spec fn bop_of_bytes_s(s: Seq<u8>) -> Seq<ByteOrPad> {
    s.map_values(|b: u8| ByteOrPad::Byte(b))
}

/// The plain-byte image of a padded string; padding becomes zero.
pub open spec fn bytes_of_bop_s(s: Seq<ByteOrPad>) -> Seq<u8> {
    s.map_values(|b: ByteOrPad| byte_of_pad_s(b))
}

/// Wraps plain bytes as unpadded `ByteOrPad`s.
fn to_bop(plaintext: &[u8]) -> (r: Vec<ByteOrPad>)
    ensures
        r@ == bop_of_bytes_s(plaintext@),
{
    let mut r: Vec<ByteOrPad> = Vec::new();
    let mut i: usize = 0;
    while i < plaintext.len()
        invariant
            i <= plaintext@.len(),
            r@.len() == i,
            forall|j: int| 0 <= j < i ==> r@[j] == ByteOrPad::Byte(plaintext@[j]),
        decreases plaintext@.len() - i,
    {
        r.push(ByteOrPad::Byte(plaintext[i]));
        i = i + 1;
    }
    proof {
        assert(r@ =~= bop_of_bytes_s(plaintext@));
    }
    r
}

/// Selects the requested byte range of the plain HTTP message; the selection
/// rules are those of the padded mask.
pub fn compute_http_witness(plaintext: &[u8], mask_at: HttpMaskType) -> (r: Vec<u8>)
    ensures
        r@ == bytes_of_bop_s(masks::http_witness_s(bop_of_bytes_s(plaintext@), mask_at)),
{
    let padded = to_bop(plaintext);
    let masked = masks::compute_http_witness(padded.as_slice(), mask_at);
    let r = ByteOrPad::as_bytes(masked.as_slice());
    proof {
        assert(r@ =~= bytes_of_bop_s(masks::http_witness_s(bop_of_bytes_s(plaintext@), mask_at)));
    }
    r
}

/// Finds the first header whose name equals `name` in the plain HTTP
/// message, returning its index and bytes.
pub fn compute_http_header_witness(plaintext: &[u8], name: &[u8]) -> (r: (usize, Vec<u8>))
    ensures
        r.0 as nat == masks::header_by_name_s(bop_of_bytes_s(plaintext@), name@).0,
        r.1@ == bytes_of_bop_s(masks::header_by_name_s(bop_of_bytes_s(plaintext@), name@).1),
{
    let padded = to_bop(plaintext);
    let (idx, masked) = masks::compute_http_header_witness(padded.as_slice(), name);
    let bytes = ByteOrPad::as_bytes(masked.as_slice());
    proof {
        assert(bytes@ =~= bytes_of_bop_s(
            masks::header_by_name_s(bop_of_bytes_s(plaintext@), name@).1,
        ));
    }
    (idx, bytes)
}

/// The UTF-8 bytes of `"k: v"`: the header line a lock entry digests.
pub open spec fn header_line_s(k: Seq<char>, v: Seq<char>) -> Seq<u8> {
    vstd::utf8::encode_utf8(k) + seq![58u8, 32u8] + vstd::utf8::encode_utf8(v)
}

/// The UTF-8 bytes of `"a b c"`: the shape of both start lines.
pub open spec fn start_line_s(a: Seq<char>, b: Seq<char>, c: Seq<char>) -> Seq<u8> {
    vstd::utf8::encode_utf8(a) + seq![32u8] + vstd::utf8::encode_utf8(b) + seq![32u8]
        + vstd::utf8::encode_utf8(c)
}

/// The JSON body lock: an ordered key path into the response body.
#[derive(Debug, Clone)]
pub struct ResponseBody {
    /// The key path, outermost first.
    pub json: Vec<JsonKey>,
}

/// HTTP response items to lock.
#[derive(Debug, Clone)]
pub struct Response {
    /// HTTP response status.
    pub status: String,
    /// HTTP version.
    pub version: String,
    /// HTTP response message.
    pub message: String,
    /// HTTP headers to lock, in insertion order.
    pub headers: Vec<(String, String)>,
    /// HTTP body keys.
    pub body: ResponseBody,
}

/// HTTP request items to lock.
#[derive(Debug, Clone)]
pub struct Request {
    /// HTTP method (GET or POST).
    pub method: String,
    /// HTTP request URL.
    pub url: String,
    /// HTTP version.
    pub version: String,
    /// Request headers to lock, in insertion order.
    pub headers: Vec<(String, String)>,
}

/// The request and response lock lists the circuit enforces.
#[derive(Debug, Clone)]
pub struct Manifest {
    /// HTTP request lock items.
    pub request: Request,
    /// HTTP response lock items.
    pub response: Response,
}

/// Default HTTP version.
pub fn default_version() -> (r: String)
    ensures
        r@ == "HTTP/1.1"@,
{
    "HTTP/1.1".to_owned()
}

/// Default HTTP message.
pub fn default_message() -> (r: String)
    ensures
        r@ == "OK"@,
{
    "OK".to_owned()
}

/// Appends all of `src` to `dst`.
fn push_bytes(dst: &mut Vec<u8>, src: &[u8])
    ensures
        final(dst)@ == old(dst)@ + src@,
{
    let mut i: usize = 0;
    while i < src.len()
        invariant
            i <= src@.len(),
            dst@ == old(dst)@ + src@.take(i as int),
        decreases src@.len() - i,
    {
        dst.push(src[i]);
        proof {
            assert(old(dst)@ + src@.take(i as int + 1) =~= (old(dst)@ + src@.take(i as int)).push(
                src@[i as int],
            ));
        }
        i = i + 1;
    }
    proof {
        assert(src@.take(src@.len() as int) =~= src@);
    }
}

/// Renders each `(name, value)` header as the bytes of `"name: value"`, in
/// order.
pub fn headers_to_bytes(headers: &Vec<(String, String)>) -> (r: Vec<Vec<u8>>)
    ensures
        r@.len() == headers@.len(),
        forall|i: int|
            0 <= i < headers@.len() ==> (#[trigger] r@[i])@ == header_line_s(
                headers@[i].0@,
                headers@[i].1@,
            ),
{
    let mut r: Vec<Vec<u8>> = Vec::new();
    let mut i: usize = 0;
    while i < headers.len()
        invariant
            i <= headers@.len(),
            r@.len() == i,
            forall|j: int|
                0 <= j < i ==> (#[trigger] r@[j])@ == header_line_s(
                    headers@[j].0@,
                    headers@[j].1@,
                ),
        decreases headers@.len() - i,
    {
        let mut line: Vec<u8> = Vec::new();
        push_bytes(&mut line, headers[i].0.as_str().as_bytes());
        line.push(58);
        line.push(32);
        push_bytes(&mut line, headers[i].1.as_str().as_bytes());
        proof {
            assert(line@ =~= header_line_s(headers@[i as int].0@, headers@[i as int].1@));
        }
        r.push(line);
        i = i + 1;
    }
    r
}

/// The `"a b c"` start-line bytes.
fn start_line_bytes(a: &String, b: &String, c: &String) -> (r: Vec<u8>)
    ensures
        r@ == start_line_s(a@, b@, c@),
{
    let mut line: Vec<u8> = Vec::new();
    push_bytes(&mut line, a.as_str().as_bytes());
    line.push(32);
    push_bytes(&mut line, b.as_str().as_bytes());
    line.push(32);
    push_bytes(&mut line, c.as_str().as_bytes());
    proof {
        assert(line@ =~= start_line_s(a@, b@, c@));
    }
    line
}

/// Folds header-line digests into the running manifest digest:
/// `acc + sum H(polynomial_digest("k: v"))` over the headers in order.
pub open spec fn headers_fold_s(hs: Seq<(String, String)>, d: nat, acc0: nat) -> nat
    decreases hs.len(),
{
    if hs.len() == 0 {
        acc0
    } else {
        crate::field::fe_add_s(
            headers_fold_s(hs.drop_last(), d, acc0),
            crate::field::poseidon_1_s(
                crate::poly_digest(header_line_s(hs.last().0@, hs.last().1@), d, 0),
            ),
        )
    }
}

/// Sums Poseidon images of the given header lines onto `acc0`.
fn fold_headers(headers: &Vec<(String, String)>, d: &Fe, acc0: Fe) -> (r: Fe)
    requires
        d.wf(),
        acc0.wf(),
    ensures
        r.wf(),
        r@ == headers_fold_s(headers@, d@, acc0@),
{
    let lines = headers_to_bytes(headers);
    let ghost a0 = acc0@;
    let mut acc = acc0;
    let mut i: usize = 0;
    while i < lines.len()
        invariant
            d.wf(),
            lines@.len() == headers@.len(),
            forall|j: int|
                0 <= j < headers@.len() ==> (#[trigger] lines@[j])@ == header_line_s(
                    headers@[j].0@,
                    headers@[j].1@,
                ),
            i <= headers@.len(),
            acc.wf(),
            acc@ == headers_fold_s(headers@.take(i as int), d@, a0),
        decreases lines@.len() - i,
    {
        let line_digest = crate::polynomial_digest(lines[i].as_slice(), d, 0);
        let h = crate::field::poseidon_one(&line_digest);
        acc = crate::field::fe_add(&acc, &h);
        proof {
            let pre = headers@.take(i as int);
            let post = headers@.take(i as int + 1);
            assert(post.drop_last() =~= pre);
            assert(post.last() == headers@[i as int]);
        }
        i = i + 1;
    }
    proof {
        assert(headers@.take(headers@.len() as int) =~= headers@);
    }
    acc
}

/// The request half of the manifest digest: the ciphertext digest plus
/// Poseidon images of the start-line digest and each header-line digest.
pub open spec fn request_digest_s(req: Request, d: nat) -> nat {
    crate::field::fe_add_s(
        d,
        headers_fold_s(
            req.headers@,
            d,
            crate::field::poseidon_1_s(
                crate::poly_digest(start_line_s(req.method@, req.url@, req.version@), d, 0),
            ),
        ),
    )
}

/// Digests the request lock items under the ciphertext digest: the pair of
/// the ciphertext digest itself and the manifest digest built from the
/// `"method url version"` start line and the `"name: value"` header lines.
pub fn request_initial_digest(manifest_request: &Request, ciphertext_digest: &Fe) -> (r: (Fe, Fe))
    requires
        ciphertext_digest.wf(),
    ensures
        r.0.wf(),
        r.0@ == ciphertext_digest@,
        r.1.wf(),
        r.1@ == request_digest_s(*manifest_request, ciphertext_digest@),
{
    let start_line = start_line_bytes(
        &manifest_request.method,
        &manifest_request.url,
        &manifest_request.version,
    );
    let start_digest = crate::polynomial_digest(start_line.as_slice(), ciphertext_digest, 0);
    let acc0 = crate::field::poseidon_one(&start_digest);
    let sum = fold_headers(&manifest_request.headers, ciphertext_digest, acc0);
    let manifest_digest = crate::field::fe_add(ciphertext_digest, &sum);
    (ciphertext_digest.dup(), manifest_digest)
}

/// The response half of the manifest digest: the ciphertext digest plus
/// Poseidon images of the compressed JSON path digest, the start-line
/// digest, and each header-line digest.
pub open spec fn response_digest_s(resp: Response, d: nat, m: nat) -> nat {
    let start = crate::poly_digest(
        start_line_s(resp.version@, resp.status@, resp.message@),
        d,
        0,
    );
    let json_seq = crate::json::compress_s(
        Seq::new(m, |i: int| crate::json::chosen_stack_s(resp.body.json@, i)),
        Seq::new(m, |i: int| crate::json::chosen_tree_s(resp.body.json@, d, i)),
        d,
    );
    crate::field::fe_add_s(
        d,
        headers_fold_s(
            resp.headers@,
            d,
            crate::field::fe_add_s(
                crate::field::poseidon_1_s(json_seq),
                crate::field::poseidon_1_s(start),
            ),
        ),
    )
}

/// Digests the response lock items under the ciphertext digest: the pair of
/// the ciphertext digest itself and the manifest digest built from the
/// compressed JSON key-path digest, the `"version status message"` start
/// line and the `"name: value"` header lines.
pub fn response_initial_digest(
    manifest_response: &Response,
    ciphertext_digest: &Fe,
    max_stack_height: usize,
) -> (r: (Fe, Fe))
    requires
        ciphertext_digest.wf(),
        manifest_response.body.json@.len() <= max_stack_height,
    ensures
        r.0.wf(),
        r.0@ == ciphertext_digest@,
        r.1.wf(),
        r.1@ == response_digest_s(
            *manifest_response,
            ciphertext_digest@,
            max_stack_height as nat,
        ),
{
    let start_line = start_line_bytes(
        &manifest_response.version,
        &manifest_response.status,
        &manifest_response.message,
    );
    let start_digest = crate::polynomial_digest(start_line.as_slice(), ciphertext_digest, 0);
    let raw = match crate::json::RawJsonMachine::from_chosen_sequence_and_input(
        ciphertext_digest,
        &manifest_response.body.json,
        max_stack_height,
    ) {
        Result::Ok(raw) => raw,
        Result::Err(_) => {
            proof {
                assert(false);
            }
            crate::json::RawJsonMachine::initial_state(max_stack_height)
        },
    };
    let json_sequence_digest = raw.compress_tree_hash();
    proof {
        assert(crate::json::fe_pairs_view(raw.stack@) =~= Seq::new(
            max_stack_height as nat,
            |i: int| crate::json::chosen_stack_s(manifest_response.body.json@, i),
        ));
        assert(crate::json::fe_pairs_view(raw.tree_hash@) =~= Seq::new(
            max_stack_height as nat,
            |i: int| crate::json::chosen_tree_s(
                manifest_response.body.json@,
                ciphertext_digest@,
                i,
            ),
        ));
    }
    let h_json = crate::field::poseidon_one(&json_sequence_digest);
    let h_start = crate::field::poseidon_one(&start_digest);
    let acc0 = crate::field::fe_add(&h_json, &h_start);
    let sum = fold_headers(&manifest_response.headers, ciphertext_digest, acc0);
    let manifest_digest = crate::field::fe_add(ciphertext_digest, &sum);
    (ciphertext_digest.dup(), manifest_digest)
}

} // verus!
