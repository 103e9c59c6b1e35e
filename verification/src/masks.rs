//! HTTP witness masks: extraction of the start line, a header line, the
//! body, or a header found by name, from a padded plaintext.
//!
//! The scanning rules mirror the circuit's view of an HTTP message: lines end
//! with CR LF (bytes `13`, `10`), headers end at the first empty line, and a
//! header's name is what stands before the last colon (byte `58`) of its
//! line.

use vstd::prelude::*;

use crate::ByteOrPad;

verus! {

/// Which byte range of an HTTP message a mask selects.
#[derive(Debug, Clone, Copy, PartialEq, Eq, Structural)]
pub enum HttpMaskType {
    /// The request or status line, before the first CR LF.
    StartLine,
    /// The i-th header line, counted from zero after the start line.
    Header(usize),
    /// Everything after the first CR LF CR LF.
    Body,
}

/// Position of the first CR LF pair at or after `i`, if any.
pub open spec fn find_crlf_from(s: Seq<ByteOrPad>, i: nat) -> Option<nat>
    decreases s.len() - i,
{
    if i + 1 >= s.len() {
        Option::None
    } else if s[i as int] == ByteOrPad::Byte(13) && s[i as int + 1] == ByteOrPad::Byte(10) {
        Option::Some(i)
    } else {
        find_crlf_from(s, i + 1)
    }
}

/// A found CR LF lies at or after the search start and within bounds.
pub proof fn lemma_find_crlf_from_range(s: Seq<ByteOrPad>, i: nat)
    ensures
        find_crlf_from(s, i) matches Option::Some(k) ==> i <= k && k + 1 < s.len(),
    decreases s.len() - i,
{
    if i + 1 >= s.len() {
    } else if s[i as int] == ByteOrPad::Byte(13) && s[i as int + 1] == ByteOrPad::Byte(10) {
    } else {
        lemma_find_crlf_from_range(s, i + 1);
    }
}

/// Position of the first CR LF CR LF at or after `i`, if any.
pub open spec fn find_crlf2_from(s: Seq<ByteOrPad>, i: nat) -> Option<nat>
    decreases s.len() - i,
{
    if i + 3 >= s.len() {
        Option::None
    } else if s[i as int] == ByteOrPad::Byte(13) && s[i as int + 1] == ByteOrPad::Byte(10)
        && s[i as int + 2] == ByteOrPad::Byte(13) && s[i as int + 3] == ByteOrPad::Byte(10) {
        Option::Some(i)
    } else {
        find_crlf2_from(s, i + 1)
    }
}

/// A found CR LF CR LF lies at or after the search start and within bounds.
pub proof fn lemma_find_crlf2_from_range(s: Seq<ByteOrPad>, i: nat)
    ensures
        find_crlf2_from(s, i) matches Option::Some(k) ==> i <= k && k + 3 < s.len(),
    decreases s.len() - i,
{
    if i + 3 >= s.len() {
    } else if s[i as int] == ByteOrPad::Byte(13) && s[i as int + 1] == ByteOrPad::Byte(10)
        && s[i as int + 2] == ByteOrPad::Byte(13) && s[i as int + 3] == ByteOrPad::Byte(10) {
    } else {
        lemma_find_crlf2_from_range(s, i + 1);
    }
}

/// Position of the last colon in `[start, end)`, if any.
pub open spec fn last_colon_from(s: Seq<ByteOrPad>, start: nat, end: nat) -> Option<nat>
    decreases end,
{
    if end <= start {
        Option::None
    } else if s[end as int - 1] == ByteOrPad::Byte(58) {
        Option::Some((end - 1) as nat)
    } else {
        last_colon_from(s, start, (end - 1) as nat)
    }
}

/// A found colon lies within the scanned range.
pub proof fn lemma_last_colon_from_range(s: Seq<ByteOrPad>, start: nat, end: nat)
    ensures
        last_colon_from(s, start, end) matches Option::Some(c) ==> start <= c && c < end,
    decreases end,
{
    if end <= start {
    } else if s[end as int - 1] == ByteOrPad::Byte(58) {
    } else {
        lemma_last_colon_from_range(s, start, (end - 1) as nat);
    }
}

/// The line of the header reached after skipping `remaining` header lines
/// from `start`; empty when the headers end first.
pub open spec fn find_header_from(s: Seq<ByteOrPad>, start: nat, remaining: nat) -> Seq<
    ByteOrPad,
>
    decreases s.len() - start,
    via find_header_from_dec
{
    match find_crlf_from(s, start) {
        Option::None => Seq::empty(),
        Option::Some(k) => {
            if remaining == 0 {
                s.subrange(start as int, k as int)
            } else if k + 3 < s.len() && s[k as int + 2] == ByteOrPad::Byte(13)
                && s[k as int + 3] == ByteOrPad::Byte(10) {
                Seq::empty()
            } else {
                find_header_from(s, k + 2, (remaining - 1) as nat)
            }
        },
    }
}

#[via_fn]
proof fn find_header_from_dec(s: Seq<ByteOrPad>, start: nat, remaining: nat) {
    lemma_find_crlf_from_range(s, start);
}

/// A padded slice equals a plain byte string: same length, every slot a
/// byte of that value (padding equals nothing).
pub open spec fn bop_eq_bytes_s(a: Seq<ByteOrPad>, b: Seq<u8>) -> bool {
    a.len() == b.len() && forall|i: int| 0 <= i < a.len() ==> a[i] == ByteOrPad::Byte(b[i])
}

/// Scan for the first header whose name (up to its line's last colon, or the
/// name carried over from colon-less lines) equals `name`; yields the count
/// of header lines passed over and the matching line, empty when none
/// matches.
pub open spec fn header_by_name_from(
    s: Seq<ByteOrPad>,
    start: nat,
    name: Seq<u8>,
    carried: Seq<ByteOrPad>,
    count: nat,
) -> (nat, Seq<ByteOrPad>)
    decreases s.len() - start,
    via header_by_name_from_dec
{
    match find_crlf_from(s, start) {
        Option::None => (count, Seq::empty()),
        Option::Some(k) => {
            let nm = match last_colon_from(s, start, k) {
                Option::None => carried,
                Option::Some(c) => s.subrange(start as int, c as int),
            };
            if bop_eq_bytes_s(nm, name) {
                (count, s.subrange(start as int, k as int))
            } else if k + 3 < s.len() && s[k as int + 2] == ByteOrPad::Byte(13)
                && s[k as int + 3] == ByteOrPad::Byte(10) {
                (count, Seq::empty())
            } else {
                header_by_name_from(s, k + 2, name, nm, count + 1)
            }
        },
    }
}

#[via_fn]
proof fn header_by_name_from_dec(
    s: Seq<ByteOrPad>,
    start: nat,
    name: Seq<u8>,
    carried: Seq<ByteOrPad>,
    count: nat,
) {
    lemma_find_crlf_from_range(s, start);
}

/// The start-line mask: bytes before the first CR LF.
pub open spec fn start_line_mask_s(s: Seq<ByteOrPad>) -> Seq<ByteOrPad> {
    match find_crlf_from(s, 0) {
        Option::None => Seq::empty(),
        Option::Some(k) => s.take(k as int),
    }
}

/// The header mask: the `idx`-th header line after the start line.
pub open spec fn header_mask_s(s: Seq<ByteOrPad>, idx: nat) -> Seq<ByteOrPad> {
    let start: nat = match find_crlf_from(s, 0) {
        Option::None => 0,
        Option::Some(k) => k + 2,
    };
    find_header_from(s, start, idx)
}

/// The body mask: bytes strictly after the first CR LF CR LF.
pub open spec fn body_mask_s(s: Seq<ByteOrPad>) -> Seq<ByteOrPad> {
    match find_crlf2_from(s, 0) {
        Option::None => Seq::empty(),
        Option::Some(k) => s.skip(k as int + 4),
    }
}

/// What `compute_http_witness` selects for each mask.
pub open spec fn http_witness_s(s: Seq<ByteOrPad>, mask_at: HttpMaskType) -> Seq<ByteOrPad> {
    match mask_at {
        HttpMaskType::StartLine => start_line_mask_s(s),
        HttpMaskType::Header(idx) => header_mask_s(s, idx as nat),
        HttpMaskType::Body => body_mask_s(s),
    }
}

/// What `compute_http_header_witness` yields: the index of the matching
/// header and its line.  The search starts after the first CR LF found at
/// position one or later, with an empty carried name.
pub open spec fn header_by_name_s(s: Seq<ByteOrPad>, name: Seq<u8>) -> (nat, Seq<ByteOrPad>) {
    let start: nat = match find_crlf_from(s, 1) {
        Option::None => 0,
        Option::Some(k) => k + 2,
    };
    header_by_name_from(s, start, name, Seq::empty(), 0)
}

/// First CR LF at or after `from`.
fn find_crlf(p: &[ByteOrPad], from: usize) -> (r: Option<usize>)
    ensures
        match r {
            Option::None => find_crlf_from(p@, from as nat) is None,
            Option::Some(k) => find_crlf_from(p@, from as nat) == Option::Some(k as nat),
        },
{
    let n = p.len();
    if n == 0 {
        return Option::None;
    }
    let mut i = from;
    while i < n - 1
        invariant
            n == p@.len(),
            n >= 1,
            from <= i,
            find_crlf_from(p@, from as nat) == find_crlf_from(p@, i as nat),
        decreases n - i,
    {
        if p[i].eq_byte(13) && p[i + 1].eq_byte(10) {
            return Option::Some(i);
        }
        i = i + 1;
    }
    Option::None
}

/// First CR LF CR LF at or after `from`.
fn find_crlf2(p: &[ByteOrPad], from: usize) -> (r: Option<usize>)
    ensures
        match r {
            Option::None => find_crlf2_from(p@, from as nat) is None,
            Option::Some(k) => find_crlf2_from(p@, from as nat) == Option::Some(k as nat),
        },
{
    let n = p.len();
    if n <= 3 {
        return Option::None;
    }
    let mut i = from;
    while i < n - 3
        invariant
            n == p@.len(),
            n >= 4,
            from <= i,
            find_crlf2_from(p@, from as nat) == find_crlf2_from(p@, i as nat),
        decreases n - i,
    {
        if p[i].eq_byte(13) && p[i + 1].eq_byte(10) && p[i + 2].eq_byte(13)
            && p[i + 3].eq_byte(10) {
            return Option::Some(i);
        }
        i = i + 1;
    }
    Option::None
}

/// Copy of `p[a..b]`.
fn bop_subrange(p: &[ByteOrPad], a: usize, b: usize) -> (r: Vec<ByteOrPad>)
    requires
        a <= b <= p@.len(),
    ensures
        r@ == p@.subrange(a as int, b as int),
{
    let mut r: Vec<ByteOrPad> = Vec::new();
    let mut i = a;
    while i < b
        invariant
            a <= i <= b <= p@.len(),
            r@ =~= p@.subrange(a as int, i as int),
        decreases b - i,
    {
        r.push(p[i]);
        proof {
            assert(p@.subrange(a as int, i as int + 1)
                =~= p@.subrange(a as int, i as int).push(p@[i as int]));
        }
        i = i + 1;
    }
    r
}

/// Walks header lines from `start`, skipping `remaining` of them.
fn find_header(p: &[ByteOrPad], start: usize, remaining: usize) -> (r: Vec<ByteOrPad>)
    ensures
        r@ == find_header_from(p@, start as nat, remaining as nat),
    decreases p@.len() - start,
{
    match find_crlf(p, start) {
        Option::None => Vec::new(),
        Option::Some(k) => {
            proof {
                lemma_find_crlf_from_range(p@, start as nat);
            }
            if remaining == 0 {
                bop_subrange(p, start, k)
            } else if p.len() > 3 && k < p.len() - 3 && p[k + 2].eq_byte(13)
                && p[k + 3].eq_byte(10) {
                Vec::new()
            } else {
                find_header(p, k + 2, remaining - 1)
            }
        },
    }
}

/// Compares a padded slice against a plain byte string; padding never
/// matches.
fn bop_eq_bytes(a: &[ByteOrPad], b: &[u8]) -> (r: bool)
    ensures
        r == bop_eq_bytes_s(a@, b@),
{
    if a.len() != b.len() {
        return false;
    }
    let mut i: usize = 0;
    while i < a.len()
        invariant
            a@.len() == b@.len(),
            i <= a@.len(),
            forall|j: int| 0 <= j < i ==> a@[j] == ByteOrPad::Byte(b@[j]),
        decreases a@.len() - i,
    {
        if !a[i].eq_byte(b[i]) {
            return false;
        }
        i = i + 1;
    }
    true
}

/// Position of the last colon in `p[start..end)`.
fn last_colon(p: &[ByteOrPad], start: usize, end: usize) -> (r: Option<usize>)
    requires
        end <= p@.len(),
    ensures
        match r {
            Option::None => last_colon_from(p@, start as nat, end as nat) is None,
            Option::Some(c) => last_colon_from(p@, start as nat, end as nat)
                == Option::Some(c as nat),
        },
{
    let mut res: Option<usize> = Option::None;
    let mut i = start;
    while i < end
        invariant
            end <= p@.len(),
            start <= i,
            i <= end || i == start,
            match res {
                Option::None => last_colon_from(p@, start as nat, i as nat) is None,
                Option::Some(c) => last_colon_from(p@, start as nat, i as nat)
                    == Option::Some(c as nat),
            },
        decreases end - i,
    {
        if p[i].eq_byte(58) {
            res = Option::Some(i);
        }
        i = i + 1;
    }
    res
}

/// Walks header lines from `start`, comparing each line's name (or the one
/// carried over) against `name`.
fn find_header_by_name(
    p: &[ByteOrPad],
    start: usize,
    name: &[u8],
    carried: Vec<ByteOrPad>,
    count: usize,
) -> (r: (usize, Vec<ByteOrPad>))
    requires
        count as int + p@.len() - start as int <= usize::MAX as int,
    ensures
        ({
            let spec_r = header_by_name_from(p@, start as nat, name@, carried@, count as nat);
            r.0 as nat == spec_r.0 && r.1@ == spec_r.1
        }),
    decreases p@.len() - start,
{
    match find_crlf(p, start) {
        Option::None => (count, Vec::new()),
        Option::Some(k) => {
            proof {
                lemma_find_crlf_from_range(p@, start as nat);
                lemma_last_colon_from_range(p@, start as nat, k as nat);
            }
            let nm: Vec<ByteOrPad> = match last_colon(p, start, k) {
                Option::None => carried,
                Option::Some(c) => bop_subrange(p, start, c),
            };
            if bop_eq_bytes(nm.as_slice(), name) {
                (count, bop_subrange(p, start, k))
            } else if p.len() > 3 && k < p.len() - 3 && p[k + 2].eq_byte(13)
                && p[k + 3].eq_byte(10) {
                (count, Vec::new())
            } else {
                find_header_by_name(p, k + 2, name, nm, count + 1)
            }
        },
    }
}

/// Selects the requested byte range of the padded HTTP message: the start
/// line, the `idx`-th header line, or the body.
pub fn compute_http_witness(plaintext: &[ByteOrPad], mask_at: HttpMaskType) -> (r: Vec<
    ByteOrPad,
>)
    ensures
        r@ == http_witness_s(plaintext@, mask_at),
{
    let n = plaintext.len();
    match mask_at {
        HttpMaskType::StartLine => {
            match find_crlf(plaintext, 0) {
                Option::None => Vec::new(),
                Option::Some(k) => {
                    proof {
                        lemma_find_crlf_from_range(plaintext@, 0);
                        assert(plaintext@.take(k as int)
                            =~= plaintext@.subrange(0, k as int));
                    }
                    bop_subrange(plaintext, 0, k)
                },
            }
        },
        HttpMaskType::Header(idx) => {
            let start: usize = match find_crlf(plaintext, 0) {
                Option::None => 0,
                Option::Some(k) => {
                    proof {
                        lemma_find_crlf_from_range(plaintext@, 0);
                    }
                    k + 2
                },
            };
            find_header(plaintext, start, idx)
        },
        HttpMaskType::Body => {
            match find_crlf2(plaintext, 0) {
                Option::None => Vec::new(),
                Option::Some(k) => {
                    proof {
                        lemma_find_crlf2_from_range(plaintext@, 0);
                        assert(plaintext@.skip(k as int + 4)
                            =~= plaintext@.subrange(k as int + 4, plaintext@.len() as int));
                    }
                    bop_subrange(plaintext, k + 4, n)
                },
            }
        },
    }
}

/// Finds the first header whose name equals `name`, returning how many
/// header lines preceded it and the header's bytes; the bytes are empty when
/// no header matches.
pub fn compute_http_header_witness(plaintext: &[ByteOrPad], name: &[u8]) -> (r: (
    usize,
    Vec<ByteOrPad>,
))
    ensures
        r.0 as nat == header_by_name_s(plaintext@, name@).0,
        r.1@ == header_by_name_s(plaintext@, name@).1,
{
    let n = plaintext.len();
    let start: usize = match find_crlf(plaintext, 1) {
        Option::None => 0,
        Option::Some(k) => {
            proof {
                lemma_find_crlf_from_range(plaintext@, 1);
            }
            k + 2
        },
    };
    find_header_by_name(plaintext, start, name, Vec::new(), 0)
}

} // verus!
