//! The JSON structural state machine.
//!
//! A bounded stack of `Location`s encodes where in the document the machine
//! stands, and a parallel label stack carries the key and value tokens being
//! accumulated.  `parse` yields one snapshot per byte; the snapshot after the
//! first `i` bytes is exactly `json_run` of that prefix, and a structural
//! byte in a wrong state (or a push past the stack bound) aborts the parse.

use vstd::prelude::*;

use crate::error::WitnessGeneratorError;
use crate::field::{fe_add_s, fe_mul_s, fe_pow_s, Fe};

verus! {

/// One element of a JSON path: an object key or an array index.
#[derive(Debug, Clone, PartialEq, Eq)]
pub enum JsonKey {
    /// Object key.
    String(String),
    /// Array index.
    Num(usize),
}

/// Where the machine stands at one nesting depth.
#[derive(Debug, Clone, Copy, PartialEq, Eq, Structural)]
pub enum Location {
    /// Unused stack slot.
    Empty,
    /// Inside an object, reading a key.
    ObjectKey,
    /// Inside an object, reading a value.
    ObjectValue,
    /// Inside an array, at the given element.
    ArrayIndex(usize),
}

/// What kind of token the machine is currently reading.
#[derive(Debug, Clone, PartialEq, Eq)]
pub enum Status {
    /// Between tokens.
    Idle,
    /// Inside a quoted string; the flag is the escape state.
    ParsingString(Vec<u8>, bool),
    /// Inside a number, boolean or null token.
    ParsingPrimitive(Vec<u8>),
}

/// The mathematical image of a `Status`.
pub ghost enum StatusModel {
    Idle,
    InString(Seq<u8>, bool),
    InPrimitive(Seq<u8>),
}

impl View for Status {
    type V = StatusModel;

    open spec fn view(&self) -> StatusModel {
        match self {
            Status::Idle => StatusModel::Idle,
            Status::ParsingString(s, e) => StatusModel::InString(s@, *e),
            Status::ParsingPrimitive(s) => StatusModel::InPrimitive(s@),
        }
    }
}

/// One per-byte snapshot of the JSON machine.
#[derive(Debug, Clone)]
pub struct JsonMachine {
    /// The field element driving every digest.
    pub polynomial_input: Fe,
    /// The token being read.
    pub status: Status,
    /// The location stack; its length is the stack bound.
    pub location: Vec<Location>,
    /// At each depth, the key and value tokens accumulated so far.
    pub label_stack: Vec<(Vec<u8>, Vec<u8>)>,
}

/// The machine's mathematical state.
pub ghost struct JsonModel {
    pub polynomial_input: nat,
    pub status: StatusModel,
    pub location: Seq<Location>,
    pub label_stack: Seq<(Seq<u8>, Seq<u8>)>,
}

/// Index of the first unused slot at or after `i`, or the stack bound.
pub open spec fn pointer_from(loc: Seq<Location>, i: nat) -> nat
    decreases loc.len() - i,
{
    if i >= loc.len() {
        loc.len()
    } else if loc[i as int] is Empty {
        i
    } else {
        pointer_from(loc, i + 1)
    }
}

/// Index of the first unused slot: the effective stack depth.
pub open spec fn pointer_s(loc: Seq<Location>) -> nat {
    pointer_from(loc, 0)
}

/// The pointer never exceeds the stack bound, nor undershoots its start.
pub proof fn lemma_pointer_from_range(loc: Seq<Location>, i: nat)
    requires
        i <= loc.len(),
    ensures
        i <= pointer_from(loc, i) <= loc.len(),
    decreases loc.len() - i,
{
    if i >= loc.len() {
    } else if loc[i as int] is Empty {
    } else {
        lemma_pointer_from_range(loc, i + 1);
    }
}

/// The pointer stops at or before any unused slot.
pub proof fn lemma_pointer_min(loc: Seq<Location>, i: nat, j: nat)
    requires
        i <= j < loc.len(),
        loc[j as int] is Empty,
    ensures
        pointer_from(loc, i) <= j,
    decreases loc.len() - i,
{
    if i >= loc.len() {
    } else if loc[i as int] is Empty {
    } else {
        lemma_pointer_min(loc, i + 1, j);
    }
}

/// The location the machine is currently inside of: the slot below the
/// pointer, or nothing on an empty stack.
pub open spec fn current_location_s(loc: Seq<Location>) -> Location {
    let p = pointer_s(loc);
    if p == 0 {
        Location::Empty
    } else {
        loc[p as int - 1]
    }
}

/// Empties the label at depth `i`.
pub open spec fn clear_label_at(g: JsonModel, i: int) -> JsonModel {
    JsonModel {
        label_stack: g.label_stack.update(i, (Seq::<u8>::empty(), Seq::<u8>::empty())),
        ..g
    }
}

/// Writes the live token to the label stack: to the key half (clearing the
/// value half) under an object key, to the value half under an object value
/// or array index, nowhere at the top level.
pub open spec fn write_token_s(g: JsonModel, t: Seq<u8>) -> JsonModel {
    let p = pointer_s(g.location);
    match current_location_s(g.location) {
        Location::Empty => g,
        Location::ObjectKey => JsonModel {
            label_stack: g.label_stack.update(p as int - 1, (t, Seq::<u8>::empty())),
            ..g
        },
        Location::ObjectValue => JsonModel {
            label_stack: g.label_stack.update(
                p as int - 1,
                (g.label_stack[p as int - 1].0, t),
            ),
            ..g
        },
        Location::ArrayIndex(_) => JsonModel {
            label_stack: g.label_stack.update(
                p as int - 1,
                (g.label_stack[p as int - 1].0, t),
            ),
            ..g
        },
    }
}

/// After a byte's structural effect, the live token (if any) is written to
/// the label stack.
pub open spec fn write_label_s(g: JsonModel) -> JsonModel {
    match g.status {
        StatusModel::Idle => g,
        StatusModel::InString(t, _) => write_token_s(g, t),
        StatusModel::InPrimitive(t) => write_token_s(g, t),
    }
}

/// Whether a byte is an ASCII digit.
pub open spec fn is_digit_s(b: u8) -> bool {
    48 <= b <= 57
}

/// The structural effect of one byte, before the label write; `Err` is a
/// structural violation or a push past the stack bound.
pub open spec fn json_structural_step(g: JsonModel, b: u8) -> Result<JsonModel, ()> {
    let cur = current_location_s(g.location);
    let p = pointer_s(g.location);
    if b == 123 {  // {
        if g.status is Idle && (cur is Empty || cur is ObjectValue || cur is ArrayIndex) {
            if p < g.location.len() {
                Result::Ok(
                    JsonModel { location: g.location.update(p as int, Location::ObjectKey), ..g },
                )
            } else {
                Result::Err(())
            }
        } else {
            Result::Err(())
        }
    } else if b == 125 {  // }
        if (g.status is Idle || g.status is InPrimitive) && cur is ObjectValue {
            let g1 = JsonModel {
                location: g.location.update(p as int - 1, Location::Empty),
                status: StatusModel::Idle,
                ..g
            };
            Result::Ok(clear_label_at(g1, pointer_s(g1.location) as int))
        } else {
            Result::Err(())
        }
    } else if b == 91 {  // [
        if g.status is Idle && (cur is Empty || cur is ObjectValue || cur is ArrayIndex) {
            if p < g.location.len() {
                Result::Ok(
                    JsonModel {
                        location: g.location.update(p as int, Location::ArrayIndex(0)),
                        ..g
                    },
                )
            } else {
                Result::Err(())
            }
        } else {
            Result::Err(())
        }
    } else if b == 93 {  // ]
        if g.status is Idle && cur is ArrayIndex {
            let g1 = JsonModel { location: g.location.update(p as int - 1, Location::Empty), ..g };
            Result::Ok(clear_label_at(g1, pointer_s(g1.location) as int))
        } else {
            Result::Err(())
        }
    } else if b == 58 {  // :
        if g.status is Idle && cur is ObjectKey {
            Result::Ok(
                JsonModel { location: g.location.update(p as int - 1, Location::ObjectValue), ..g },
            )
        } else if g.status is InString || g.status is InPrimitive {
            Result::Ok(g)
        } else {
            Result::Err(())
        }
    } else if b == 44 {  // ,
        if g.status is Idle || g.status is InPrimitive {
            match cur {
                Location::ObjectValue => {
                    let g1 = JsonModel {
                        location: g.location.update(p as int - 1, Location::ObjectKey),
                        status: StatusModel::Idle,
                        ..g
                    };
                    Result::Ok(clear_label_at(g1, p as int - 1))
                },
                Location::ArrayIndex(idx) => {
                    let g1 = JsonModel {
                        location: g.location.update(
                            p as int - 1,
                            Location::ArrayIndex((idx + 1) as usize),
                        ),
                        status: StatusModel::Idle,
                        ..g
                    };
                    Result::Ok(clear_label_at(g1, p as int - 1))
                },
                _ => Result::Err(()),
            }
        } else {
            Result::Err(())
        }
    } else if b == 34 {  // "
        match g.status {
            StatusModel::Idle => Result::Ok(
                JsonModel { status: StatusModel::InString(Seq::<u8>::empty(), false), ..g },
            ),
            StatusModel::InString(t, escaped) => {
                if escaped {
                    Result::Ok(JsonModel { status: StatusModel::InString(t.push(34), false), ..g })
                } else {
                    let g1 = JsonModel { status: StatusModel::Idle, ..g };
                    if cur is ObjectValue || cur is ArrayIndex {
                        Result::Ok(
                            JsonModel {
                                label_stack: g1.label_stack.update(
                                    p as int - 1,
                                    (g1.label_stack[p as int - 1].0, Seq::<u8>::empty()),
                                ),
                                ..g1
                            },
                        )
                    } else {
                        Result::Ok(g1)
                    }
                }
            },
            StatusModel::InPrimitive(_) => Result::Err(()),
        }
    } else if b == 92 {  // backslash
        match g.status {
            StatusModel::InString(t, escaped) => {
                if escaped {
                    Result::Ok(g)
                } else {
                    Result::Ok(JsonModel { status: StatusModel::InString(t, true), ..g })
                }
            },
            _ => Result::Ok(g),
        }
    } else if is_digit_s(b) {
        match g.status {
            StatusModel::Idle => Result::Ok(
                JsonModel { status: StatusModel::InPrimitive(seq![b]), ..g },
            ),
            StatusModel::InPrimitive(t) => Result::Ok(
                JsonModel { status: StatusModel::InPrimitive(t.push(b)), ..g },
            ),
            StatusModel::InString(t, _) => Result::Ok(
                JsonModel { status: StatusModel::InString(t.push(b), false), ..g },
            ),
        }
    } else {
        match g.status {
            StatusModel::InPrimitive(_) => {
                let g1 = JsonModel { status: StatusModel::Idle, ..g };
                if p == 0 {
                    Result::Ok(g1)
                } else {
                    Result::Ok(clear_label_at(g1, p as int - 1))
                }
            },
            StatusModel::InString(t, _) => Result::Ok(
                JsonModel { status: StatusModel::InString(t.push(b), false), ..g },
            ),
            StatusModel::Idle => Result::Ok(g),
        }
    }
}

/// One byte of the JSON transition: the structural effect, then the label
/// write.
pub open spec fn json_step(g: JsonModel, b: u8) -> Result<JsonModel, ()> {
    match json_structural_step(g, b) {
        Result::Ok(g1) => Result::Ok(write_label_s(g1)),
        Result::Err(e) => Result::Err(e),
    }
}

/// The machine before any byte: idle, all slots unused, all labels empty.
pub open spec fn json_init(p: nat, m: nat) -> JsonModel {
    JsonModel {
        polynomial_input: p,
        status: StatusModel::Idle,
        location: Seq::new(m, |i: int| Location::Empty),
        label_stack: Seq::new(m, |i: int| (Seq::<u8>::empty(), Seq::<u8>::empty())),
    }
}

/// The machine state after consuming all of `bytes`, or the error that
/// aborted the parse.
pub open spec fn json_run(bytes: Seq<u8>, p: nat, m: nat) -> Result<JsonModel, ()>
    decreases bytes.len(),
{
    if bytes.len() == 0 {
        Result::Ok(json_init(p, m))
    } else {
        match json_run(bytes.drop_last(), p, m) {
            Result::Ok(g) => json_step(g, bytes.last()),
            Result::Err(e) => Result::Err(e),
        }
    }
}

/// Stack and label dimensions never change across a step.
pub open spec fn json_model_wf(g: JsonModel, m: nat) -> bool {
    g.location.len() == m && g.label_stack.len() == m
}

/// Every array index on the stack is at most `n`.
pub open spec fn indices_bounded(g: JsonModel, n: nat) -> bool {
    forall|i: int| 0 <= i < g.location.len() ==> ((#[trigger] g.location[i]) matches
        Location::ArrayIndex(k) ==> k <= n)
}

/// One step keeps the stack dimensions.
pub proof fn lemma_step_wf(g: JsonModel, b: u8, m: nat)
    requires
        json_model_wf(g, m),
    ensures
        json_step(g, b) matches Result::Ok(g2) ==> json_model_wf(g2, m),
{
    lemma_step_bounds(g, b, m);
    match json_structural_step(g, b) {
        Result::Ok(g1) => {
            assert(json_model_wf(g1, m));
            assert(json_model_wf(write_label_s(g1), m));
        },
        Result::Err(_) => {},
    }
}

/// Shared in-bounds facts for reasoning about one step's stack updates.
proof fn lemma_step_bounds(g: JsonModel, b: u8, m: nat)
    requires
        json_model_wf(g, m),
    ensures
        pointer_s(g.location) <= m,
        pointer_s(g.location) >= 1 ==> pointer_s(
            g.location.update(pointer_s(g.location) as int - 1, Location::Empty),
        ) < m,
        json_structural_step(g, b) matches Result::Ok(g1) ==> g1.location.len() == m
            && g1.label_stack.len() == m && pointer_s(g1.location) <= m,
{
    let p = pointer_s(g.location);
    lemma_pointer_from_range(g.location, 0);
    if p >= 1 {
        let popped = g.location.update(p as int - 1, Location::Empty);
        lemma_pointer_min(popped, 0, (p - 1) as nat);
    }
    match json_structural_step(g, b) {
        Result::Ok(g1) => {
            lemma_pointer_from_range(g1.location, 0);
        },
        Result::Err(_) => {},
    }
}

/// One step raises no array index by more than one.
pub proof fn lemma_step_indices(g: JsonModel, b: u8, n: nat)
    requires
        indices_bounded(g, n),
        json_model_wf(g, g.location.len()),
    ensures
        json_step(g, b) matches Result::Ok(g2) ==> indices_bounded(g2, n + 1),
{
    lemma_step_bounds(g, b, g.location.len());
    match json_structural_step(g, b) {
        Result::Ok(g1) => {
            assert(indices_bounded(g1, n + 1));
            assert(indices_bounded(write_label_s(g1), n + 1));
        },
        Result::Err(_) => {},
    }
}

/// A successful run keeps the stack dimensions of its start state.
pub proof fn lemma_run_wf(bytes: Seq<u8>, p: nat, m: nat)
    ensures
        json_run(bytes, p, m) matches Result::Ok(g) ==> json_model_wf(g, m),
    decreases bytes.len(),
{
    if bytes.len() > 0 {
        lemma_run_wf(bytes.drop_last(), p, m);
        match json_run(bytes.drop_last(), p, m) {
            Result::Ok(g) => lemma_step_wf(g, bytes.last(), m),
            Result::Err(_) => (),
        }
    }
}

/// After a successful run, every array index is bounded by the number of
/// bytes consumed: an index only appears as zero or by one increment per
/// byte.
pub proof fn lemma_run_indices(bytes: Seq<u8>, p: nat, m: nat)
    ensures
        json_run(bytes, p, m) matches Result::Ok(g) ==> indices_bounded(g, bytes.len()),
    decreases bytes.len(),
{
    if bytes.len() > 0 {
        lemma_run_indices(bytes.drop_last(), p, m);
        lemma_run_wf(bytes.drop_last(), p, m);
        match json_run(bytes.drop_last(), p, m) {
            Result::Ok(g) => lemma_step_indices(g, bytes.last(), (bytes.len() - 1) as nat),
            Result::Err(_) => (),
        }
    }
}

/// An error in a prefix persists through the whole run.
pub proof fn lemma_run_err_persists(bytes: Seq<u8>, p: nat, m: nat, i: int)
    requires
        0 <= i <= bytes.len(),
        json_run(bytes.take(i), p, m) is Err,
    ensures
        json_run(bytes, p, m) is Err,
    decreases bytes.len() - i,
{
    if i == bytes.len() {
        assert(bytes.take(i) =~= bytes);
    } else {
        assert(bytes.take(i + 1).drop_last() =~= bytes.take(i));
        lemma_run_err_persists(bytes, p, m, i + 1);
    }
}

/// The snapshot's field element is canonical.
pub open spec fn json_machine_inv(m: JsonMachine) -> bool {
    m.polynomial_input.wf()
}

/// The exec label stack agrees with the model's, pointwise.
pub open spec fn labels_match(l: Seq<(Vec<u8>, Vec<u8>)>, g: Seq<(Seq<u8>, Seq<u8>)>) -> bool {
    l.len() == g.len() && forall|i: int| 0 <= i < l.len() ==> (#[trigger] l[i]).0@ == g[i].0
        && l[i].1@ == g[i].1
}

/// A snapshot agrees with a model state.
pub open spec fn json_machine_matches(m: JsonMachine, g: JsonModel) -> bool {
    m.polynomial_input@ == g.polynomial_input && m.status@ == g.status && m.location@
        == g.location && labels_match(m.label_stack@, g.label_stack)
}

/// Index of the first unused location slot, or the stack bound.
fn pointer_of(loc: &Vec<Location>) -> (r: usize)
    ensures
        r as nat == pointer_s(loc@),
        r <= loc@.len(),
{
    let n = loc.len();
    let mut i: usize = 0;
    while i < n
        invariant
            n == loc@.len(),
            i <= n,
            pointer_s(loc@) == pointer_from(loc@, i as nat),
        decreases n - i,
    {
        if loc[i] == Location::Empty {
            return i;
        }
        i = i + 1;
    }
    n
}

/// The location the machine is currently inside of.
fn current_location_of(loc: &Vec<Location>) -> (r: Location)
    ensures
        r == current_location_s(loc@),
{
    let p = pointer_of(loc);
    if p == 0 {
        Location::Empty
    } else {
        loc[p - 1]
    }
}

/// Copy of a byte token.
fn dup_bytes(v: &Vec<u8>) -> (r: Vec<u8>)
    ensures
        r@ == v@,
{
    let mut r: Vec<u8> = Vec::new();
    let mut i: usize = 0;
    while i < v.len()
        invariant
            i <= v@.len(),
            r@ == v@.take(i as int),
        decreases v@.len() - i,
    {
        r.push(v[i]);
        proof {
            assert(v@.take(i as int + 1) =~= v@.take(i as int).push(v@[i as int]));
        }
        i = i + 1;
    }
    proof {
        assert(v@.take(v@.len() as int) =~= v@);
    }
    r
}

/// Copy of a status.
fn dup_status(s: &Status) -> (r: Status)
    ensures
        r@ == s@,
{
    match s {
        Status::Idle => Status::Idle,
        Status::ParsingString(t, e) => Status::ParsingString(dup_bytes(t), *e),
        Status::ParsingPrimitive(t) => Status::ParsingPrimitive(dup_bytes(t)),
    }
}

/// Copy of a location stack.
fn dup_locations(v: &Vec<Location>) -> (r: Vec<Location>)
    ensures
        r@ == v@,
{
    let mut r: Vec<Location> = Vec::new();
    let mut i: usize = 0;
    while i < v.len()
        invariant
            i <= v@.len(),
            r@ == v@.take(i as int),
        decreases v@.len() - i,
    {
        r.push(v[i]);
        proof {
            assert(v@.take(i as int + 1) =~= v@.take(i as int).push(v@[i as int]));
        }
        i = i + 1;
    }
    proof {
        assert(v@.take(v@.len() as int) =~= v@);
    }
    r
}

/// A pointwise label update keeps the exec and model label stacks in
/// agreement.
proof fn lemma_labels_match_update(
    l: Seq<(Vec<u8>, Vec<u8>)>,
    g: Seq<(Seq<u8>, Seq<u8>)>,
    k: int,
    lv: (Vec<u8>, Vec<u8>),
    gv: (Seq<u8>, Seq<u8>),
)
    requires
        labels_match(l, g),
        0 <= k < l.len(),
        lv.0@ == gv.0,
        lv.1@ == gv.1,
    ensures
        labels_match(l.update(k, lv), g.update(k, gv)),
{
    assert forall|i: int| 0 <= i < l.len() implies (#[trigger] l.update(k, lv)[i]).0@ == g.update(
        k,
        gv,
    )[i].0 && l.update(k, lv)[i].1@ == g.update(k, gv)[i].1 by {
        if i != k {
            assert(l[i].0@ == g[i].0 && l[i].1@ == g[i].1);
        }
    }
}

/// Copy of a label stack.
fn dup_labels(v: &Vec<(Vec<u8>, Vec<u8>)>) -> (r: Vec<(Vec<u8>, Vec<u8>)>)
    ensures
        r@.len() == v@.len(),
        forall|i: int| 0 <= i < v@.len() ==> (#[trigger] r@[i]).0@ == v@[i].0@ && r@[i].1@
            == v@[i].1@,
{
    let mut r: Vec<(Vec<u8>, Vec<u8>)> = Vec::new();
    let mut i: usize = 0;
    while i < v.len()
        invariant
            i <= v@.len(),
            r@.len() == i,
            forall|j: int| 0 <= j < i ==> (#[trigger] r@[j]).0@ == v@[j].0@ && r@[j].1@
                == v@[j].1@,
        decreases v@.len() - i,
    {
        let pair = (dup_bytes(&v[i].0), dup_bytes(&v[i].1));
        r.push(pair);
        i = i + 1;
    }
    r
}

/// Runs the JSON machine over the bytes, one snapshot per byte: the `i`-th
/// snapshot is the machine state after the first `i + 1` bytes.  A
/// structural byte in a wrong state, or a push past the stack bound, aborts
/// with a `JsonParser` error.
pub fn parse(bytes: &[u8], polynomial_input: &Fe, max_stack_height: usize) -> (r: Result<
    Vec<JsonMachine>,
    WitnessGeneratorError,
>)
    requires
        polynomial_input.wf(),
        max_stack_height >= 1,
    ensures
        match r {
            Result::Ok(states) => {
                &&& json_run(bytes@, polynomial_input@, max_stack_height as nat) is Ok
                &&& states@.len() == bytes@.len()
                &&& forall|j: int|
                    0 <= j <= bytes@.len() ==> #[trigger] json_run(
                        bytes@.take(j),
                        polynomial_input@,
                        max_stack_height as nat,
                    ) is Ok
                &&& forall|j: int|
                    0 <= j < bytes@.len() ==> json_machine_inv(#[trigger] states@[j])
                        && json_machine_matches(
                        states@[j],
                        json_run(
                            bytes@.take(j + 1),
                            polynomial_input@,
                            max_stack_height as nat,
                        )->Ok_0,
                    )
            },
            Result::Err(e) => json_run(bytes@, polynomial_input@, max_stack_height as nat) is Err
                && e is JsonParser,
        },
{
    let ghost pv = polynomial_input@;
    let ghost m = max_stack_height as nat;
    let mut status = Status::Idle;
    let mut location: Vec<Location> = Vec::new();
    let mut label_stack: Vec<(Vec<u8>, Vec<u8>)> = Vec::new();
    let mut k: usize = 0;
    while k < max_stack_height
        invariant
            k <= max_stack_height,
            location@.len() == k,
            label_stack@.len() == k,
            forall|j: int| 0 <= j < k ==> location@[j] == Location::Empty,
            forall|j: int| 0 <= j < k ==> (#[trigger] label_stack@[j]).0@ == Seq::<u8>::empty()
                && label_stack@[j].1@ == Seq::<u8>::empty(),
        decreases max_stack_height - k,
    {
        location.push(Location::Empty);
        label_stack.push((Vec::new(), Vec::new()));
        k = k + 1;
    }
    proof {
        assert(location@ =~= json_init(pv, m).location);
        assert(bytes@.take(0) =~= Seq::<u8>::empty());
        assert(labels_match(label_stack@, json_init(pv, m).label_stack));
    }
    let mut output: Vec<JsonMachine> = Vec::new();
    let n = bytes.len();
    let mut i: usize = 0;
    while i < n
        invariant
            polynomial_input.wf(),
            pv == polynomial_input@,
            m == max_stack_height as nat,
            max_stack_height >= 1,
            n == bytes@.len(),
            i <= n,
            output@.len() == i,
            location@.len() == max_stack_height,
            label_stack@.len() == max_stack_height,
            json_run(bytes@.take(i as int), pv, m) is Ok,
            json_run(bytes@.take(i as int), pv, m)->Ok_0.polynomial_input == pv,
            status@ == json_run(bytes@.take(i as int), pv, m)->Ok_0.status,
            location@ == json_run(bytes@.take(i as int), pv, m)->Ok_0.location,
            labels_match(label_stack@, json_run(bytes@.take(i as int), pv, m)->Ok_0.label_stack),
            forall|j: int|
                0 <= j <= i ==> #[trigger] json_run(bytes@.take(j), pv, m) is Ok,
            forall|j: int|
                0 <= j < i ==> json_machine_inv(#[trigger] output@[j]) && json_machine_matches(
                    output@[j],
                    json_run(bytes@.take(j + 1), pv, m)->Ok_0,
                ),
        decreases n - i,
    {
        let ghost g_pre = json_run(bytes@.take(i as int), pv, m)->Ok_0;
        proof {
            lemma_run_indices(bytes@.take(i as int), pv, m);
            lemma_pointer_from_range(g_pre.location, 0);
            lemma_step_wf(g_pre, bytes@[i as int], m);
            assert(bytes@.take(i as int + 1).drop_last() =~= bytes@.take(i as int));
            assert(bytes@.take(i as int + 1).last() == bytes@[i as int]);
        }
        let c = bytes[i];
        let cur = current_location_of(&location);
        let ptr = pointer_of(&location);
        if c == 123 {
            if matches!(status, Status::Idle) && matches!(
                cur,
                Location::Empty | Location::ObjectValue | Location::ArrayIndex(_),
            ) {
                if ptr < max_stack_height {
                    location.set(ptr, Location::ObjectKey);
                } else {
                    proof {
                        lemma_run_err_persists(bytes@, pv, m, i as int + 1);
                    }
                    return Result::Err(
                        WitnessGeneratorError::JsonParser("Stack overflow!".to_string()),
                    );
                }
            } else {
                proof {
                    lemma_run_err_persists(bytes@, pv, m, i as int + 1);
                }
                return Result::Err(
                    WitnessGeneratorError::JsonParser(
                        "Start brace in invalid position!".to_string(),
                    ),
                );
            }
        } else if c == 125 {
            if matches!(status, Status::Idle | Status::ParsingPrimitive(_)) && matches!(
                cur,
                Location::ObjectValue,
            ) {
                let ghost lab_pre = label_stack@;
                location.set(ptr - 1, Location::Empty);
                status = Status::Idle;
                let p2 = pointer_of(&location);
                let pair: (Vec<u8>, Vec<u8>) = (Vec::new(), Vec::new());
                proof {
                    lemma_pointer_min(location@, 0, (ptr - 1) as nat);
                    lemma_labels_match_update(
                        lab_pre,
                        g_pre.label_stack,
                        p2 as int,
                        pair,
                        (Seq::<u8>::empty(), Seq::<u8>::empty()),
                    );
                }
                label_stack.set(p2, pair);
            } else {
                proof {
                    lemma_run_err_persists(bytes@, pv, m, i as int + 1);
                }
                return Result::Err(
                    WitnessGeneratorError::JsonParser("End brace in invalid position!".to_string()),
                );
            }
        } else if c == 91 {
            if matches!(status, Status::Idle) && matches!(
                cur,
                Location::Empty | Location::ObjectValue | Location::ArrayIndex(_),
            ) {
                if ptr < max_stack_height {
                    location.set(ptr, Location::ArrayIndex(0));
                } else {
                    proof {
                        lemma_run_err_persists(bytes@, pv, m, i as int + 1);
                    }
                    return Result::Err(
                        WitnessGeneratorError::JsonParser("Stack overflow!".to_string()),
                    );
                }
            } else {
                proof {
                    lemma_run_err_persists(bytes@, pv, m, i as int + 1);
                }
                return Result::Err(
                    WitnessGeneratorError::JsonParser(
                        "Start bracket in invalid position!".to_string(),
                    ),
                );
            }
        } else if c == 93 {
            if matches!(status, Status::Idle) && matches!(cur, Location::ArrayIndex(_)) {
                let ghost lab_pre = label_stack@;
                location.set(ptr - 1, Location::Empty);
                let p2 = pointer_of(&location);
                let pair: (Vec<u8>, Vec<u8>) = (Vec::new(), Vec::new());
                proof {
                    lemma_pointer_min(location@, 0, (ptr - 1) as nat);
                    lemma_labels_match_update(
                        lab_pre,
                        g_pre.label_stack,
                        p2 as int,
                        pair,
                        (Seq::<u8>::empty(), Seq::<u8>::empty()),
                    );
                }
                label_stack.set(p2, pair);
            } else {
                proof {
                    lemma_run_err_persists(bytes@, pv, m, i as int + 1);
                }
                return Result::Err(
                    WitnessGeneratorError::JsonParser(
                        "End bracket in invalid position!".to_string(),
                    ),
                );
            }
        } else if c == 58 {
            if matches!(status, Status::Idle) {
                if matches!(cur, Location::ObjectKey) {
                    location.set(ptr - 1, Location::ObjectValue);
                } else {
                    proof {
                        lemma_run_err_persists(bytes@, pv, m, i as int + 1);
                    }
                    return Result::Err(
                        WitnessGeneratorError::JsonParser("Colon in invalid position!".to_string()),
                    );
                }
            }
            // inside a string or primitive token the colon is ordinary content
        } else if c == 44 {
            if matches!(status, Status::Idle | Status::ParsingPrimitive(_)) {
                match cur {
                    Location::ObjectValue => {
                        let ghost lab_pre = label_stack@;
                        location.set(ptr - 1, Location::ObjectKey);
                        status = Status::Idle;
                        let pair: (Vec<u8>, Vec<u8>) = (Vec::new(), Vec::new());
                        proof {
                            lemma_labels_match_update(
                                lab_pre,
                                g_pre.label_stack,
                                ptr as int - 1,
                                pair,
                                (Seq::<u8>::empty(), Seq::<u8>::empty()),
                            );
                        }
                        label_stack.set(ptr - 1, pair);
                    },
                    Location::ArrayIndex(idx) => {
                        proof {
                            assert(g_pre.location[ptr as int - 1] == Location::ArrayIndex(idx));
                            assert(idx <= i);
                        }
                        let ghost lab_pre = label_stack@;
                        location.set(ptr - 1, Location::ArrayIndex(idx + 1));
                        status = Status::Idle;
                        let pair: (Vec<u8>, Vec<u8>) = (Vec::new(), Vec::new());
                        proof {
                            lemma_labels_match_update(
                                lab_pre,
                                g_pre.label_stack,
                                ptr as int - 1,
                                pair,
                                (Seq::<u8>::empty(), Seq::<u8>::empty()),
                            );
                        }
                        label_stack.set(ptr - 1, pair);
                    },
                    _ => {
                        proof {
                            lemma_run_err_persists(bytes@, pv, m, i as int + 1);
                        }
                        return Result::Err(
                            WitnessGeneratorError::JsonParser(
                                "Comma in invalid position!".to_string(),
                            ),
                        );
                    },
                }
            } else {
                proof {
                    lemma_run_err_persists(bytes@, pv, m, i as int + 1);
                }
                return Result::Err(
                    WitnessGeneratorError::JsonParser("Comma in invalid position!".to_string()),
                );
            }
        } else if c == 34 {
            let st = status;
            status = match st {
                Status::Idle => Status::ParsingString(Vec::new(), false),
                Status::ParsingString(t, escaped) => {
                    if escaped {
                        let mut t2 = t;
                        t2.push(34);
                        Status::ParsingString(t2, false)
                    } else {
                        if matches!(cur, Location::ObjectValue | Location::ArrayIndex(_)) {
                            let ghost lab_pre = label_stack@;
                            let key = dup_bytes(&label_stack[ptr - 1].0);
                            let pair: (Vec<u8>, Vec<u8>) = (key, Vec::new());
                            proof {
                                lemma_labels_match_update(
                                    lab_pre,
                                    g_pre.label_stack,
                                    ptr as int - 1,
                                    pair,
                                    (g_pre.label_stack[ptr as int - 1].0, Seq::<u8>::empty()),
                                );
                            }
                            label_stack.set(ptr - 1, pair);
                        }
                        Status::Idle
                    }
                },
                Status::ParsingPrimitive(_) => {
                    proof {
                        lemma_run_err_persists(bytes@, pv, m, i as int + 1);
                    }
                    return Result::Err(
                        WitnessGeneratorError::JsonParser(
                            "Quote found while parsing number!".to_string(),
                        ),
                    );
                },
            };
        } else if c == 92 {
            let st = status;
            status = match st {
                Status::ParsingString(t, _) => Status::ParsingString(t, true),
                other => other,
            };
        } else if 48 <= c && c <= 57 {
            let st = status;
            status = match st {
                Status::Idle => {
                    let mut t: Vec<u8> = Vec::new();
                    t.push(c);
                    Status::ParsingPrimitive(t)
                },
                Status::ParsingPrimitive(t) => {
                    let mut t2 = t;
                    t2.push(c);
                    Status::ParsingPrimitive(t2)
                },
                Status::ParsingString(t, _) => {
                    let mut t2 = t;
                    t2.push(c);
                    Status::ParsingString(t2, false)
                },
            };
        } else {
            let st = status;
            status = match st {
                Status::ParsingPrimitive(_) => {
                    if ptr >= 1 {
                        let ghost lab_pre = label_stack@;
                        let pair: (Vec<u8>, Vec<u8>) = (Vec::new(), Vec::new());
                        proof {
                            lemma_labels_match_update(
                                lab_pre,
                                g_pre.label_stack,
                                ptr as int - 1,
                                pair,
                                (Seq::<u8>::empty(), Seq::<u8>::empty()),
                            );
                        }
                        label_stack.set(ptr - 1, pair);
                    }
                    Status::Idle
                },
                Status::ParsingString(t, _) => {
                    let mut t2 = t;
                    t2.push(c);
                    Status::ParsingString(t2, false)
                },
                Status::Idle => Status::Idle,
            };
        }
        let ghost g1 = json_structural_step(g_pre, c)->Ok_0;
        proof {
            assert(json_structural_step(g_pre, c) is Ok);
            assert(status@ == g1.status);
            assert(location@ == g1.location);
            assert(labels_match(label_stack@, g1.label_stack));
            lemma_pointer_from_range(g1.location, 0);
        }
        let ptr2 = pointer_of(&location);
        let cur2 = current_location_of(&location);
        match &status {
            Status::Idle => {},
            Status::ParsingString(t, _) => {
                match cur2 {
                    Location::Empty => {},
                    Location::ObjectKey => {
                        let ghost lab_pre = label_stack@;
                        let tok = dup_bytes(t);
                        let pair: (Vec<u8>, Vec<u8>) = (tok, Vec::new());
                        proof {
                            lemma_labels_match_update(
                                lab_pre,
                                g1.label_stack,
                                ptr2 as int - 1,
                                pair,
                                (t@, Seq::<u8>::empty()),
                            );
                        }
                        label_stack.set(ptr2 - 1, pair);
                    },
                    _ => {
                        let ghost lab_pre = label_stack@;
                        let key = dup_bytes(&label_stack[ptr2 - 1].0);
                        let tok = dup_bytes(t);
                        let pair: (Vec<u8>, Vec<u8>) = (key, tok);
                        proof {
                            lemma_labels_match_update(
                                lab_pre,
                                g1.label_stack,
                                ptr2 as int - 1,
                                pair,
                                (g1.label_stack[ptr2 as int - 1].0, t@),
                            );
                        }
                        label_stack.set(ptr2 - 1, pair);
                    },
                }
            },
            Status::ParsingPrimitive(t) => {
                match cur2 {
                    Location::Empty => {},
                    Location::ObjectKey => {
                        let ghost lab_pre = label_stack@;
                        let tok = dup_bytes(t);
                        let pair: (Vec<u8>, Vec<u8>) = (tok, Vec::new());
                        proof {
                            lemma_labels_match_update(
                                lab_pre,
                                g1.label_stack,
                                ptr2 as int - 1,
                                pair,
                                (t@, Seq::<u8>::empty()),
                            );
                        }
                        label_stack.set(ptr2 - 1, pair);
                    },
                    _ => {
                        let ghost lab_pre = label_stack@;
                        let key = dup_bytes(&label_stack[ptr2 - 1].0);
                        let tok = dup_bytes(t);
                        let pair: (Vec<u8>, Vec<u8>) = (key, tok);
                        proof {
                            lemma_labels_match_update(
                                lab_pre,
                                g1.label_stack,
                                ptr2 as int - 1,
                                pair,
                                (g1.label_stack[ptr2 as int - 1].0, t@),
                            );
                        }
                        label_stack.set(ptr2 - 1, pair);
                    },
                }
            },
        }
        let ghost g2 = json_step(g_pre, c)->Ok_0;
        proof {
            assert(json_step(g_pre, c) is Ok);
            assert(status@ == g2.status);
            assert(location@ == g2.location);
            assert(labels_match(label_stack@, g2.label_stack));
        }
        let snap_status = dup_status(&status);
        let snap_location = dup_locations(&location);
        let snap_labels = dup_labels(&label_stack);
        let snap = JsonMachine {
            polynomial_input: polynomial_input.dup(),
            status: snap_status,
            location: snap_location,
            label_stack: snap_labels,
        };
        proof {
            assert forall|q: int| 0 <= q < snap.label_stack@.len() implies (#[trigger] snap
                .label_stack@[q]).0@ == g2.label_stack[q].0 && snap.label_stack@[q].1@
                == g2.label_stack[q].1 by {
                assert(label_stack@[q].0@ == g2.label_stack[q].0 && label_stack@[q].1@
                    == g2.label_stack[q].1);
            }
            assert(json_machine_matches(snap, g2));
            assert(json_machine_inv(snap));
            assert(json_run(bytes@.take(i as int + 1), pv, m) is Ok);
            assert(json_run(bytes@.take(i as int + 1), pv, m)->Ok_0 == g2);
            assert(g2.polynomial_input == pv);
        }
        output.push(snap);
        proof {
            assert forall|j: int| 0 <= j < i + 1 implies json_machine_inv(#[trigger] output@[j])
                && json_machine_matches(output@[j], json_run(bytes@.take(j + 1), pv, m)->Ok_0) by {
                if j == i {
                    assert(output@[j] == snap);
                }
            }
        }
        i = i + 1;
    }
    proof {
        assert(bytes@.take(n as int) =~= bytes@);
    }
    Result::Ok(output)
}

/// The two-field encoding of a location: `Empty` is (0,0), `ObjectKey`
/// (1,0), `ObjectValue` (1,1), `ArrayIndex(i)` (2,i).
pub open spec fn loc_encode_s(l: Location) -> (nat, nat) {
    match l {
        Location::Empty => (0, 0),
        Location::ObjectKey => (1, 0),
        Location::ObjectValue => (1, 1),
        Location::ArrayIndex(i) => (2, i as nat),
    }
}

/// The label stack of a snapshot, as sequences.
pub open spec fn labels_view(l: Seq<(Vec<u8>, Vec<u8>)>) -> Seq<(Seq<u8>, Seq<u8>)> {
    l.map_values(|q: (Vec<u8>, Vec<u8>)| (q.0@, q.1@))
}

/// The model a snapshot stands for.
pub open spec fn json_machine_model(m: JsonMachine) -> JsonModel {
    JsonModel {
        polynomial_input: m.polynomial_input@,
        status: m.status@,
        location: m.location@,
        label_stack: labels_view(m.label_stack@),
    }
}

/// The monomial signal: `p^(len-1)` of the token being accumulated into the
/// current label, or zero when idle or the label is empty.
pub open spec fn raw_monomial_s(g: JsonModel) -> nat {
    let p = pointer_s(g.location);
    let in_token = g.status is InString || g.status is InPrimitive;
    match current_location_s(g.location) {
        Location::ObjectKey => {
            if in_token {
                let key = g.label_stack[p as int - 1].0;
                if key.len() == 0 {
                    0
                } else {
                    fe_pow_s(g.polynomial_input, (key.len() - 1) as nat)
                }
            } else {
                0
            }
        },
        Location::ObjectValue => raw_monomial_value_s(g, p),
        Location::ArrayIndex(_) => raw_monomial_value_s(g, p),
        Location::Empty => 0,
    }
}

/// The monomial signal for the value half of the current label.
pub open spec fn raw_monomial_value_s(g: JsonModel, p: nat) -> nat {
    let in_token = g.status is InString || g.status is InPrimitive;
    if in_token {
        let value = g.label_stack[p as int - 1].1;
        if value.len() == 0 {
            0
        } else {
            fe_pow_s(g.polynomial_input, (value.len() - 1) as nat)
        }
    } else {
        0
    }
}

/// The circuit-facing projection of a JSON snapshot.
#[derive(Debug, Clone)]
pub struct RawJsonMachine {
    /// The field element driving every digest.
    pub polynomial_input: Fe,
    /// Per depth, the two-field location encoding.
    pub stack: Vec<(Fe, Fe)>,
    /// Per depth, the polynomial digests of the key and value labels.
    pub tree_hash: Vec<(Fe, Fe)>,
    /// One while inside a quoted string.
    pub parsing_string: Fe,
    /// One while inside a number, boolean or null token.
    pub parsing_primitive: Fe,
    /// One while the next string byte is escaped.
    pub escaped: Fe,
    /// The monomial driving in-progress digest accumulation.
    pub monomial: Fe,
}

/// All signals are canonical field elements.
pub open spec fn raw_json_inv(r: RawJsonMachine) -> bool {
    &&& r.polynomial_input.wf()
    &&& forall|i: int|
        0 <= i < r.stack@.len() ==> (#[trigger] r.stack@[i]).0.wf() && r.stack@[i].1.wf()
    &&& forall|i: int|
        0 <= i < r.tree_hash@.len() ==> (#[trigger] r.tree_hash@[i]).0.wf()
            && r.tree_hash@[i].1.wf()
    &&& r.parsing_string.wf()
    &&& r.parsing_primitive.wf()
    &&& r.escaped.wf()
    &&& r.monomial.wf()
}

/// The stack or tree-hash pairs, as value pairs.
pub open spec fn fe_pairs_view(v: Seq<(Fe, Fe)>) -> Seq<(nat, nat)> {
    v.map_values(|q: (Fe, Fe)| (q.0@, q.1@))
}

/// The folding of the stack and key-hash triples into a single digest:
/// `sum_i stack[i].0 p^(3i) + stack[i].1 p^(3i+1) + tree_hash[i].0 p^(3i+2)`,
/// computed with a running accumulator and monomial.  The value slot of the
/// tree hash is deliberately left out.
pub open spec fn compress_from(
    stack: Seq<(nat, nat)>,
    th: Seq<(nat, nat)>,
    p: nat,
    i: nat,
    acc: nat,
    mon: nat,
) -> nat
    decreases stack.len() - i,
{
    if i >= stack.len() {
        acc
    } else {
        let a1 = fe_add_s(acc, fe_mul_s(stack[i as int].0, mon));
        let m1 = fe_mul_s(mon, p);
        let a2 = fe_add_s(a1, fe_mul_s(stack[i as int].1, m1));
        let m2 = fe_mul_s(m1, p);
        let a3 = fe_add_s(a2, fe_mul_s(th[i as int].0, m2));
        let m3 = fe_mul_s(m2, p);
        compress_from(stack, th, p, i + 1, a3, m3)
    }
}

/// The compressed tree hash of a stack and tree-hash pair under `p`.
pub open spec fn compress_s(stack: Seq<(nat, nat)>, th: Seq<(nat, nat)>, p: nat) -> nat {
    compress_from(stack, th, p, 0, 0, 1)
}

/// The stack encoding chosen for position `i` of a key path.
pub open spec fn chosen_stack_s(keys: Seq<JsonKey>, i: int) -> (nat, nat) {
    if 0 <= i < keys.len() {
        match keys[i] {
            JsonKey::String(_) => (1, 1),
            JsonKey::Num(k) => (2, k as nat),
        }
    } else {
        (0, 0)
    }
}

/// The tree-hash pair chosen for position `i` of a key path: the key's
/// polynomial digest for a string, zero for an array index.
pub open spec fn chosen_tree_s(keys: Seq<JsonKey>, p: nat, i: int) -> (nat, nat) {
    if 0 <= i < keys.len() {
        match keys[i] {
            JsonKey::String(s) => (
                crate::poly_digest(vstd::utf8::encode_utf8(s@), p, 0),
                0,
            ),
            JsonKey::Num(_) => (0, 0),
        }
    } else {
        (0, 0)
    }
}

impl JsonMachine {
    /// A fresh machine: idle, polynomial input one, all slots unused.
    pub fn new(max_stack_height: usize) -> (r: JsonMachine)
        ensures
            json_machine_inv(r),
            r.polynomial_input@ == 1,
            r.status@ is Idle,
            r.location@.len() == max_stack_height,
            r.label_stack@.len() == max_stack_height,
            forall|i: int| 0 <= i < max_stack_height ==> r.location@[i] == Location::Empty,
            forall|i: int|
                0 <= i < max_stack_height ==> (#[trigger] r.label_stack@[i]).0@
                    == Seq::<u8>::empty() && r.label_stack@[i].1@ == Seq::<u8>::empty(),
    {
        let mut location: Vec<Location> = Vec::new();
        let mut label_stack: Vec<(Vec<u8>, Vec<u8>)> = Vec::new();
        let mut k: usize = 0;
        while k < max_stack_height
            invariant
                k <= max_stack_height,
                location@.len() == k,
                label_stack@.len() == k,
                forall|i: int| 0 <= i < k ==> location@[i] == Location::Empty,
                forall|i: int|
                    0 <= i < k ==> (#[trigger] label_stack@[i]).0@ == Seq::<u8>::empty()
                        && label_stack@[i].1@ == Seq::<u8>::empty(),
            decreases max_stack_height - k,
        {
            location.push(Location::Empty);
            label_stack.push((Vec::new(), Vec::new()));
            k = k + 1;
        }
        JsonMachine {
            polynomial_input: crate::field::fe_one(),
            status: Status::Idle,
            location,
            label_stack,
        }
    }

    /// Index of the first unused stack slot: the effective depth.
    pub fn pointer(&self) -> (r: usize)
        ensures
            r as nat == pointer_s(self.location@),
            r <= self.location@.len(),
    {
        pointer_of(&self.location)
    }

    /// The location the machine is currently inside of.
    pub fn current_location(&self) -> (r: Location)
        ensures
            r == current_location_s(self.location@),
    {
        current_location_of(&self.location)
    }
}

impl RawJsonMachine {
    /// The all-zero raw state.
    pub fn initial_state(max_stack_height: usize) -> (r: RawJsonMachine)
        ensures
            raw_json_inv(r),
            r.stack@.len() == max_stack_height,
            r.tree_hash@.len() == max_stack_height,
            r.polynomial_input@ == 0,
            forall|i: int|
                0 <= i < max_stack_height ==> (#[trigger] r.stack@[i]).0@ == 0 && r.stack@[i].1@
                    == 0,
            forall|i: int|
                0 <= i < max_stack_height ==> (#[trigger] r.tree_hash@[i]).0@ == 0
                    && r.tree_hash@[i].1@ == 0,
            r.parsing_string@ == 0,
            r.parsing_primitive@ == 0,
            r.escaped@ == 0,
            r.monomial@ == 0,
    {
        let mut stack: Vec<(Fe, Fe)> = Vec::new();
        let mut tree_hash: Vec<(Fe, Fe)> = Vec::new();
        let mut k: usize = 0;
        while k < max_stack_height
            invariant
                k <= max_stack_height,
                stack@.len() == k,
                tree_hash@.len() == k,
                forall|i: int|
                    0 <= i < k ==> (#[trigger] stack@[i]).0@ == 0 && stack@[i].1@ == 0
                        && stack@[i].0.wf() && stack@[i].1.wf(),
                forall|i: int|
                    0 <= i < k ==> (#[trigger] tree_hash@[i]).0@ == 0 && tree_hash@[i].1@ == 0
                        && tree_hash@[i].0.wf() && tree_hash@[i].1.wf(),
            decreases max_stack_height - k,
        {
            stack.push((crate::field::fe_zero(), crate::field::fe_zero()));
            tree_hash.push((crate::field::fe_zero(), crate::field::fe_zero()));
            k = k + 1;
        }
        RawJsonMachine {
            polynomial_input: crate::field::fe_zero(),
            stack,
            tree_hash,
            parsing_string: crate::field::fe_zero(),
            parsing_primitive: crate::field::fe_zero(),
            escaped: crate::field::fe_zero(),
            monomial: crate::field::fe_zero(),
        }
    }

    /// Expands a machine snapshot into the raw signals: each location is
    /// two-field encoded, each label pair is digested under the machine's
    /// polynomial input, and the status becomes the three flags and the
    /// monomial.
    pub fn from_machine(value: &JsonMachine) -> (r: RawJsonMachine)
        requires
            json_machine_inv(*value),
            value.location@.len() == value.label_stack@.len(),
        ensures
            raw_json_inv(r),
            r.polynomial_input@ == value.polynomial_input@,
            r.stack@.len() == value.location@.len(),
            r.tree_hash@.len() == value.location@.len(),
            forall|i: int|
                0 <= i < value.location@.len() ==> ((#[trigger] r.stack@[i]).0@,
                r.stack@[i].1@) == loc_encode_s(value.location@[i]),
            forall|i: int|
                0 <= i < value.location@.len() ==> ((#[trigger] r.tree_hash@[i]).0@,
                r.tree_hash@[i].1@) == (
                    crate::poly_digest(value.label_stack@[i].0@, value.polynomial_input@, 0),
                    crate::poly_digest(value.label_stack@[i].1@, value.polynomial_input@, 0),
                ),
            r.parsing_string@ == if value.status@ is InString { 1nat } else { 0nat },
            r.parsing_primitive@ == if value.status@ is InPrimitive { 1nat } else { 0nat },
            r.escaped@ == match value.status@ {
                StatusModel::InString(_, e) => if e { 1nat } else { 0nat },
                _ => 0nat,
            },
            r.monomial@ == raw_monomial_s(json_machine_model(*value)),
    {
        let n = value.location.len();
        let mut stack: Vec<(Fe, Fe)> = Vec::new();
        let mut tree_hash: Vec<(Fe, Fe)> = Vec::new();
        let mut k: usize = 0;
        while k < n
            invariant
                n == value.location@.len(),
                value.label_stack@.len() == n,
                value.polynomial_input.wf(),
                k <= n,
                stack@.len() == k,
                tree_hash@.len() == k,
                forall|i: int|
                    0 <= i < k ==> (#[trigger] stack@[i]).0.wf() && stack@[i].1.wf()
                        && (stack@[i].0@, stack@[i].1@) == loc_encode_s(value.location@[i]),
                forall|i: int|
                    0 <= i < k ==> (#[trigger] tree_hash@[i]).0.wf() && tree_hash@[i].1.wf()
                        && (tree_hash@[i].0@, tree_hash@[i].1@) == (
                        crate::poly_digest(value.label_stack@[i].0@, value.polynomial_input@, 0),
                        crate::poly_digest(value.label_stack@[i].1@, value.polynomial_input@, 0),
                    ),
            decreases n - k,
        {
            let pair: (Fe, Fe) = match value.location[k] {
                Location::Empty => (crate::field::fe_zero(), crate::field::fe_zero()),
                Location::ObjectKey => (crate::field::fe_one(), crate::field::fe_zero()),
                Location::ObjectValue => (crate::field::fe_one(), crate::field::fe_one()),
                Location::ArrayIndex(i) => (
                    crate::field::fe_from_u64(2),
                    crate::field::fe_from_u64(i as u64),
                ),
            };
            stack.push(pair);
            let kd = crate::polynomial_digest(
                value.label_stack[k].0.as_slice(),
                &value.polynomial_input,
                0,
            );
            let vd = crate::polynomial_digest(
                value.label_stack[k].1.as_slice(),
                &value.polynomial_input,
                0,
            );
            tree_hash.push((kd, vd));
            k = k + 1;
        }
        let parsing_string = match &value.status {
            Status::ParsingString(_, _) => crate::field::fe_one(),
            _ => crate::field::fe_zero(),
        };
        let parsing_primitive = match &value.status {
            Status::ParsingPrimitive(_) => crate::field::fe_one(),
            _ => crate::field::fe_zero(),
        };
        let escaped = match &value.status {
            Status::ParsingString(_, true) => crate::field::fe_one(),
            _ => crate::field::fe_zero(),
        };
        let ptr = pointer_of(&value.location);
        let cur = current_location_of(&value.location);
        let in_token = match &value.status {
            Status::Idle => false,
            _ => true,
        };
        let monomial: Fe = match cur {
            Location::Empty => crate::field::fe_zero(),
            Location::ObjectKey => {
                if in_token {
                    let len = value.label_stack[ptr - 1].0.len();
                    if len == 0 {
                        crate::field::fe_zero()
                    } else {
                        crate::field::fe_pow(&value.polynomial_input, (len - 1) as u64)
                    }
                } else {
                    crate::field::fe_zero()
                }
            },
            _ => {
                if in_token {
                    let len = value.label_stack[ptr - 1].1.len();
                    if len == 0 {
                        crate::field::fe_zero()
                    } else {
                        crate::field::fe_pow(&value.polynomial_input, (len - 1) as u64)
                    }
                } else {
                    crate::field::fe_zero()
                }
            },
        };
        proof {
            let g = json_machine_model(*value);
            assert(g.location == value.location@);
            let p = pointer_s(value.location@);
            if p >= 1 {
                assert(labels_view(value.label_stack@)[p as int - 1] == (
                    value.label_stack@[p as int - 1].0@,
                    value.label_stack@[p as int - 1].1@,
                ));
            }
        }
        RawJsonMachine {
            polynomial_input: value.polynomial_input.dup(),
            stack,
            tree_hash,
            parsing_string,
            parsing_primitive,
            escaped,
            monomial,
        }
    }

    /// Folds the stack and key hashes into the single compressed digest.
    pub fn compress_tree_hash(&self) -> (r: Fe)
        requires
            raw_json_inv(*self),
            self.stack@.len() == self.tree_hash@.len(),
        ensures
            r.wf(),
            r@ == compress_s(
                fe_pairs_view(self.stack@),
                fe_pairs_view(self.tree_hash@),
                self.polynomial_input@,
            ),
    {
        let mut accumulated = crate::field::fe_zero();
        let mut monomial = crate::field::fe_one();
        let n = self.stack.len();
        let mut idx: usize = 0;
        while idx < n
            invariant
                raw_json_inv(*self),
                n == self.stack@.len(),
                self.tree_hash@.len() == n,
                idx <= n,
                accumulated.wf(),
                monomial.wf(),
                compress_s(
                    fe_pairs_view(self.stack@),
                    fe_pairs_view(self.tree_hash@),
                    self.polynomial_input@,
                ) == compress_from(
                    fe_pairs_view(self.stack@),
                    fe_pairs_view(self.tree_hash@),
                    self.polynomial_input@,
                    idx as nat,
                    accumulated@,
                    monomial@,
                ),
            decreases n - idx,
        {
            let t0 = crate::field::fe_mul(&self.stack[idx].0, &monomial);
            accumulated = crate::field::fe_add(&accumulated, &t0);
            monomial = crate::field::fe_mul(&monomial, &self.polynomial_input);
            let t1 = crate::field::fe_mul(&self.stack[idx].1, &monomial);
            accumulated = crate::field::fe_add(&accumulated, &t1);
            monomial = crate::field::fe_mul(&monomial, &self.polynomial_input);
            let t2 = crate::field::fe_mul(&self.tree_hash[idx].0, &monomial);
            accumulated = crate::field::fe_add(&accumulated, &t2);
            monomial = crate::field::fe_mul(&monomial, &self.polynomial_input);
            idx = idx + 1;
        }
        accumulated
    }

    /// Builds the raw machine whose stack and tree hash announce a chosen
    /// JSON path: `(1,1)` with the key digest for object keys, `(2,i)` for
    /// array indices, zeros past the path's length.  A path longer than the
    /// stack bound is a `JsonKeyError`.
    pub fn from_chosen_sequence_and_input(
        polynomial_input: &Fe,
        key_sequence: &Vec<JsonKey>,
        max_stack_height: usize,
    ) -> (r: Result<RawJsonMachine, WitnessGeneratorError>)
        requires
            polynomial_input.wf(),
        ensures
            r is Ok <==> key_sequence@.len() <= max_stack_height,
            r is Err ==> r->Err_0 is JsonKeyError,
            r matches Result::Ok(raw) ==> {
                &&& raw_json_inv(raw)
                &&& raw.polynomial_input@ == polynomial_input@
                &&& raw.stack@.len() == max_stack_height
                &&& raw.tree_hash@.len() == max_stack_height
                &&& forall|i: int|
                    0 <= i < max_stack_height ==> ((#[trigger] raw.stack@[i]).0@,
                    raw.stack@[i].1@) == chosen_stack_s(key_sequence@, i)
                &&& forall|i: int|
                    0 <= i < max_stack_height ==> ((#[trigger] raw.tree_hash@[i]).0@,
                    raw.tree_hash@[i].1@) == chosen_tree_s(key_sequence@, polynomial_input@, i)
                &&& raw.parsing_string@ == 0
                &&& raw.parsing_primitive@ == 0
                &&& raw.escaped@ == 0
                &&& raw.monomial@ == 0
            },
    {
        if key_sequence.len() > max_stack_height {
            return Result::Err(
                WitnessGeneratorError::JsonKeyError("Key sequence too long".to_string()),
            );
        }
        let mut stack: Vec<(Fe, Fe)> = Vec::new();
        let mut tree_hash: Vec<(Fe, Fe)> = Vec::new();
        let mut idx: usize = 0;
        while idx < max_stack_height
            invariant
                polynomial_input.wf(),
                key_sequence@.len() <= max_stack_height,
                idx <= max_stack_height,
                stack@.len() == idx,
                tree_hash@.len() == idx,
                forall|i: int|
                    0 <= i < idx ==> (#[trigger] stack@[i]).0.wf() && stack@[i].1.wf()
                        && (stack@[i].0@, stack@[i].1@) == chosen_stack_s(key_sequence@, i),
                forall|i: int|
                    0 <= i < idx ==> (#[trigger] tree_hash@[i]).0.wf() && tree_hash@[i].1.wf()
                        && (tree_hash@[i].0@, tree_hash@[i].1@) == chosen_tree_s(
                        key_sequence@,
                        polynomial_input@,
                        i,
                    ),
            decreases max_stack_height - idx,
        {
            if idx < key_sequence.len() {
                match &key_sequence[idx] {
                    JsonKey::String(string) => {
                        stack.push((crate::field::fe_one(), crate::field::fe_one()));
                        let string_hash = crate::polynomial_digest(
                            string.as_str().as_bytes(),
                            polynomial_input,
                            0,
                        );
                        tree_hash.push((string_hash, crate::field::fe_zero()));
                    },
                    JsonKey::Num(array_idx) => {
                        stack.push(
                            (crate::field::fe_from_u64(2), crate::field::fe_from_u64(
                                *array_idx as u64,
                            )),
                        );
                        tree_hash.push((crate::field::fe_zero(), crate::field::fe_zero()));
                    },
                }
            } else {
                stack.push((crate::field::fe_zero(), crate::field::fe_zero()));
                tree_hash.push((crate::field::fe_zero(), crate::field::fe_zero()));
            }
            idx = idx + 1;
        }
        Result::Ok(
            RawJsonMachine {
                polynomial_input: polynomial_input.dup(),
                stack,
                tree_hash,
                parsing_string: crate::field::fe_zero(),
                parsing_primitive: crate::field::fe_zero(),
                escaped: crate::field::fe_zero(),
                monomial: crate::field::fe_zero(),
            },
        )
    }

    /// The raw signals in their circuit order: the stack pairs, the
    /// tree-hash pairs, then monomial, parsing-string, parsing-primitive and
    /// escaped flags.
    #[verifier::rlimit(50)]
    pub fn flatten(&self) -> (r: Vec<Fe>)
        requires
            self.stack@.len() == self.tree_hash@.len(),
            4 * self.stack@.len() + 4 <= usize::MAX,
        ensures
            r@.len() == 4 * self.stack@.len() + 4,
            forall|i: int|
                0 <= i < self.stack@.len() ==> r@[2 * i]@ == (#[trigger] self.stack@[i]).0@
                    && r@[2 * i + 1]@ == self.stack@[i].1@,
            forall|i: int|
                0 <= i < self.stack@.len() ==> r@[2 * self.stack@.len() + 2 * i]@ == (
                #[trigger] self.tree_hash@[i]).0@ && r@[2 * self.stack@.len() + 2 * i + 1]@
                    == self.tree_hash@[i].1@,
            r@[4 * self.stack@.len() as int]@ == self.monomial@,
            r@[4 * self.stack@.len() as int + 1]@ == self.parsing_string@,
            r@[4 * self.stack@.len() as int + 2]@ == self.parsing_primitive@,
            r@[4 * self.stack@.len() as int + 3]@ == self.escaped@,
    {
        let n = self.stack.len();
        let mut r: Vec<Fe> = Vec::new();
        let mut i: usize = 0;
        while i < n
            invariant
                n == self.stack@.len(),
                self.tree_hash@.len() == n,
                4 * n + 4 <= usize::MAX,
                i <= n,
                r@.len() == 2 * i,
                forall|j: int|
                    0 <= j < i ==> r@[2 * j]@ == (#[trigger] self.stack@[j]).0@ && r@[2 * j + 1]@
                        == self.stack@[j].1@,
            decreases n - i,
        {
            let ghost pre = r@;
            r.push(self.stack[i].0.dup());
            r.push(self.stack[i].1.dup());
            proof {
                assert forall|j: int| 0 <= j < pre.len() implies r@[j] == pre[j] by {
                    assert(r@[j] == pre.push(r@[pre.len() as int]).push(
                        r@[pre.len() as int + 1],
                    )[j]);
                }
            }
            i = i + 1;
        }
        let mut k: usize = 0;
        while k < n
            invariant
                n == self.stack@.len(),
                self.tree_hash@.len() == n,
                4 * n + 4 <= usize::MAX,
                k <= n,
                r@.len() == 2 * n + 2 * k,
                forall|j: int|
                    0 <= j < n ==> r@[2 * j]@ == (#[trigger] self.stack@[j]).0@ && r@[2 * j + 1]@
                        == self.stack@[j].1@,
                forall|j: int|
                    0 <= j < k ==> r@[2 * n + 2 * j]@ == (#[trigger] self.tree_hash@[j]).0@
                        && r@[2 * n + 2 * j + 1]@ == self.tree_hash@[j].1@,
            decreases n - k,
        {
            let ghost pre = r@;
            r.push(self.tree_hash[k].0.dup());
            r.push(self.tree_hash[k].1.dup());
            proof {
                assert forall|j: int| 0 <= j < pre.len() implies r@[j] == pre[j] by {
                    assert(r@[j] == pre.push(r@[pre.len() as int]).push(
                        r@[pre.len() as int + 1],
                    )[j]);
                }
                assert(r@[pre.len() as int]@ == self.tree_hash@[k as int].0@);
                assert(r@[pre.len() as int + 1]@ == self.tree_hash@[k as int].1@);
                assert forall|j: int|
                    0 <= j < k + 1 implies r@[2 * n + 2 * j]@ == (#[trigger] self.tree_hash@[j]).0@
                    && r@[2 * n + 2 * j + 1]@ == self.tree_hash@[j].1@ by {
                    if j == k as int {
                        assert(2 * n + 2 * j == pre.len());
                    } else {
                        assert(r@[2 * n + 2 * j] == pre[2 * n + 2 * j]);
                        assert(r@[2 * n + 2 * j + 1] == pre[2 * n + 2 * j + 1]);
                    }
                }
                assert forall|j: int|
                    0 <= j < n implies r@[2 * j]@ == (#[trigger] self.stack@[j]).0@
                    && r@[2 * j + 1]@ == self.stack@[j].1@ by {
                    assert(r@[2 * j] == pre[2 * j]);
                    assert(r@[2 * j + 1] == pre[2 * j + 1]);
                }
            }
            k = k + 1;
        }
        let ghost pre = r@;
        r.push(self.monomial.dup());
        r.push(self.parsing_string.dup());
        r.push(self.parsing_primitive.dup());
        r.push(self.escaped.dup());
        proof {
            assert forall|j: int| 0 <= j < pre.len() implies r@[j] == pre[j] by {
                assert(r@[j] == pre.push(r@[pre.len() as int]).push(r@[pre.len() as int + 1]).push(
                    r@[pre.len() as int + 2],
                ).push(r@[pre.len() as int + 3])[j]);
            }
            assert(r@[pre.len() as int]@ == self.monomial@);
            assert(r@[pre.len() as int + 1]@ == self.parsing_string@);
            assert(r@[pre.len() as int + 2]@ == self.parsing_primitive@);
            assert(r@[pre.len() as int + 3]@ == self.escaped@);
            assert forall|j: int|
                0 <= j < n implies r@[2 * j]@ == (#[trigger] self.stack@[j]).0@ && r@[2 * j + 1]@
                == self.stack@[j].1@ by {
                assert(r@[2 * j] == pre[2 * j]);
                assert(r@[2 * j + 1] == pre[2 * j + 1]);
            }
            assert forall|j: int|
                0 <= j < self.stack@.len() implies r@[2 * self.stack@.len() + 2 * j]@ == (
                #[trigger] self.tree_hash@[j]).0@ && r@[2 * self.stack@.len() + 2 * j + 1]@
                == self.tree_hash@[j].1@ by {
                assert(2 * self.stack@.len() + 2 * j == 2 * n + 2 * j);
                assert(r@[2 * n + 2 * j] == pre[2 * n + 2 * j]);
                assert(r@[2 * n + 2 * j + 1] == pre[2 * n + 2 * j + 1]);
                assert(pre[2 * n + 2 * j]@ == self.tree_hash@[j].0@);
                assert(pre[2 * n + 2 * j + 1]@ == self.tree_hash@[j].1@);
            }
        }
        r
    }
}

/// What the conventional JSON decoder decides about a byte string: whether
/// it is a well-formed JSON document.
pub uninterp spec fn json_doc_ok(doc: Seq<u8>) -> bool;

/// The canonical serialization of the member a string key selects in a JSON
/// document, if the document parses and the key is present on an object.
pub uninterp spec fn json_subdoc_key(doc: Seq<u8>, key: Seq<char>) -> Option<Seq<u8>>;

/// The canonical serialization of the element an index selects in a JSON
/// document, if the document parses and the index is within an array.
pub uninterp spec fn json_subdoc_idx(doc: Seq<u8>, idx: int) -> Option<Seq<u8>>;

/// The canonical byte rendering of a JSON document that is a primitive
/// (string content as-is, numbers and booleans and null as their canonical
/// strings); nothing for objects and arrays or unparsable bytes.
pub uninterp spec fn json_primitive_bytes(doc: Seq<u8>) -> Option<Seq<u8>>;

/// Relies on `serde_json::from_slice::<Value>`: whether the bytes parse as
/// JSON depends on the bytes alone; the message is the decoder's.
#[verifier::external_body]
fn json_parse_check(doc: &Vec<u8>) -> (r: Option<String>)
    ensures
        (r is None) == json_doc_ok(doc@),
{
    match serde_json::from_slice::<serde_json::Value>(doc.as_slice()) {
        Ok(_) => None,
        Err(e) => Some(e.to_string()),
    }
}

/// Relies on `serde_json::from_slice`, `Value::get_mut` with a string key,
/// and `serde_json::to_vec`: the member selected by an object key, as its
/// canonical serialization, depends on the document and key alone.
#[verifier::external_body]
fn json_take_key(doc: &Vec<u8>, key: &String) -> (r: Option<Vec<u8>>)
    ensures
        match r {
            Option::Some(sub) => json_subdoc_key(doc@, key@) == Option::Some(sub@),
            Option::None => json_subdoc_key(doc@, key@) is None,
        },
{
    let mut v: serde_json::Value = serde_json::from_slice(doc.as_slice()).ok()?;
    let sub = v.get_mut(key.as_str())?.take();
    serde_json::to_vec(&sub).ok()
}

/// Relies on `serde_json::from_slice`, `Value::get_mut` with an index, and
/// `serde_json::to_vec`: the element selected by an array index, as its
/// canonical serialization, depends on the document and index alone.
#[verifier::external_body]
fn json_take_index(doc: &Vec<u8>, idx: usize) -> (r: Option<Vec<u8>>)
    ensures
        match r {
            Option::Some(sub) => json_subdoc_idx(doc@, idx as int) == Option::Some(sub@),
            Option::None => json_subdoc_idx(doc@, idx as int) is None,
        },
{
    let mut v: serde_json::Value = serde_json::from_slice(doc.as_slice()).ok()?;
    let sub = v.get_mut(idx)?.take();
    serde_json::to_vec(&sub).ok()
}

/// Relies on `serde_json::from_slice` and `serde_json`'s canonical
/// renderings: the primitive content of a JSON document depends on its
/// bytes alone.
#[verifier::external_body]
fn json_terminal(doc: &Vec<u8>) -> (r: Option<Vec<u8>>)
    ensures
        match r {
            Option::Some(v) => json_primitive_bytes(doc@) == Option::Some(v@),
            Option::None => json_primitive_bytes(doc@) is None,
        },
{
    let v: serde_json::Value = serde_json::from_slice(doc.as_slice()).ok()?;
    match v {
        serde_json::Value::Number(n) => Some(n.to_string().into_bytes()),
        serde_json::Value::String(s) => Some(s.into_bytes()),
        serde_json::Value::Bool(b) => Some(b.to_string().into_bytes()),
        serde_json::Value::Null => Some("null".to_string().into_bytes()),
        _ => None,
    }
}

/// Follows a key path through a JSON document, member by member, and ends
/// at the canonical bytes of the terminal primitive; nothing as soon as a
/// key misses or the terminal is no primitive.
pub open spec fn json_walk(doc: Seq<u8>, keys: Seq<JsonKey>) -> Option<Seq<u8>>
    decreases keys.len(),
{
    if keys.len() == 0 {
        json_primitive_bytes(doc)
    } else {
        let step = match keys[0] {
            JsonKey::String(s) => json_subdoc_key(doc, s@),
            JsonKey::Num(i) => json_subdoc_idx(doc, i as int),
        };
        match step {
            Option::Some(sub) => json_walk(sub, keys.drop_first()),
            Option::None => Option::None,
        }
    }
}

/// Walks a conventional JSON document along `keys` and returns the terminal
/// primitive's canonical bytes.  The document must parse (`SerdeJson`
/// otherwise); a missing key, an index out of bounds, or a terminal value
/// that is an object or array is a `JsonKeyError`.
pub fn json_value_digest(plaintext: &Vec<u8>, keys: &Vec<JsonKey>, max_stack_height: usize) -> (r:
    Result<Vec<u8>, WitnessGeneratorError>)
    requires
        keys@.len() > 0,
        keys@.len() <= max_stack_height,
        forall|i: int| 0 <= i < plaintext@.len() ==> 0 < #[trigger] plaintext@[i] < 128,
    ensures
        !json_doc_ok(plaintext@) ==> r is Err && r->Err_0 is SerdeJson,
        json_doc_ok(plaintext@) ==> match json_walk(plaintext@, keys@) {
            Option::Some(v) => r is Ok && r->Ok_0@ == v,
            Option::None => r is Err && r->Err_0 is JsonKeyError,
        },
{
    match json_parse_check(plaintext) {
        Option::Some(msg) => {
            return Result::Err(WitnessGeneratorError::SerdeJson(msg));
        },
        Option::None => {},
    }
    let mut doc = dup_bytes(plaintext);
    let n = keys.len();
    proof {
        assert(keys@.skip(0) =~= keys@);
    }
    let mut i: usize = 0;
    while i < n
        invariant
            n == keys@.len(),
            i <= n,
            json_doc_ok(plaintext@),
            json_walk(plaintext@, keys@) == json_walk(doc@, keys@.skip(i as int)),
        decreases n - i,
    {
        proof {
            assert(keys@.skip(i as int)[0] == keys@[i as int]);
            assert(keys@.skip(i as int).drop_first() =~= keys@.skip(i as int + 1));
        }
        let step: Option<Vec<u8>> = match &keys[i] {
            JsonKey::String(s) => json_take_key(&doc, s),
            JsonKey::Num(ix) => json_take_index(&doc, *ix),
        };
        match step {
            Option::Some(sub) => {
                doc = sub;
            },
            Option::None => {
                let msg: String = match &keys[i] {
                    JsonKey::String(s) => s.as_str().to_owned(),
                    JsonKey::Num(ix) => {
                        let fe = crate::field::fe_from_u64(*ix as u64);
                        crate::field::field_element_to_base10_string(&fe)
                    },
                };
                return Result::Err(WitnessGeneratorError::JsonKeyError(msg));
            },
        }
        i = i + 1;
    }
    proof {
        assert(keys@.skip(n as int) =~= Seq::<JsonKey>::empty());
    }
    match json_terminal(&doc) {
        Option::Some(v) => Result::Ok(v),
        Option::None => Result::Err(
            WitnessGeneratorError::JsonKeyError(
                "Value is not a string or other primitive type".to_string(),
            ),
        ),
    }
}

/// Slots below the pointer are in use.
pub proof fn lemma_pointer_first(loc: Seq<Location>, i: nat, j: nat)
    requires
        i <= j < pointer_from(loc, i),
    ensures
        !(loc[j as int] is Empty),
    decreases loc.len() - i,
{
    if i >= loc.len() {
    } else if loc[i as int] is Empty {
    } else if i < j {
        lemma_pointer_first(loc, i + 1, j);
    }
}

/// The slot at the pointer, when below the bound, is unused.
pub proof fn lemma_pointer_at(loc: Seq<Location>, i: nat)
    requires
        pointer_from(loc, i) < loc.len(),
        i <= loc.len(),
    ensures
        loc[pointer_from(loc, i) as int] is Empty,
    decreases loc.len() - i,
{
    if i >= loc.len() {
    } else if loc[i as int] is Empty {
    } else {
        lemma_pointer_at(loc, i + 1);
    }
}

/// The stack is contiguous: unused slots only above used ones.
pub open spec fn contiguous_s(loc: Seq<Location>) -> bool {
    forall|i: int, j: int|
        0 <= i < j < loc.len() && (#[trigger] loc[i]) is Empty ==> (#[trigger] loc[j]) is Empty
}

/// One step keeps the stack contiguous.
pub proof fn lemma_step_contiguous(g: JsonModel, b: u8)
    requires
        contiguous_s(g.location),
    ensures
        json_step(g, b) matches Result::Ok(g2) ==> contiguous_s(g2.location),
{
    let p = pointer_s(g.location);
    lemma_pointer_from_range(g.location, 0);
    assert forall|k: nat| k < p implies !(g.location[k as int] is Empty) by {
        lemma_pointer_first(g.location, 0, k);
    }
    if p < g.location.len() {
        lemma_pointer_at(g.location, 0);
    }
    match json_structural_step(g, b) {
        Result::Ok(g1) => {
            assert forall|i: int, j: int|
                0 <= i < j < g1.location.len() && (#[trigger] g1.location[i]) is Empty implies (
            #[trigger] g1.location[j]) is Empty by {
                if i < p - 1 {
                    // slots below both update sites are used and untouched
                    assert(g1.location[i] == g.location[i]);
                } else if i == p - 1 {
                    // this slot can only have become unused by a pop; then
                    // every slot at or above the old pointer was already
                    // unused and is untouched
                    assert(g1.location[j] == g.location[j]);
                    if j == p as int {
                        assert(g.location[p as int] is Empty);
                    } else {
                        assert(g.location[p as int] is Empty && g.location[j] is Empty);
                    }
                } else {
                    // slots above the pointer were already unused; a push
                    // fills the pointer's own slot, so it cannot be the
                    // unused one
                    assert(g1.location[i] == g.location[i]);
                    assert(g1.location[j] == g.location[j]);
                    assert(g.location[j] is Empty);
                }
            }
        },
        Result::Err(_) => {},
    }
}

/// Law: the location stack stays contiguous through every successful run;
/// an unused slot never sits below a used one.
pub proof fn lemma_run_contiguous(bytes: Seq<u8>, p: nat, m: nat)
    ensures
        json_run(bytes, p, m) matches Result::Ok(g) ==> contiguous_s(g.location),
    decreases bytes.len(),
{
    if bytes.len() > 0 {
        lemma_run_contiguous(bytes.drop_last(), p, m);
        match json_run(bytes.drop_last(), p, m) {
            Result::Ok(g) => lemma_step_contiguous(g, bytes.last()),
            Result::Err(_) => (),
        }
    }
}

} // verus!
