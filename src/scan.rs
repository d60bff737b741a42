use vstd::prelude::*;
use crate::op_code::{OpCode, same_kind};

verus! {

/// Open brackets minus close brackets among `ops[a..b]`.
pub open spec fn net(ops: Seq<OpCode>, a: int, b: int) -> int
    decreases b - a,
{
    if b <= a {
        0
    } else {
        net(ops, a, b - 1) + if ops[b - 1].is_open() {
            1int
        } else if ops[b - 1].is_close() {
            -1int
        } else {
            0int
        }
    }
}

/// Scanning forward from `k` with `depth` brackets still open: the index of
/// the close bracket met at depth zero, if any.
pub open spec fn scan_forward(ops: Seq<OpCode>, k: int, depth: int) -> Option<int>
    decreases ops.len() - k,
{
    if k < 0 || k >= ops.len() {
        None
    } else if ops[k].is_close() {
        if depth == 0 {
            Some(k)
        } else {
            scan_forward(ops, k + 1, depth - 1)
        }
    } else if ops[k].is_open() {
        scan_forward(ops, k + 1, depth + 1)
    } else {
        scan_forward(ops, k + 1, depth)
    }
}

/// Scanning backward from `k` with `depth` brackets still closed: the index
/// of the open bracket met at depth zero, if any.
pub open spec fn scan_backward(ops: Seq<OpCode>, k: int, depth: int) -> Option<int>
    decreases k + 1,
{
    if k < 0 || k >= ops.len() {
        None
    } else if ops[k].is_open() {
        if depth == 0 {
            Some(k)
        } else {
            scan_backward(ops, k - 1, depth - 1)
        }
    } else if ops[k].is_close() {
        scan_backward(ops, k - 1, depth + 1)
    } else {
        scan_backward(ops, k - 1, depth)
    }
}

/// The close bracket that matches the open bracket at `i`.
pub open spec fn match_forward(ops: Seq<OpCode>, i: int) -> Option<int> {
    scan_forward(ops, i + 1, 0)
}

/// The open bracket that matches the close bracket at `j`.
pub open spec fn match_backward(ops: Seq<OpCode>, j: int) -> Option<int> {
    scan_backward(ops, j - 1, 0)
}

/// Every jump target already recorded in `ops` is the partner that a scan
/// would find.
pub open spec fn targets_ok(ops: Seq<OpCode>) -> bool {
    forall|k: int|
        0 <= k < ops.len() ==> #[trigger] target_ok(ops, k)
}

/// The jump target at `k`, if any, is the partner that a scan would find.
pub open spec fn target_ok(ops: Seq<OpCode>, k: int) -> bool {
    match ops[k] {
        OpCode::OpLeftBracket(Some(t)) => match_forward(ops, k) == Some(t as int),
        OpCode::OpRightBracket(Some(t)) => match_backward(ops, k) == Some(t as int),
        _ => true,
    }
}

/// Recorded targets come in pairs: a bracket with a target names a bracket
/// of the other kind that names it back.
pub open spec fn targets_paired(ops: Seq<OpCode>) -> bool {
    forall|k: int|
        0 <= k < ops.len() ==> #[trigger] target_paired(ops, k)
}

/// The target at `k`, if any, names a bracket that names `k` back.
pub open spec fn target_paired(ops: Seq<OpCode>, k: int) -> bool {
    match ops[k] {
        OpCode::OpLeftBracket(Some(t)) => 0 <= t < ops.len() && ops[t as int] == OpCode::OpRightBracket(Some(k as usize)),
        OpCode::OpRightBracket(Some(t)) => 0 <= t < ops.len() && ops[t as int] == OpCode::OpLeftBracket(Some(k as usize)),
        _ => true,
    }
}

pub proof fn lemma_scan_forward_bounds(ops: Seq<OpCode>, k: int, depth: int)
    ensures
        scan_forward(ops, k, depth) matches Some(j) ==> k <= j < ops.len() && ops[j].is_close(),
    decreases ops.len() - k,
{
    if 0 <= k < ops.len() {
        lemma_scan_forward_bounds(ops, k + 1, depth + 1);
        lemma_scan_forward_bounds(ops, k + 1, depth - 1);
        lemma_scan_forward_bounds(ops, k + 1, depth);
    }
}

pub proof fn lemma_scan_backward_bounds(ops: Seq<OpCode>, k: int, depth: int)
    ensures
        scan_backward(ops, k, depth) matches Some(j) ==> 0 <= j <= k && ops[j].is_open(),
    decreases k + 1,
{
    if 0 <= k < ops.len() {
        lemma_scan_backward_bounds(ops, k - 1, depth + 1);
        lemma_scan_backward_bounds(ops, k - 1, depth - 1);
        lemma_scan_backward_bounds(ops, k - 1, depth);
    }
}

/// A forward scan that succeeds in `a` reads only `a[k..=j]`; a program that
/// agrees with `a` there in bracket kinds gives the same answer.
pub proof fn lemma_scan_forward_agree(a: Seq<OpCode>, b: Seq<OpCode>, k: int, depth: int)
    requires
        scan_forward(a, k, depth) is Some,
        scan_forward(a, k, depth)->0 < b.len(),
        forall|x: int|
            k <= x <= scan_forward(a, k, depth)->0 ==> same_kind(#[trigger] a[x], b[x]),
    ensures
        scan_forward(b, k, depth) == scan_forward(a, k, depth),
    decreases a.len() - k,
{
    lemma_scan_forward_bounds(a, k, depth);
    assert(same_kind(a[k], b[k]));
    if a[k].is_close() {
        if depth != 0 {
            lemma_scan_forward_agree(a, b, k + 1, depth - 1);
        }
    } else if a[k].is_open() {
        lemma_scan_forward_agree(a, b, k + 1, depth + 1);
    } else {
        lemma_scan_forward_agree(a, b, k + 1, depth);
    }
}

/// A backward scan that succeeds in `a` reads only `a[j..=k]`; a program that
/// agrees with `a` there in bracket kinds gives the same answer.
pub proof fn lemma_scan_backward_agree(a: Seq<OpCode>, b: Seq<OpCode>, k: int, depth: int)
    requires
        scan_backward(a, k, depth) is Some,
        k < b.len(),
        forall|x: int|
            scan_backward(a, k, depth)->0 <= x <= k ==> same_kind(#[trigger] a[x], b[x]),
    ensures
        scan_backward(b, k, depth) == scan_backward(a, k, depth),
    decreases k + 1,
{
    lemma_scan_backward_bounds(a, k, depth);
    assert(same_kind(a[k], b[k]));
    if a[k].is_open() {
        if depth != 0 {
            lemma_scan_backward_agree(a, b, k - 1, depth - 1);
        }
    } else if a[k].is_close() {
        lemma_scan_backward_agree(a, b, k - 1, depth + 1);
    } else {
        lemma_scan_backward_agree(a, b, k - 1, depth);
    }
}

/// Two programs with the same bracket kinds everywhere match brackets alike.
pub proof fn lemma_matches_agree(a: Seq<OpCode>, b: Seq<OpCode>, i: int)
    requires
        a.len() == b.len(),
        forall|x: int| 0 <= x < a.len() ==> same_kind(#[trigger] a[x], b[x]),
    ensures
        match_forward(a, i) == match_forward(b, i),
        match_backward(a, i) == match_backward(b, i),
{
    lemma_scan_forward_bounds(a, i + 1, 0);
    lemma_scan_forward_bounds(b, i + 1, 0);
    lemma_scan_backward_bounds(a, i - 1, 0);
    lemma_scan_backward_bounds(b, i - 1, 0);
    if match_forward(a, i) is Some {
        lemma_scan_forward_agree(a, b, i + 1, 0);
    } else if match_forward(b, i) is Some {
        lemma_scan_forward_agree(b, a, i + 1, 0);
    }
    if match_backward(a, i) is Some {
        lemma_scan_backward_agree(a, b, i - 1, 0);
    } else if match_backward(b, i) is Some {
        lemma_scan_backward_agree(b, a, i - 1, 0);
    }
}

/// What a successful forward scan from `k` guarantees about the bracket
/// balance counted from `s`.
proof fn lemma_scan_forward_balance(ops: Seq<OpCode>, s: int, k: int, depth: int)
    requires
        0 <= s <= k,
        depth == net(ops, s, k),
        forall|m: int| s <= m <= k ==> #[trigger] net(ops, s, m) >= 0,
        scan_forward(ops, k, depth) is Some,
    ensures
        net(ops, s, scan_forward(ops, k, depth)->0) == 0,
        forall|m: int| s <= m <= scan_forward(ops, k, depth)->0 ==> #[trigger] net(ops, s, m) >= 0,
    decreases ops.len() - k,
{
    if ops[k].is_close() {
        if depth != 0 {
            lemma_scan_forward_balance(ops, s, k + 1, depth - 1);
        }
    } else if ops[k].is_open() {
        lemma_scan_forward_balance(ops, s, k + 1, depth + 1);
    } else {
        lemma_scan_forward_balance(ops, s, k + 1, depth);
    }
}

/// A backward scan from `k` towards the open bracket at `i`, where every
/// prefix balance after `i` is non-negative, stops at `i`.
proof fn lemma_scan_backward_reaches(ops: Seq<OpCode>, i: int, j: int, k: int)
    requires
        0 <= i <= k < j < ops.len(),
        ops[i].is_open(),
        forall|m: int| i + 1 <= m <= j ==> #[trigger] net(ops, i + 1, m) >= 0,
    ensures
        scan_backward(ops, k, net(ops, i + 1, k + 1)) == Some(i),
    decreases k - i,
{
    if k > i {
        assert(net(ops, i + 1, k) >= 0);
        lemma_scan_backward_reaches(ops, i, j, k - 1);
    }
}

/// The partner found scanning forward from an open bracket, scanned
/// backward, leads back to that open bracket.
pub proof fn lemma_match_forward_backward(ops: Seq<OpCode>, i: int)
    requires
        0 <= i < ops.len(),
        ops[i].is_open(),
        match_forward(ops, i) is Some,
    ensures
        match_backward(ops, match_forward(ops, i)->0) == Some(i),
{
    let j = match_forward(ops, i)->0;
    lemma_scan_forward_bounds(ops, i + 1, 0);
    lemma_scan_forward_balance(ops, i + 1, i + 1, 0);
    lemma_scan_backward_reaches(ops, i, j, j - 1);
}

} // verus!
