//! The order in which a movement is to take per-pair balance locks.
//!
//! Under per-pair locking, a movement locks every (product, warehouse) pair it
//! touches, in ascending (warehouse, product) order and each pair once, so
//! that two movements over overlapping pairs never wait on each other in a
//! cycle. [`lock_plan`] computes that order; the engine itself is a single
//! value that callers serialize as a whole.
use vstd::prelude::*;
use crate::types::BalanceKey;
use crate::validate::{Movement, MovementLine};

verus! {

/// The total order on balance keys: by warehouse, then by product.
pub open spec fn key_before(a: BalanceKey, b: BalanceKey) -> bool {
    a.warehouse_id < b.warehouse_id || (a.warehouse_id == b.warehouse_id && a.product_id
        < b.product_id)
}

pub open spec fn strictly_ordered(ks: Seq<BalanceKey>) -> bool {
    forall|i: int, j: int| 0 <= i < j < ks.len() ==> key_before(ks[i], ks[j])
}

/// Whether the key belongs to one of the lines at warehouse `w`.
pub open spec fn line_key(lines: Seq<MovementLine>, w: u128, k: BalanceKey) -> bool {
    k.warehouse_id == w && exists|i: int| 0 <= i < lines.len() && lines[i].product_id == k.product_id
}

/// Whether movement `m` changes the balance of `k`.
pub open spec fn touches(m: Movement, k: BalanceKey) -> bool {
    match m {
        Movement::Receipt { warehouse_id, lines } => line_key(lines@, warehouse_id, k),
        Movement::Delivery { warehouse_id, lines } => line_key(lines@, warehouse_id, k),
        Movement::Transfer { from_warehouse_id, to_warehouse_id, lines } => line_key(
            lines@,
            from_warehouse_id,
            k,
        ) || line_key(lines@, to_warehouse_id, k),
        Movement::Adjustment { warehouse_id, product_id, .. } => k == BalanceKey {
            product_id,
            warehouse_id,
        },
    }
}

/// Sorts the keys into lock order and drops repeats.
pub fn lock_order(keys: &Vec<BalanceKey>) -> (r: Vec<BalanceKey>)
    ensures
        strictly_ordered(r@),
        forall|k: BalanceKey| r@.contains(k) <==> keys@.contains(k),
{
    let mut out: Vec<BalanceKey> = Vec::new();
    let mut i: usize = 0;
    while i < keys.len()
        invariant
            0 <= i <= keys@.len(),
            strictly_ordered(out@),
            forall|k: BalanceKey| #![trigger out@.contains(k)] out@.contains(k) <==> keys@.take(i as int).contains(k),
        decreases keys@.len() - i,
    {
        let k = keys[i];
        let mut pos: usize = 0;
        while pos < out.len() && key_less(out[pos], k)
            invariant
                0 <= i < keys@.len(),
                k == keys@[i as int],
                strictly_ordered(out@),
                forall|x: BalanceKey| #![trigger out@.contains(x)] out@.contains(x) <==> keys@.take(i as int).contains(x),
                0 <= pos <= out@.len(),
                forall|j: int| 0 <= j < pos ==> key_before(out@[j], k),
            decreases out@.len() - pos,
        {
            pos = pos + 1;
        }
        let ghost t0 = keys@.take(i as int);
        let ghost t1 = keys@.take(i as int + 1);
        proof {
            assert(t1 =~= t0.push(k));
        }
        if pos < out.len() && out[pos] == k {
            proof {
                assert forall|x: BalanceKey| out@.contains(x) <==> t1.contains(x) by {
                    if x == k {
                        assert(out@[pos as int] == k);
                        assert(t1[i as int] == k);
                    }
                    if t1.contains(x) && x != k {
                        let j = choose|j: int| 0 <= j < t1.len() && t1[j] == x;
                        assert(t0[j] == x);
                    }
                    if out@.contains(x) {
                        assert(t0.contains(x));
                        let j = choose|j: int| 0 <= j < t0.len() && t0[j] == x;
                        assert(t1[j] == x);
                    }
                }
            }
        } else {
            let ghost before = out@;
            out.insert(pos, k);
            proof {
                assert forall|a: int, b: int| 0 <= a < b < out@.len() implies key_before(
                    out@[a],
                    out@[b],
                ) by {
                    if b < pos {
                    } else if a < pos && b == pos {
                    } else if a < pos {
                        assert(out@[b] == before[b - 1]);
                    } else if a == pos {
                        assert(out@[b] == before[b - 1]);
                        assert(out@[a] == k);
                        assert(!key_before(before[pos as int], k) && before[pos as int] != k);
                        assert(key_before(k, before[pos as int]));
                        if b - 1 > pos {
                            assert(key_before(before[pos as int], before[b - 1]));
                        }
                    } else {
                        assert(out@[a] == before[a - 1] && out@[b] == before[b - 1]);
                    }
                }
                assert forall|x: BalanceKey| out@.contains(x) <==> t1.contains(x) by {
                    if out@.contains(x) && x != k {
                        let j = choose|j: int| 0 <= j < out@.len() && out@[j] == x;
                        if j < pos {
                            assert(before[j] == x);
                        } else {
                            assert(before[j - 1] == x);
                        }
                        assert(before.contains(x));
                        assert(t0.contains(x));
                        let m = choose|m: int| 0 <= m < t0.len() && t0[m] == x;
                        assert(t1[m] == x);
                    }
                    if x == k {
                        assert(out@[pos as int] == k);
                        assert(t1[i as int] == k);
                    }
                    if t1.contains(x) && x != k {
                        let j = choose|j: int| 0 <= j < t1.len() && t1[j] == x;
                        assert(t0[j] == x);
                        assert(before.contains(x));
                        let m = choose|m: int| 0 <= m < before.len() && before[m] == x;
                        if m < pos {
                            assert(out@[m] == x);
                        } else {
                            assert(out@[m + 1] == x);
                        }
                    }
                }
            }
        }
        i = i + 1;
    }
    proof {
        assert(keys@.take(keys@.len() as int) =~= keys@);
    }
    out
}

/// Whether `a` comes before `b` in lock order.
pub fn key_less(a: BalanceKey, b: BalanceKey) -> (r: bool)
    ensures
        r == key_before(a, b),
{
    a.warehouse_id < b.warehouse_id || (a.warehouse_id == b.warehouse_id && a.product_id
        < b.product_id)
}

fn push_line_keys(out: &mut Vec<BalanceKey>, lines: &Vec<MovementLine>, w: u128)
    ensures
        forall|k: BalanceKey| final(out)@.contains(k) <==> (old(out)@.contains(k) || line_key(lines@, w, k)),
{
    let ghost start = out@;
    let mut i: usize = 0;
    while i < lines.len()
        invariant
            0 <= i <= lines@.len(),
            forall|k: BalanceKey| #![trigger out@.contains(k)] out@.contains(k) <==> (start.contains(k) || line_key(lines@.take(i as int), w, k)),
        decreases lines@.len() - i,
    {
        let k = BalanceKey { product_id: lines[i].product_id, warehouse_id: w };
        let ghost prev = out@;
        out.push(k);
        proof {
            let t0 = lines@.take(i as int);
            let t1 = lines@.take(i as int + 1);
            assert forall|x: BalanceKey| out@.contains(x) implies (start.contains(x) || line_key(t1, w, x)) by {
                let j = choose|j: int| 0 <= j < out@.len() && out@[j] == x;
                if j < prev.len() {
                    assert(prev[j] == x);
                    assert(prev.contains(x));
                    if line_key(t0, w, x) {
                        let m = choose|m: int| 0 <= m < t0.len() && t0[m].product_id == x.product_id;
                        assert(t1[m] == t0[m]);
                    }
                } else {
                    assert(x == k);
                    assert(t1[i as int] == lines@[i as int]);
                    assert(t1[i as int].product_id == x.product_id);
                }
            }
            assert forall|x: BalanceKey| (start.contains(x) || line_key(t1, w, x)) implies out@.contains(x) by {
                if start.contains(x) || line_key(t0, w, x) {
                    if line_key(t0, w, x) {
                        let m = choose|m: int| 0 <= m < t0.len() && t0[m].product_id == x.product_id;
                        assert(line_key(t0, w, x));
                    }
                    assert(prev.contains(x));
                    let j = choose|j: int| 0 <= j < prev.len() && prev[j] == x;
                    assert(out@[j] == x);
                } else {
                    let m = choose|m: int| 0 <= m < t1.len() && t1[m].product_id == x.product_id;
                    if m < i {
                        assert(t0[m] == t1[m]);
                        assert(line_key(t0, w, x));
                    } else {
                        assert(x.product_id == k.product_id && x.warehouse_id == k.warehouse_id);
                        assert(x == k);
                        assert(out@[prev.len() as int] == k);
                    }
                }
            }
            assert forall|x: BalanceKey| #![trigger out@.contains(x)] out@.contains(x) <==> (start.contains(x)
                || line_key(t1, w, x)) by {
                if out@.contains(x) {
                    assert(start.contains(x) || line_key(t1, w, x));
                }
                if start.contains(x) || line_key(t1, w, x) {
                    assert(out@.contains(x));
                }
            }
        }
        i = i + 1;
    }
    proof {
        assert(lines@.take(lines@.len() as int) =~= lines@);
    }
}

/// The keys that a movement locks, in the order it must take them.
pub fn lock_plan(m: &Movement) -> (r: Vec<BalanceKey>)
    ensures
        strictly_ordered(r@),
        forall|k: BalanceKey| r@.contains(k) <==> touches(*m, k),
{
    let mut keys: Vec<BalanceKey> = Vec::new();
    match m {
        Movement::Receipt { warehouse_id, lines } => {
            push_line_keys(&mut keys, lines, *warehouse_id);
        },
        Movement::Delivery { warehouse_id, lines } => {
            push_line_keys(&mut keys, lines, *warehouse_id);
        },
        Movement::Transfer { from_warehouse_id, to_warehouse_id, lines } => {
            push_line_keys(&mut keys, lines, *from_warehouse_id);
            push_line_keys(&mut keys, lines, *to_warehouse_id);
        },
        Movement::Adjustment { warehouse_id, product_id, .. } => {
            keys.push(BalanceKey { product_id: *product_id, warehouse_id: *warehouse_id });
            proof {
                assert(keys@[0] == BalanceKey { product_id: *product_id, warehouse_id: *warehouse_id });
            }
        },
    }
    lock_order(&keys)
}

} // verus!
