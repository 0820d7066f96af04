//! Finding the identifier at a position, or the ones closest to it.
use vstd::prelude::*;
use crate::api_types::{range_contains, FilePosition, Identifier, Position};

verus! {

/// Why no identifier was selected: none lies at the position; the closest ones are given.
#[derive(Debug, PartialEq, Eq)]
pub enum PositionError {
    IdentifierNotFound { closest: Vec<Identifier> },
}

/// The identifier's range is in the position's file and contains the position.
pub open spec fn at_position(id: Identifier, pos: FilePosition) -> bool {
    id.range.path@ == pos.path@ && range_contains(id.range.start, id.range.end, pos.position)
}

/// The absolute difference of two integers.
pub open spec fn abs_diff(a: int, b: int) -> int {
    if a >= b {
        a - b
    } else {
        b - a
    }
}

/// How far a range end lies from a position: lines count a hundred times as much as
/// characters.
pub open spec fn end_distance(p: Position, q: Position) -> int {
    abs_diff(p.line as int, q.line as int) * 100 + abs_diff(p.character as int, q.character as int)
}

/// The distance of an identifier from a position: that of the nearer end of its range.
pub open spec fn distance(id: Identifier, q: Position) -> int {
    let a = end_distance(id.range.start, q);
    let b = end_distance(id.range.end, q);
    if a <= b {
        a
    } else {
        b
    }
}

/// The distances of an identifier fit in an `i32`, as the computation requires.
pub open spec fn distance_fits(id: Identifier, q: Position) -> bool {
    &&& id.range.start.line <= i32::MAX && id.range.start.character <= i32::MAX
    &&& id.range.end.line <= i32::MAX && id.range.end.character <= i32::MAX
    &&& q.line <= i32::MAX && q.character <= i32::MAX
    &&& end_distance(id.range.start, q) <= i32::MAX
    &&& end_distance(id.range.end, q) <= i32::MAX
}

/// Identifier `i` ranks before identifier `j`: it is nearer, or as near and listed earlier.
pub open spec fn ranks_before(ids: Seq<Identifier>, q: Position, i: int, j: int) -> bool {
    distance(ids[i], q) < distance(ids[j], q) || (distance(ids[i], q) == distance(ids[j], q) && i < j)
}

/// `closest` holds, nearest first, the `min(3, n)` identifiers that rank first among `ids`.
pub open spec fn is_closest_selection(ids: Seq<Identifier>, q: Position, closest: Seq<Identifier>) -> bool {
    &&& closest.len() == if ids.len() < 3 { ids.len() } else { 3 }
    &&& exists|sel: Seq<int>| is_ranked_prefix(ids, q, sel) && sel.len() == closest.len() && forall|j: int|
        0 <= j < sel.len() ==> closest[j] == ids[#[trigger] sel[j]]
}

/// `sel` lists distinct indices of `ids` in rank order, and every index it leaves out ranks
/// after all of them.
pub open spec fn is_ranked_prefix(ids: Seq<Identifier>, q: Position, sel: Seq<int>) -> bool {
    &&& forall|j: int| 0 <= j < sel.len() ==> 0 <= #[trigger] sel[j] < ids.len()
    &&& forall|a: int, b: int|
        0 <= a < b < sel.len() ==> ranks_before(ids, q, #[trigger] sel[a], #[trigger] sel[b])
    &&& forall|m: int, j: int|
        0 <= m < ids.len() && !sel.contains(m) && 0 <= j < sel.len() ==> #[trigger] ranks_before(ids, q, sel[j], m)
}

/// Some identifier lies at the position.
pub open spec fn has_identifier_at(ids: Seq<Identifier>, pos: FilePosition) -> bool {
    exists|i: int| 0 <= i < ids.len() && at_position(#[trigger] ids[i], pos)
}

/// The state of the selection after looking at the first `k` identifiers: `top` holds, in
/// rank order, the `min(k, 3)` best of them, and every other one ranks after all of them.
pub open spec fn top_inv(ids: Seq<Identifier>, q: Position, top: Seq<usize>, k: int) -> bool {
    &&& top.len() == if k < 3 { k } else { 3 }
    &&& forall|j: int| 0 <= j < top.len() ==> #[trigger] top[j] < k
    &&& forall|a: int, b: int|
        0 <= a < b < top.len() ==> #[trigger] ranks_before(ids, q, top[a] as int, top[b] as int)
    &&& forall|m: int, j: int|
        0 <= m < k && !top.contains(m as usize) && 0 <= j < top.len() ==> #[trigger] ranks_before(
            ids,
            q,
            top[j] as int,
            m,
        )
    &&& top.len() < 3 ==> forall|m: usize| (m as int) < k ==> #[trigger] top.contains(m)
}

/// The kept indices from `p` on are farther than `k` when those before `p` are not.
proof fn lemma_rest_rank_after(ids: Seq<Identifier>, q: Position, top: Seq<usize>, p: int, k: int)
    requires
        top_inv(ids, q, top, k),
        0 <= p <= top.len(),
        p < top.len() ==> distance(ids[top[p] as int], q) > distance(ids[k], q),
    ensures
        forall|j: int| p <= j < top.len() ==> distance(ids[#[trigger] top[j] as int], q) > distance(ids[k], q),
{
    assert forall|j: int| p <= j < top.len() implies distance(ids[#[trigger] top[j] as int], q) > distance(
        ids[k],
        q,
    ) by {
        if j > p {
            assert(ranks_before(ids, q, top[p] as int, top[j] as int));
        }
    }
}

/// Putting `k` in its place among the kept indices, and dropping the fourth, keeps the
/// selection right.
proof fn lemma_insert_keeps_top(ids: Seq<Identifier>, q: Position, old: Seq<usize>, p: int, k: int, new: Seq<usize>)
    requires
        top_inv(ids, q, old, k),
        0 <= k,
        0 <= p <= old.len(),
        p < 3,
        forall|j: int| 0 <= j < p ==> distance(ids[#[trigger] old[j] as int], q) <= distance(ids[k], q),
        forall|j: int| p <= j < old.len() ==> distance(ids[#[trigger] old[j] as int], q) > distance(ids[k], q),
        new == if old.len() == 3 { old.insert(p, k as usize).drop_last() } else { old.insert(p, k as usize) },
        k <= usize::MAX,
    ensures
        top_inv(ids, q, new, k + 1),
{
    let ins = old.insert(p, k as usize);
    assert(forall|j: int| 0 <= j < p ==> ins[j] == old[j]);
    assert(ins[p] == k as usize);
    assert(forall|j: int| p < j < ins.len() ==> ins[j] == old[j - 1]);
    assert(forall|j: int| 0 <= j < new.len() ==> new[j] == ins[j]);
    assert forall|j: int| 0 <= j < new.len() implies #[trigger] new[j] < k + 1 by {
        if j < p {
            assert(new[j] == old[j]);
        } else if j > p {
            assert(new[j] == old[j - 1]);
        }
    }
    assert forall|a: int, b: int| 0 <= a < b < new.len() implies #[trigger] ranks_before(
        ids,
        q,
        new[a] as int,
        new[b] as int,
    ) by {
        if b < p {
            assert(new[a] == old[a] && new[b] == old[b]);
        } else if b == p {
            assert(new[a] == old[a]);
            assert(old[a] < k);
        } else if a > p {
            assert(new[a] == old[a - 1] && new[b] == old[b - 1]);
        } else if a == p {
            assert(new[b] == old[b - 1]);
        } else {
            assert(new[a] == old[a] && new[b] == old[b - 1]);
            assert(ranks_before(ids, q, old[a] as int, old[b - 1] as int));
        }
    }
    assert forall|m: int, j: int|
        0 <= m < k + 1 && !new.contains(m as usize) && 0 <= j < new.len() implies #[trigger] ranks_before(
        ids,
        q,
        new[j] as int,
        m,
    ) by {
        assert(m != k) by {
            assert(new[p] == k as usize);
        }
        if old.contains(m as usize) {
            let w = choose|w: int| 0 <= w < old.len() && old[w] == m as usize;
            if w < p {
                assert(new[w] == old[w]);
            } else if w + 1 < new.len() {
                assert(new[w + 1] == old[w]);
            }
            assert(w == 2 && old.len() == 3 && new.len() == 3);
            assert(distance(ids[old[2] as int], q) > distance(ids[k], q));
            if j < p {
                assert(new[j] == old[j]);
                assert(ranks_before(ids, q, old[j] as int, old[2] as int));
            } else if j > p {
                assert(new[j] == old[j - 1]);
                assert(ranks_before(ids, q, old[j - 1] as int, old[2] as int));
            }
        } else {
            assert(old.len() == 3);
            assert(ranks_before(ids, q, old[p] as int, m));
            if j < p {
                assert(new[j] == old[j]);
            } else if j > p {
                assert(new[j] == old[j - 1]);
            }
        }
    }
    if new.len() < 3 {
        assert forall|m: usize| (m as int) < k + 1 implies #[trigger] new.contains(m) by {
            if m as int == k {
                assert(new[p] == m);
            } else {
                assert(old.contains(m));
                let w = choose|w: int| 0 <= w < old.len() && old[w] == m;
                if w < p {
                    assert(new[w] == m);
                } else {
                    assert(new[w + 1] == m);
                }
            }
        }
    }
}

/// When three indices are kept and all rank before `k`, nothing changes.
proof fn lemma_skip_keeps_top(ids: Seq<Identifier>, q: Position, old: Seq<usize>, k: int)
    requires
        top_inv(ids, q, old, k),
        old.len() == 3,
        forall|j: int| 0 <= j < 3 ==> distance(ids[#[trigger] old[j] as int], q) <= distance(ids[k], q),
    ensures
        top_inv(ids, q, old, k + 1),
{
    assert forall|m: int, j: int|
        0 <= m < k + 1 && !old.contains(m as usize) && 0 <= j < old.len() implies #[trigger] ranks_before(
        ids,
        q,
        old[j] as int,
        m,
    ) by {
        if m == k {
            assert(distance(ids[old[j] as int], q) <= distance(ids[k], q));
            assert(old[j] < k);
        }
    }
}

/// The distance of an identifier from a position.
fn compute_distance(id: &Identifier, q: &Position) -> (d: i64)
    requires
        distance_fits(*id, *q),
    ensures
        d == distance(*id, *q),
{
    let sl = id.range.start.line as i64 - q.line as i64;
    let sc = id.range.start.character as i64 - q.character as i64;
    let el = id.range.end.line as i64 - q.line as i64;
    let ec = id.range.end.character as i64 - q.character as i64;
    let sl = if sl < 0 { -sl } else { sl };
    let sc = if sc < 0 { -sc } else { sc };
    let el = if el < 0 { -el } else { el };
    let ec = if ec < 0 { -ec } else { ec };
    let a = sl * 100 + sc;
    let b = el * 100 + ec;
    if a <= b {
        a
    } else {
        b
    }
}

/// Whether the position is in the identifier's file and within its range.
pub fn identifier_at(id: &Identifier, pos: &FilePosition) -> (r: bool)
    ensures
        r == at_position(*id, *pos),
{
    id.range.path == pos.path && id.range.contains(&pos.position)
}

/// The first identifier that lies at the position; when there is none, the three (or
/// fewer) identifiers closest to it, nearest first, earlier ones first among equals.
pub fn find_identifier_at_position(identifiers: Vec<Identifier>, position: &FilePosition) -> (r: Result<Identifier, PositionError>)
    requires
        has_identifier_at(identifiers@, *position) || forall|i: int|
            0 <= i < identifiers@.len() ==> distance_fits(#[trigger] identifiers@[i], position.position),
    ensures
        r matches Ok(id) ==> exists|i: int|
            0 <= i < identifiers@.len() && id == identifiers@[i] && at_position(identifiers@[i], *position)
                && forall|k: int| 0 <= k < i ==> !at_position(#[trigger] identifiers@[k], *position),
        r is Ok <==> has_identifier_at(identifiers@, *position),
        r matches Err(PositionError::IdentifierNotFound { closest }) ==> is_closest_selection(
            identifiers@,
            position.position,
            closest@,
        ),
{
    let n = identifiers.len();
    let mut i: usize = 0;
    while i < n
        invariant
            i <= n == identifiers@.len(),
            forall|k: int| 0 <= k < i ==> !at_position(#[trigger] identifiers@[k], *position),
        decreases n - i,
    {
        if identifier_at(&identifiers[i], position) {
            return Ok(identifiers[i].clone());
        }
        i = i + 1;
    }
    assert(!has_identifier_at(identifiers@, *position));
    assert(forall|i: int| 0 <= i < identifiers@.len() ==> distance_fits(#[trigger] identifiers@[i], position.position));
    let ghost ids = identifiers@;
    let q = &position.position;
    let mut ds: Vec<i64> = Vec::new();
    let mut k: usize = 0;
    while k < n
        invariant
            k <= n == ids.len(),
            ids == identifiers@,
            *q == position.position,
            !has_identifier_at(identifiers@, *position),
            forall|i: int| 0 <= i < ids.len() ==> distance_fits(#[trigger] ids[i], position.position),
            ds@.len() == k,
            forall|j: int| 0 <= j < k ==> ds@[j] == distance(#[trigger] ids[j], *q),
        decreases n - k,
    {
        assert(distance_fits(ids[k as int], position.position));
        let d = compute_distance(&identifiers[k], q);
        ds.push(d);
        k = k + 1;
    }
    // `top` holds the indices of the best identifiers among those seen so far, in rank order.
    let mut top: Vec<usize> = Vec::new();
    let mut k: usize = 0;
    proof {
        assert(top_inv(ids, *q, top@, 0));
    }
    while k < n
        invariant
            k <= n == ids.len() == ds@.len(),
            *q == position.position,
            forall|j: int| 0 <= j < n ==> ds@[j] == distance(#[trigger] ids[j], *q),
            top_inv(ids, *q, top@, k as int),
        decreases n - k,
    {
        // the number of kept indices that rank before `k`
        let mut p: usize = 0;
        while p < top.len() && ds[top[p]] <= ds[k]
            invariant
                p <= top@.len(),
                k < n == ds@.len(),
                forall|j: int| 0 <= j < n ==> ds@[j] == distance(#[trigger] ids[j], *q),
                forall|j: int| 0 <= j < top@.len() ==> #[trigger] top@[j] < k,
                forall|j: int|
                    0 <= j < p ==> distance(ids[#[trigger] top@[j] as int], *q) <= distance(ids[k as int], *q),
            decreases top@.len() - p,
        {
            p = p + 1;
        }
        let ghost old_top = top@;
        proof {
            lemma_rest_rank_after(ids, *q, old_top, p as int, k as int);
        }
        if p < 3 {
            top.insert(p, k);
            if top.len() > 3 {
                top.pop();
            }
            proof {
                lemma_insert_keeps_top(ids, *q, old_top, p as int, k as int, top@);
            }
        } else {
            proof {
                lemma_skip_keeps_top(ids, *q, old_top, k as int);
            }
        }
        k = k + 1;
    }
    let mut closest: Vec<Identifier> = Vec::new();
    let mut j: usize = 0;
    while j < top.len()
        invariant
            j <= top@.len(),
            n == ids.len(),
            ids == identifiers@,
            top_inv(ids, *q, top@, n as int),
            *q == position.position,
            closest@.len() == j,
            forall|t: int| 0 <= t < j ==> closest@[t] == ids[#[trigger] top@[t] as int],
        decreases top@.len() - j,
    {
        closest.push(identifiers[top[j]].clone());
        j = j + 1;
    }
    proof {
        assert(top_inv(ids, *q, top@, n as int));
        let sel = top@.map_values(|t: usize| t as int);
        assert(is_ranked_prefix(ids, *q, sel)) by {
            assert forall|m: int, j: int|
                0 <= m < ids.len() && !sel.contains(m) && 0 <= j < sel.len() implies #[trigger] ranks_before(ids, *q, sel[j], m) by {
                if top@.contains(m as usize) {
                    let w = choose|w: int| 0 <= w < top@.len() && top@[w] == m as usize;
                    assert(sel[w] == m);
                }
            }
        }
        assert(forall|t: int| 0 <= t < sel.len() ==> closest@[t] == ids[#[trigger] sel[t]]);
    }
    Err(PositionError::IdentifierNotFound { closest })
}

fn end_distance_exec(p: &Position, q: &Position) -> (d: i64)
    ensures
        d == end_distance(*p, *q),
{
    let l = p.line as i64 - q.line as i64;
    let c = p.character as i64 - q.character as i64;
    let l = if l < 0 {
        -l
    } else {
        l
    };
    let c = if c < 0 {
        -c
    } else {
        c
    };
    l * 100 + c
}

/// Whether the distances of the identifiers from the position can be computed in 32 bits:
/// what a search for the closest identifiers needs.
pub fn distances_fit(identifiers: &Vec<Identifier>, q: &Position) -> (r: bool)
    ensures
        r == forall|i: int| 0 <= i < identifiers@.len() ==> distance_fits(#[trigger] identifiers@[i], *q),
{
    let max = 0x7fff_ffffu32;
    let mut i: usize = 0;
    while i < identifiers.len()
        invariant
            i <= identifiers@.len(),
            max == i32::MAX,
            forall|k: int| 0 <= k < i ==> distance_fits(#[trigger] identifiers@[k], *q),
        decreases identifiers@.len() - i,
    {
        let id = &identifiers[i];
        let coords = id.range.start.line <= max && id.range.start.character <= max && id.range.end.line <= max
            && id.range.end.character <= max && q.line <= max && q.character <= max;
        if !coords || end_distance_exec(&id.range.start, q) > max as i64 || end_distance_exec(&id.range.end, q)
            > max as i64 {
            return false;
        }
        i = i + 1;
    }
    true
}

} // verus!
