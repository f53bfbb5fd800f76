use vstd::prelude::*;

use crate::align::{lemma_round_up_bounds, round_up};
use crate::arena::{grant, offset_after};

verus! {

/// The committed offset after the requests `reqs`, each a pair of size and alignment,
/// are made in order on an arena of `capacity` bytes with `offset` bytes committed.
pub open spec fn offset_after_all(capacity: int, offset: int, reqs: Seq<(nat, nat)>) -> int
    decreases reqs.len(),
{
    if reqs.len() == 0 {
        offset
    } else {
        offset_after(
            capacity,
            offset_after_all(capacity, offset, reqs.drop_last()),
            reqs.last().0 as int,
            reqs.last().1 as int,
        )
    }
}

/// What the request at index `i` of `reqs` is granted when all of them are made in order.
pub open spec fn grant_at(capacity: int, offset: int, reqs: Seq<(nat, nat)>, i: int) -> Option<
    (int, int),
> {
    grant(capacity, offset_after_all(capacity, offset, reqs.take(i)), reqs[i].0 as int, reqs[i].1 as int)
}

/// Every request asks for a positive alignment.
pub open spec fn aligns_positive(reqs: Seq<(nat, nat)>) -> bool {
    forall|k: int| 0 <= k < reqs.len() ==> #[trigger] reqs[k].1 > 0
}

/// A request never moves the offset back, and a granted range starts at or after the
/// offset and ends where the offset is left.
proof fn lemma_step(capacity: int, offset: int, size: int, align: int)
    requires
        offset >= 0,
        size >= 0,
        align > 0,
    ensures
        offset_after(capacity, offset, size, align) >= offset,
        grant(capacity, offset, size, align) matches Some((s, e)) ==> offset <= s <= e
            && e == offset_after(capacity, offset, size, align),
{
    lemma_round_up_bounds(offset, align);
}

/// The offset after the first `i + 1` requests is what request `i` leaves.
proof fn lemma_take_unfold(capacity: int, offset: int, reqs: Seq<(nat, nat)>, i: int)
    requires
        0 <= i < reqs.len(),
    ensures
        offset_after_all(capacity, offset, reqs.take(i + 1)) == offset_after(
            capacity,
            offset_after_all(capacity, offset, reqs.take(i)),
            reqs[i].0 as int,
            reqs[i].1 as int,
        ),
{
    assert(reqs.take(i + 1).drop_last() =~= reqs.take(i));
}

/// The offset after the first `m` requests is at most the offset after the first `n`,
/// and never below where it started.
proof fn lemma_prefix_monotone(
    capacity: int,
    offset: int,
    reqs: Seq<(nat, nat)>,
    m: int,
    n: int,
)
    requires
        offset >= 0,
        aligns_positive(reqs),
        0 <= m <= n <= reqs.len(),
    ensures
        offset <= offset_after_all(capacity, offset, reqs.take(m)) <= offset_after_all(
            capacity,
            offset,
            reqs.take(n),
        ),
    decreases n,
{
    if n == 0 {
        assert(reqs.take(0) =~= Seq::<(nat, nat)>::empty());
        assert(reqs.take(m) =~= Seq::<(nat, nat)>::empty());
    } else {
        let k = if m == n {
            m - 1
        } else {
            m
        };
        lemma_prefix_monotone(capacity, offset, reqs, k, n - 1);
        lemma_take_unfold(capacity, offset, reqs, n - 1);
        lemma_step(
            capacity,
            offset_after_all(capacity, offset, reqs.take(n - 1)),
            reqs[n - 1].0 as int,
            reqs[n - 1].1 as int,
        );
    }
}

/// A range granted to request `i` starts at or after the offset that the earlier requests
/// left, and ends where request `i` leaves it.
proof fn lemma_grant_at(capacity: int, offset: int, reqs: Seq<(nat, nat)>, i: int)
    requires
        offset >= 0,
        aligns_positive(reqs),
        0 <= i < reqs.len(),
    ensures
        grant_at(capacity, offset, reqs, i) matches Some((s, e)) ==> offset_after_all(
            capacity,
            offset,
            reqs.take(i),
        ) <= s <= e && e == offset_after_all(capacity, offset, reqs.take(i + 1)),
{
    lemma_prefix_monotone(capacity, offset, reqs, i, i);
    lemma_take_unfold(capacity, offset, reqs, i);
    lemma_step(
        capacity,
        offset_after_all(capacity, offset, reqs.take(i)),
        reqs[i].0 as int,
        reqs[i].1 as int,
    );
}

/// Of any sequence of requests made in order on one arena, the ranges granted are pairwise
/// disjoint: a range granted earlier ends at or before the start of one granted later,
/// and every granted range lies between the starting offset and the final one.
pub proof fn lemma_grants_disjoint(
    capacity: int,
    offset: int,
    reqs: Seq<(nat, nat)>,
    i: int,
    j: int,
)
    requires
        0 <= offset <= capacity,
        aligns_positive(reqs),
        0 <= i < j < reqs.len(),
    ensures
        grant_at(capacity, offset, reqs, i) matches Some((si, ei)) ==> grant_at(
            capacity,
            offset,
            reqs,
            j,
        ) matches Some((sj, ej)) ==> offset <= si <= ei <= sj <= ej <= offset_after_all(
            capacity,
            offset,
            reqs,
        ),
{
    lemma_grant_at(capacity, offset, reqs, i);
    lemma_grant_at(capacity, offset, reqs, j);
    lemma_prefix_monotone(capacity, offset, reqs, i, i + 1);
    lemma_prefix_monotone(capacity, offset, reqs, i + 1, j);
    lemma_prefix_monotone(capacity, offset, reqs, j + 1, reqs.len() as int);
    assert(reqs.take(reqs.len() as int) =~= reqs);
}

/// A request whose aligned range ends exactly at the capacity is granted; one that would
/// end one byte beyond it is refused and leaves the offset where it was.
pub proof fn lemma_exact_capacity_boundary(capacity: int, offset: int, size: int, align: int)
    requires
        0 <= offset <= capacity,
        size >= 0,
        align > 0,
    ensures
        round_up(offset, align) + size == capacity ==> grant(capacity, offset, size, align)
            == Some((round_up(offset, align), capacity)) && offset_after(
            capacity,
            offset,
            size,
            align,
        ) == capacity,
        round_up(offset, align) + size == capacity + 1 ==> grant(capacity, offset, size, align)
            is None && offset_after(capacity, offset, size, align) == offset,
{
}

/// Requests that all ask for `size` bytes aligned to `align`.
pub open spec fn uniform_requests(n: nat, size: nat, align: nat) -> Seq<(nat, nat)> {
    Seq::new(n, |k: int| (size, align))
}

/// When `threads` callers each make `per_thread` requests of `size` bytes aligned to
/// `align` on a fresh arena, the guard serialises them into one sequence of
/// `threads * per_thread` requests. Where `size` is a multiple of `align` and they all fit,
/// every one is granted, request `k` gets `[k * size, (k + 1) * size)`, so the ranges are
/// pairwise disjoint and laid end to end, and the final offset is
/// `threads * per_thread * round_up(size, align)`.
pub proof fn lemma_uniform_requests(
    capacity: int,
    threads: nat,
    per_thread: nat,
    size: nat,
    align: nat,
)
    requires
        align > 0,
        size % align == 0,
        threads * per_thread * size <= capacity,
    ensures
        ({
            let reqs = uniform_requests(threads * per_thread, size, align);
            &&& offset_after_all(capacity, 0, reqs) == threads * per_thread * round_up(
                size as int,
                align as int,
            )
            &&& forall|k: int|
                0 <= k < threads * per_thread ==> #[trigger] grant_at(capacity, 0, reqs, k)
                    == Some((k * size, (k + 1) * size))
        }),
{
    let n = threads * per_thread;
    let reqs = uniform_requests(n, size, align);
    assert forall|m: int| 0 <= m <= n implies #[trigger] offset_after_all(
        capacity,
        0,
        reqs.take(m),
    ) == m * size by {
        lemma_uniform_prefix(capacity, n, size, align, m);
    }
    assert forall|k: int| 0 <= k < n implies #[trigger] grant_at(capacity, 0, reqs, k) == Some(
        (k * size, (k + 1) * size),
    ) by {
        lemma_uniform_prefix(capacity, n, size, align, k);
        lemma_uniform_step(capacity, n, size, align, k);
    }
    assert(reqs.take(n as int) =~= reqs);
    assert(round_up(size as int, align as int) == size);
}

proof fn lemma_uniform_step(capacity: int, n: nat, size: nat, align: nat, k: int)
    requires
        align > 0,
        size % align == 0,
        n * size <= capacity,
        0 <= k < n,
    ensures
        grant(capacity, k * size, size as int, align as int) == Some((k * size, (k + 1) * size)),
{
    vstd::arithmetic::div_mod::lemma_fundamental_div_mod(size as int, align as int);
    let q = size as int / align as int;
    assert(k * size == (k * q) * align) by (nonlinear_arith)
        requires
            size == align * q,
    ;
    vstd::arithmetic::div_mod::lemma_mod_multiples_basic(k * q, align as int);
    assert((k + 1) * size <= n * size) by (nonlinear_arith)
        requires
            k < n,
    ;
    assert((k + 1) * size == k * size + size) by (nonlinear_arith);
}

proof fn lemma_uniform_prefix(capacity: int, n: nat, size: nat, align: nat, m: int)
    requires
        align > 0,
        size % align == 0,
        n * size <= capacity,
        0 <= m <= n,
    ensures
        offset_after_all(capacity, 0, uniform_requests(n, size, align).take(m)) == m * size,
    decreases m,
{
    let reqs = uniform_requests(n, size, align);
    if m == 0 {
        assert(reqs.take(0) =~= Seq::<(nat, nat)>::empty());
    } else {
        lemma_uniform_prefix(capacity, n, size, align, m - 1);
        lemma_take_unfold(capacity, 0, reqs, m - 1);
        lemma_uniform_step(capacity, n, size, align, m - 1);
        assert((m - 1 + 1) * size == m * size);
    }
}

} // verus!
