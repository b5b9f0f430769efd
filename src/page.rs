use vstd::prelude::*;

verus! {

/// Page size used when a request names none.
pub const DEFAULT_LIMIT: u32 = 10;

/// Largest page size a request can obtain.
pub const MAX_LIMIT: u32 = 30;

/// The page size a request obtains: the default when none is named, never above the maximum.
pub open spec fn effective_limit(limit: Option<u32>) -> nat {
    let l = match limit {
        Some(l) => l,
        None => DEFAULT_LIMIT,
    };
    if l > MAX_LIMIT { MAX_LIMIT as nat } else { l as nat }
}

/// Whether a scan in the given direction still reaches `id`, given an exclusive cursor.
pub open spec fn past_cursor(id: u64, cursor: Option<u64>, ascending: bool) -> bool {
    match cursor {
        None => true,
        Some(c) => if ascending { id > c } else { id < c },
    }
}

/// The ids of an ascending id list in the order a scan visits them.
pub open spec fn scan_order(ids: Seq<u64>, ascending: bool) -> Seq<u64> {
    if ascending {
        ids
    } else {
        Seq::new(ids.len(), |i: int| ids[ids.len() - 1 - i])
    }
}

/// The elements of `s`, in order, that a scan from `cursor` still reaches.
pub open spec fn keep_past(s: Seq<u64>, cursor: Option<u64>, ascending: bool) -> Seq<u64>
    decreases s.len(),
{
    if s.len() == 0 {
        Seq::empty()
    } else {
        let rest = keep_past(s.drop_last(), cursor, ascending);
        if past_cursor(s.last(), cursor, ascending) {
            rest.push(s.last())
        } else {
            rest
        }
    }
}

/// At most the first `n` elements of `s`.
pub open spec fn first_n(s: Seq<u64>, n: nat) -> Seq<u64> {
    if s.len() <= n { s } else { s.take(n as int) }
}

/// Everything a scan of `ids` from `cursor` visits, in visiting order.
pub open spec fn remaining(ids: Seq<u64>, cursor: Option<u64>, ascending: bool) -> Seq<u64> {
    keep_past(scan_order(ids, ascending), cursor, ascending)
}

/// One page of a scan of `ids` (held in ascending order) from `cursor`.
pub open spec fn page(ids: Seq<u64>, cursor: Option<u64>, limit: nat, ascending: bool) -> Seq<u64> {
    first_n(remaining(ids, cursor, ascending), limit)
}

/// Strictly ascending order of a list of ids.
pub open spec fn strictly_ascending(s: Seq<u64>) -> bool {
    forall|i: int, j: int| 0 <= i < j < s.len() ==> s[i] < s[j]
}

/// Strictly descending order of a list of ids.
pub open spec fn strictly_descending(s: Seq<u64>) -> bool {
    forall|i: int, j: int| 0 <= i < j < s.len() ==> s[i] > s[j]
}

/// Resolves an optional requested page size to the size served.
pub fn clamp_limit(limit: Option<u32>) -> (r: usize)
    ensures
        r as nat == effective_limit(limit),
        r <= MAX_LIMIT,
{
    let l = match limit {
        Some(l) => l,
        None => DEFAULT_LIMIT,
    };
    if l > MAX_LIMIT {
        MAX_LIMIT as usize
    } else {
        l as usize
    }
}

/// Whether a scan in the given direction still reaches `id`.
pub fn is_past_cursor(id: u64, cursor: Option<u64>, ascending: bool) -> (r: bool)
    ensures
        r == past_cursor(id, cursor, ascending),
{
    match cursor {
        None => true,
        Some(c) => if ascending { id > c } else { id < c },
    }
}

proof fn lemma_first_n_push(s: Seq<u64>, x: u64, n: nat)
    requires
        first_n(s, n).len() == n,
    ensures
        first_n(s.push(x), n) == first_n(s, n),
{
    if s.len() == n {
        assert(s.push(x).take(n as int) =~= s);
    } else {
        assert(s.push(x).take(n as int) =~= s.take(n as int));
    }
}

/// `o` is strictly ordered in the direction of a scan.
pub open spec fn scan_sorted(o: Seq<u64>, ascending: bool) -> bool {
    if ascending { strictly_ascending(o) } else { strictly_descending(o) }
}

/// Scan order of a strictly ascending list is strictly ordered in the scan's direction.
pub proof fn lemma_scan_order_sorted(ids: Seq<u64>, ascending: bool)
    requires
        strictly_ascending(ids),
    ensures
        scan_sorted(scan_order(ids, ascending), ascending),
        scan_order(ids, ascending).len() == ids.len(),
{
    let o = scan_order(ids, ascending);
    if !ascending {
        assert forall|i: int, j: int| 0 <= i < j < o.len() implies o[i] > o[j] by {
            assert(o[i] == ids[ids.len() - 1 - i]);
            assert(o[j] == ids[ids.len() - 1 - j]);
        }
    }
}

/// When the elements a scan reaches are exactly those from position `k` on, it keeps that
/// suffix.
proof fn lemma_keep_past_from(o: Seq<u64>, cursor: Option<u64>, ascending: bool, k: int)
    requires
        0 <= k,
        forall|i: int| 0 <= i < o.len() ==> (past_cursor(#[trigger] o[i], cursor, ascending) <==> i >= k),
    ensures
        keep_past(o, cursor, ascending) == if k >= o.len() {
            Seq::<u64>::empty()
        } else {
            o.subrange(k, o.len() as int)
        },
    decreases o.len(),
{
    if o.len() > 0 {
        let pre = o.drop_last();
        assert(forall|i: int| 0 <= i < pre.len() ==> pre[i] == o[i]);
        lemma_keep_past_from(pre, cursor, ascending, k);
        assert(o.last() == o[o.len() - 1]);
        if k < o.len() {
            if k < pre.len() {
                assert(pre.subrange(k, pre.len() as int).push(o.last()) =~= o.subrange(
                    k,
                    o.len() as int,
                ));
            } else {
                assert(Seq::<u64>::empty().push(o.last()) =~= o.subrange(k, o.len() as int));
            }
        }
    }
}

/// On a list sorted in the scan's direction, the elements a scan reaches from `cursor` form a
/// suffix; returns where it starts.
proof fn lemma_reach_split(o: Seq<u64>, cursor: Option<u64>, ascending: bool) -> (k: int)
    requires
        scan_sorted(o, ascending),
    ensures
        0 <= k <= o.len(),
        forall|i: int| 0 <= i < o.len() ==> (past_cursor(#[trigger] o[i], cursor, ascending) <==> i >= k),
    decreases o.len(),
{
    if o.len() == 0 {
        0
    } else {
        let pre = o.drop_last();
        assert(forall|i: int| 0 <= i < pre.len() ==> pre[i] == o[i]);
        let k0 = lemma_reach_split(pre, cursor, ascending);
        if past_cursor(o[o.len() - 1], cursor, ascending) {
            k0
        } else {
            assert forall|i: int| 0 <= i < o.len() implies !past_cursor(o[i], cursor, ascending) by {
                if i < o.len() - 1 {
                    assert(if ascending { o[i] < o[o.len() - 1] } else { o[i] > o[o.len() - 1] });
                }
            }
            o.len() as int
        }
    }
}

/// On a strictly ascending id list, what a scan reaches is a suffix of the scan order, from a
/// returned position on.
pub proof fn lemma_remaining_suffix(ids: Seq<u64>, cursor: Option<u64>, ascending: bool) -> (k: int)
    requires
        strictly_ascending(ids),
    ensures
        0 <= k <= ids.len(),
        remaining(ids, cursor, ascending) == scan_order(ids, ascending).subrange(k, ids.len() as int),
        forall|i: int| 0 <= i < ids.len() ==> (past_cursor(
            #[trigger] scan_order(ids, ascending)[i],
            cursor,
            ascending,
        ) <==> i >= k),
{
    let o = scan_order(ids, ascending);
    lemma_scan_order_sorted(ids, ascending);
    let k = lemma_reach_split(o, cursor, ascending);
    lemma_keep_past_from(o, cursor, ascending, k);
    if k >= o.len() {
        assert(o.subrange(k, o.len() as int) =~= Seq::<u64>::empty());
    }
    k
}

/// A page of a strictly ascending id list is strictly ordered in the scan's direction.
pub proof fn lemma_page_sorted(ids: Seq<u64>, cursor: Option<u64>, limit: nat, ascending: bool)
    requires
        strictly_ascending(ids),
    ensures
        scan_sorted(page(ids, cursor, limit, ascending), ascending),
{
    let o = scan_order(ids, ascending);
    lemma_scan_order_sorted(ids, ascending);
    let k = lemma_remaining_suffix(ids, cursor, ascending);
    let p = page(ids, cursor, limit, ascending);
    assert forall|i: int, j: int| 0 <= i < j < p.len() implies (if ascending {
        p[i] < p[j]
    } else {
        p[i] > p[j]
    }) by {
        assert(p[i] == o[k + i] && p[j] == o[k + j]);
    }
}

/// Paging is complete: a short page is the whole rest of the scan, and after a full page the
/// rest of the scan is that page followed by the scan resumed after the page's last id. So
/// pages chained by their last ids list every id once, in scan order.
pub proof fn lemma_page_chain(ids: Seq<u64>, cursor: Option<u64>, limit: nat, ascending: bool)
    requires
        strictly_ascending(ids),
        limit > 0,
    ensures
        ({
            let p = page(ids, cursor, limit, ascending);
            &&& p.len() < limit ==> p == remaining(ids, cursor, ascending)
            &&& p.len() == limit ==> remaining(ids, cursor, ascending) == p + remaining(
                ids,
                Some(p.last()),
                ascending,
            )
        }),
{
    let o = scan_order(ids, ascending);
    let n = ids.len() as int;
    lemma_scan_order_sorted(ids, ascending);
    let k = lemma_remaining_suffix(ids, cursor, ascending);
    let p = page(ids, cursor, limit, ascending);
    let rem = remaining(ids, cursor, ascending);
    if p.len() == limit {
        let last = p.last();
        let e = k + limit - 1;
        assert(last == o[e]);
        let k2 = lemma_remaining_suffix(ids, Some(last), ascending);
        assert forall|i: int| 0 <= i < n implies (past_cursor(o[i], Some(last), ascending) <==> i
            >= e + 1) by {
            if i < e {
                assert(if ascending { o[i] < o[e] } else { o[i] > o[e] });
            } else if i > e {
                assert(if ascending { o[e] < o[i] } else { o[e] > o[i] });
            }
        }
        if k2 < e + 1 {
            assert(past_cursor(o[k2], Some(last), ascending));
        } else if k2 > e + 1 {
            assert(past_cursor(o[e + 1], Some(last), ascending));
        }
        assert(rem =~= p + remaining(ids, Some(last), ascending));
    }
}

/// Every element that a scan keeps comes from the scanned sequence.
pub proof fn lemma_keep_past_within(s: Seq<u64>, cursor: Option<u64>, ascending: bool)
    ensures
        forall|x: u64| #[trigger] keep_past(s, cursor, ascending).contains(x) ==> s.contains(x),
    decreases s.len(),
{
    if s.len() > 0 {
        let pre = s.drop_last();
        lemma_keep_past_within(pre, cursor, ascending);
        let rest = keep_past(pre, cursor, ascending);
        assert forall|x: u64| #[trigger] keep_past(s, cursor, ascending).contains(x) implies s.contains(
            x,
        ) by {
            if rest.contains(x) {
                let j = choose|j: int| 0 <= j < pre.len() && pre[j] == x;
                assert(s[j] == x);
            } else {
                assert(s[s.len() - 1] == x);
            }
        }
    }
}

/// Every id on a page is one of the scanned ids.
pub proof fn lemma_page_within(ids: Seq<u64>, cursor: Option<u64>, limit: nat, ascending: bool)
    ensures
        forall|x: u64| #[trigger] page(ids, cursor, limit, ascending).contains(x) ==> ids.contains(x),
{
    let order = scan_order(ids, ascending);
    let rem = remaining(ids, cursor, ascending);
    lemma_keep_past_within(order, cursor, ascending);
    assert forall|x: u64| #[trigger] page(ids, cursor, limit, ascending).contains(x) implies ids.contains(
        x,
    ) by {
        let p = page(ids, cursor, limit, ascending);
        let j = choose|j: int| 0 <= j < p.len() && p[j] == x;
        assert(rem[j] == x);
        assert(rem.contains(x));
        let m = choose|m: int| 0 <= m < order.len() && order[m] == x;
        if !ascending {
            assert(ids[ids.len() - 1 - m] == x);
        } else {
            assert(ids[m] == x);
        }
    }
}

/// Reads one page of `ids` (an ascending list) from `cursor`, in the given direction.
pub fn page_ids(ids: &Vec<u64>, cursor: Option<u64>, limit: usize, ascending: bool) -> (r: Vec<u64>)
    ensures
        r@ == page(ids@, cursor, limit as nat, ascending),
{
    let ghost order = scan_order(ids@, ascending);
    let mut r: Vec<u64> = Vec::new();
    let n: usize = ids.len();
    let mut k: usize = 0;
    while k < n
        invariant
            n == ids@.len(),
            order == scan_order(ids@, ascending),
            order.len() == n,
            k <= n,
            r@ == first_n(keep_past(order.take(k as int), cursor, ascending), limit as nat),
        decreases n - k,
    {
        let id: u64 = if ascending { ids[k] } else { ids[n - 1 - k] };
        assert(id == order[k as int]);
        let ghost before = keep_past(order.take(k as int), cursor, ascending);
        assert(order.take(k as int + 1).drop_last() =~= order.take(k as int));
        if r.len() < limit {
            if is_past_cursor(id, cursor, ascending) {
                r.push(id);
            }
        } else {
            proof {
                if past_cursor(id, cursor, ascending) {
                    lemma_first_n_push(before, id, limit as nat);
                }
            }
        }
        k = k + 1;
    }
    assert(order.take(n as int) =~= order);
    r
}

} // verus!
