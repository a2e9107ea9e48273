//! Index logic over price series: lagging a series, finding swing highs and lows, and the
//! stable orderings used to rank and list price levels.
//!
//! Prices are compared here through integer keys that order exactly as the prices do
//! (`None` stands for a value that takes part in no comparison, such as a NaN).

use vstd::prelude::*;

verus! {

// ---------------------------------------------------------------------------------------
// Lagging a series
// ---------------------------------------------------------------------------------------

/// shift(k): `out[i] = x[i - k]`, and `fill` for the first `k` positions.
pub fn shift<T: Copy>(x: &[T], k: usize, fill: T) -> (out: Vec<T>)
    ensures
        out@.len() == x@.len(),
        forall|i: int| 0 <= i < x@.len() ==> #[trigger] out@[i] == if i >= k { x@[i - k] } else { fill },
{
    let n = x.len();
    let mut out: Vec<T> = Vec::new();
    let mut i: usize = 0;
    while i < n
        invariant
            n == x@.len(),
            i <= n,
            out@.len() == i,
            forall|j: int| 0 <= j < i ==> #[trigger] out@[j] == if j >= k { x@[j - k] } else { fill },
        decreases n - i,
    {
        if i >= k {
            out.push(x[i - k]);
        } else {
            out.push(fill);
        }
        i = i + 1;
    }
    out
}

// ---------------------------------------------------------------------------------------
// Swing highs and lows
// ---------------------------------------------------------------------------------------

/// Key `a` orders strictly below key `b`; a missing key orders below every present one.
pub open spec fn key_less(a: Option<i64>, b: Option<i64>) -> bool {
    match (a, b) {
        (None, Some(_)) => true,
        (Some(x), Some(y)) => x < y,
        _ => false,
    }
}

/// Bar `i` is a swing high (`high`) or swing low (`!high`) in a window of `w` bars each
/// side: its key is present and no present key in the window is above it (below it).
pub open spec fn is_swing(keys: Seq<Option<i64>>, i: int, w: int, high: bool) -> bool {
    &&& keys[i] is Some
    &&& forall|j: int|
        i - w <= j <= i + w ==> match #[trigger] keys[j] {
            Some(k) => if high {
                k <= keys[i]->0
            } else {
                k >= keys[i]->0
            },
            None => true,
        }
}

/// The swing bars among `w..m`, in increasing order.
pub open spec fn swings_upto(keys: Seq<Option<i64>>, w: int, high: bool, m: int) -> Seq<usize>
    decreases m - w,
{
    if m <= w {
        seq![]
    } else {
        let prev = swings_upto(keys, w, high, m - 1);
        if is_swing(keys, m - 1, w, high) {
            prev.push((m - 1) as usize)
        } else {
            prev
        }
    }
}

/// Whether bar `i` is a swing bar.
fn swing_at(keys: &Vec<Option<i64>>, i: usize, w: usize, high: bool) -> (r: bool)
    requires
        w <= i,
        i + w < keys.len(),
    ensures
        r == is_swing(keys@, i as int, w as int, high),
{
    let center = match keys[i] {
        Some(k) => k,
        None => {
            return false;
        },
    };
    let mut j = i - w;
    let end = i + w;
    while j <= end
        invariant
            i - w <= j <= end + 1,
            end == i + w,
            end < keys.len(),
            keys@[i as int] == Some(center),
            forall|m: int|
                i - w <= m < j ==> match #[trigger] keys@[m] {
                    Some(k) => if high {
                        k <= center
                    } else {
                        k >= center
                    },
                    None => true,
                },
        decreases end + 1 - j,
    {
        match keys[j] {
            Some(k) => {
                if (high && k > center) || (!high && k < center) {
                    assert(!is_swing(keys@, i as int, w as int, high)) by {
                        let jj = j as int;
                        assert(i - w <= jj <= i + w);
                    }
                    return false;
                }
            },
            None => {},
        }
        j = j + 1;
    }
    true
}

/// Local swing highs and lows with `window` bars each side: the indices of the bars whose
/// high is the highest, and whose low is the lowest, in their window; none when there are
/// fewer than `2 * window + 1` bars.
pub fn swing_levels(high_keys: &Vec<Option<i64>>, low_keys: &Vec<Option<i64>>, window: usize) -> (r: (
    Vec<usize>,
    Vec<usize>,
))
    requires
        low_keys@.len() == high_keys@.len(),
    ensures
        high_keys@.len() < 2 * window + 1 ==> r.0@.len() == 0 && r.1@.len() == 0,
        high_keys@.len() >= 2 * window + 1 ==> {
            &&& r.0@ == swings_upto(high_keys@, window as int, true, high_keys@.len() - window)
            &&& r.1@ == swings_upto(low_keys@, window as int, false, high_keys@.len() - window)
        },
{
    let mut highs: Vec<usize> = Vec::new();
    let mut lows: Vec<usize> = Vec::new();
    let n = high_keys.len();
    if window >= n || n - window <= window {
        return (highs, lows);
    }
    let stop = n - window;
    let mut i = window;
    while i < stop
        invariant
            n == high_keys@.len(),
            n == low_keys@.len(),
            stop == n - window,
            window <= i <= stop,
            highs@ == swings_upto(high_keys@, window as int, true, i as int),
            lows@ == swings_upto(low_keys@, window as int, false, i as int),
        decreases stop - i,
    {
        if swing_at(high_keys, i, window, true) {
            highs.push(i);
        }
        if swing_at(low_keys, i, window, false) {
            lows.push(i);
        }
        i = i + 1;
    }
    (highs, lows)
}


/// The window condition of a swing bar, written out: bar `i` has a key, and every present
/// key from bar `i - w` to bar `i + w` inclusive is at most it (a swing high) or at least it
/// (a swing low).
pub open spec fn extreme_in_window(keys: Seq<Option<i64>>, i: int, w: int, high: bool) -> bool {
    &&& keys[i] is Some
    &&& forall|j: int|
        #![trigger keys[j]]
        i - w <= j && j <= i + w && keys[j] is Some ==> if high {
            keys[j]->0 <= keys[i]->0
        } else {
            keys[j]->0 >= keys[i]->0
        }
}

/// The swing bars are exactly the bars of `w..m`, in increasing order, whose key is the
/// highest (lowest) present key in the inclusive window of `w` bars on each side: a bar
/// with a higher (lower) key anywhere in that window, the last bar `i + w` included, is
/// never reported, and every bar that is such an extreme is reported.
pub proof fn lemma_swings_exact(keys: Seq<Option<i64>>, w: int, high: bool, m: int)
    requires
        0 <= w,
        m + w <= keys.len(),
        keys.len() <= usize::MAX,
    ensures
        forall|p: int, q: int|
            0 <= p < q < swings_upto(keys, w, high, m).len() ==> #[trigger] swings_upto(keys, w, high, m)[p]
                < #[trigger] swings_upto(keys, w, high, m)[q],
        forall|p: int|
            0 <= p < swings_upto(keys, w, high, m).len() ==> {
                let i = #[trigger] swings_upto(keys, w, high, m)[p] as int;
                w <= i < m && extreme_in_window(keys, i, w, high)
            },
        forall|i: int|
            w <= i < m && extreme_in_window(keys, i, w, high) ==> #[trigger] swings_upto(keys, w, high, m).contains(
                i as usize,
            ),
    decreases m - w,
{
    if m > w {
        lemma_swings_exact(keys, w, high, m - 1);
        let prev = swings_upto(keys, w, high, m - 1);
        let cur = swings_upto(keys, w, high, m);
        assert(is_swing(keys, m - 1, w, high) == extreme_in_window(keys, m - 1, w, high)) by {
            if is_swing(keys, m - 1, w, high) {
                assert forall|j: int|
                    #![trigger keys[j]]
                    m - 1 - w <= j && j <= m - 1 + w && keys[j] is Some implies if high {
                    keys[j]->0 <= keys[m - 1]->0
                } else {
                    keys[j]->0 >= keys[m - 1]->0
                } by {
                    assert(match keys[j] {
                        Some(k) => if high { k <= keys[m - 1]->0 } else { k >= keys[m - 1]->0 },
                        None => true,
                    });
                }
            }
            if extreme_in_window(keys, m - 1, w, high) {
                assert forall|j: int| m - 1 - w <= j <= m - 1 + w implies match #[trigger] keys[j] {
                    Some(k) => if high { k <= keys[m - 1]->0 } else { k >= keys[m - 1]->0 },
                    None => true,
                } by {
                    if keys[j] is Some {
                        assert(if high { keys[j]->0 <= keys[m - 1]->0 } else { keys[j]->0 >= keys[m - 1]->0 });
                    }
                }
            }
        }
        assert forall|p: int, q: int| 0 <= p < q < cur.len() implies #[trigger] cur[p] < #[trigger] cur[q] by {
            if q < prev.len() {
                assert(cur[p] == prev[p] && cur[q] == prev[q]);
            } else {
                assert(cur[p] == prev[p]);
                let pp = cur[p] as int;
                assert(pp < m - 1);
            }
        }
        assert forall|p: int| 0 <= p < cur.len() implies {
            let i = #[trigger] cur[p] as int;
            w <= i < m && extreme_in_window(keys, i, w, high)
        } by {
            if p < prev.len() {
                assert(cur[p] == prev[p]);
            }
        }
        assert forall|i: int| w <= i < m && extreme_in_window(keys, i, w, high) implies #[trigger] cur.contains(
            i as usize,
        ) by {
            if i < m - 1 {
                assert(prev.contains(i as usize));
                let k = choose|k: int| 0 <= k < prev.len() && prev[k] == i as usize;
                assert(cur[k] == prev[k]);
            } else {
                assert(cur[cur.len() - 1] == i as usize);
            }
        }
    }
}

// ---------------------------------------------------------------------------------------
// Stable ordering by key
// ---------------------------------------------------------------------------------------

/// Item `i` ranks strictly ahead of item `j` by key (larger keys first when `descending`).
pub open spec fn ranks_before(keys: Seq<Option<i64>>, i: int, j: int, descending: bool) -> bool {
    if descending {
        key_less(keys[j], keys[i])
    } else {
        key_less(keys[i], keys[j])
    }
}

/// Item `i` comes before item `j` in a stable sort: a strictly better key, or an equal key
/// and an earlier position.
pub open spec fn precedes(keys: Seq<Option<i64>>, i: int, j: int, descending: bool) -> bool {
    ranks_before(keys, i, j, descending) || (keys[i] == keys[j] && i < j)
}

/// `s` with item `i` placed before the first item that it ranks ahead of.
pub open spec fn insert_sorted(s: Seq<usize>, i: usize, keys: Seq<Option<i64>>, descending: bool) -> Seq<usize>
    decreases s.len(),
{
    if s.len() == 0 {
        seq![i]
    } else if ranks_before(keys, i as int, s[0] as int, descending) {
        seq![i] + s
    } else {
        seq![s[0]] + insert_sorted(s.drop_first(), i, keys, descending)
    }
}

/// The first `n` items in stable sorted order (what `sort_by` gives).
pub open spec fn stable_sorted(keys: Seq<Option<i64>>, n: nat, descending: bool) -> Seq<usize>
    decreases n,
{
    if n == 0 {
        seq![]
    } else {
        insert_sorted(stable_sorted(keys, (n - 1) as nat, descending), (n - 1) as usize, keys, descending)
    }
}

/// A sequence of item indices is in stable sorted order.
pub open spec fn is_stably_sorted(s: Seq<usize>, keys: Seq<Option<i64>>, descending: bool) -> bool {
    forall|p: int, q: int|
        0 <= p < q < s.len() ==> precedes(keys, #[trigger] s[p] as int, #[trigger] s[q] as int, descending)
}

/// Inserting at the first position whose item `i` ranks ahead of.
proof fn lemma_insert_at(s: Seq<usize>, i: usize, keys: Seq<Option<i64>>, descending: bool, pos: int)
    requires
        0 <= pos <= s.len(),
        forall|p: int| 0 <= p < pos ==> !ranks_before(keys, i as int, #[trigger] s[p] as int, descending),
        pos < s.len() ==> ranks_before(keys, i as int, s[pos] as int, descending),
    ensures
        insert_sorted(s, i, keys, descending) == s.take(pos).push(i) + s.skip(pos),
    decreases s.len(),
{
    if s.len() == 0 {
        assert(s.take(pos).push(i) + s.skip(pos) == seq![i]);
    } else if pos == 0 {
        assert(s.take(0).push(i) + s.skip(0) == seq![i] + s);
    } else {
        let rest = s.drop_first();
        assert forall|p: int| 0 <= p < pos - 1 implies !ranks_before(keys, i as int, #[trigger] rest[p] as int, descending) by {
            assert(rest[p] == s[p + 1]);
        }
        lemma_insert_at(rest, i, keys, descending, pos - 1);
        assert(seq![s[0]] + (rest.take(pos - 1).push(i) + rest.skip(pos - 1)) == s.take(pos).push(i)
            + s.skip(pos));
    }
}

/// Inserting a later item into a stably sorted sequence keeps it stably sorted, and adds
/// exactly that item.
proof fn lemma_insert_sorted(s: Seq<usize>, i: usize, keys: Seq<Option<i64>>, descending: bool)
    requires
        is_stably_sorted(s, keys, descending),
        forall|p: int| 0 <= p < s.len() ==> #[trigger] s[p] < i,
    ensures
        insert_sorted(s, i, keys, descending).len() == s.len() + 1,
        is_stably_sorted(insert_sorted(s, i, keys, descending), keys, descending),
        forall|x: usize| #[trigger] insert_sorted(s, i, keys, descending).contains(x) <==> (s.contains(x) || x == i),
    decreases s.len(),
{
    let r = insert_sorted(s, i, keys, descending);
    if s.len() == 0 {
        assert(r == seq![i]);
        assert forall|x: usize| #[trigger] r.contains(x) <==> (s.contains(x) || x == i) by {
            if r.contains(x) {
                let k = choose|k: int| 0 <= k < r.len() && r[k] == x;
            }
            if x == i {
                assert(r[0] == x);
            }
        }
    } else if ranks_before(keys, i as int, s[0] as int, descending) {
        assert(r == seq![i] + s);
        assert forall|p: int, q: int| 0 <= p < q < r.len() implies precedes(keys, #[trigger] r[p] as int, #[trigger] r[q] as int, descending) by {
            if p == 0 {
                assert(r[q] == s[q - 1]);
                if q - 1 > 0 {
                    assert(precedes(keys, s[0] as int, s[q - 1] as int, descending));
                }
            } else {
                assert(r[p] == s[p - 1]);
                assert(r[q] == s[q - 1]);
            }
        }
        assert forall|x: usize| #[trigger] r.contains(x) <==> (s.contains(x) || x == i) by {
            if r.contains(x) {
                let k = choose|k: int| 0 <= k < r.len() && r[k] == x;
                if k > 0 {
                    assert(s[k - 1] == x);
                }
            }
            if s.contains(x) {
                let k = choose|k: int| 0 <= k < s.len() && s[k] == x;
                assert(r[k + 1] == x);
            }
            if x == i {
                assert(r[0] == x);
            }
        }
    } else {
        let rest = s.drop_first();
        assert forall|p: int, q: int| 0 <= p < q < rest.len() implies precedes(keys, #[trigger] rest[p] as int, #[trigger] rest[q] as int, descending) by {
            assert(rest[p] == s[p + 1]);
            assert(rest[q] == s[q + 1]);
        }
        assert forall|p: int| 0 <= p < rest.len() implies #[trigger] rest[p] < i by {
            assert(rest[p] == s[p + 1]);
        }
        lemma_insert_sorted(rest, i, keys, descending);
        let t = insert_sorted(rest, i, keys, descending);
        assert(r == seq![s[0]] + t);
        assert forall|p: int, q: int| 0 <= p < q < r.len() implies precedes(keys, #[trigger] r[p] as int, #[trigger] r[q] as int, descending) by {
            if p == 0 {
                assert(r[q] == t[q - 1]);
                assert(t.contains(t[q - 1]));
                if rest.contains(t[q - 1]) {
                    let k = choose|k: int| 0 <= k < rest.len() && rest[k] == t[q - 1];
                    assert(s[k + 1] == t[q - 1]);
                    assert(precedes(keys, s[0] as int, s[k + 1] as int, descending));
                } else {
                    assert(t[q - 1] == i);
                }
            } else {
                assert(r[p] == t[p - 1]);
                assert(r[q] == t[q - 1]);
            }
        }
        assert forall|x: usize| #[trigger] r.contains(x) <==> (s.contains(x) || x == i) by {
            if r.contains(x) {
                let k = choose|k: int| 0 <= k < r.len() && r[k] == x;
                if k > 0 {
                    assert(t[k - 1] == x);
                    assert(t.contains(x));
                    if rest.contains(x) {
                        let m = choose|m: int| 0 <= m < rest.len() && rest[m] == x;
                        assert(s[m + 1] == x);
                    }
                } else {
                    assert(s[0] == x);
                }
            }
            if s.contains(x) {
                let k = choose|k: int| 0 <= k < s.len() && s[k] == x;
                if k == 0 {
                    assert(r[0] == x);
                } else {
                    assert(rest[k - 1] == x);
                    assert(rest.contains(x));
                    assert(t.contains(x));
                    let m = choose|m: int| 0 <= m < t.len() && t[m] == x;
                    assert(r[m + 1] == x);
                }
            }
            if x == i {
                assert(t.contains(x));
                let m = choose|m: int| 0 <= m < t.len() && t[m] == x;
                assert(r[m + 1] == x);
            }
        }
    }
}

/// The stable sorted order of `0..n` is sorted and holds each index below `n` once.
pub proof fn lemma_stable_sorted(keys: Seq<Option<i64>>, n: nat, descending: bool)
    requires
        n <= usize::MAX,
    ensures
        stable_sorted(keys, n, descending).len() == n,
        is_stably_sorted(stable_sorted(keys, n, descending), keys, descending),
        forall|x: usize| #[trigger] stable_sorted(keys, n, descending).contains(x) <==> x < n,
    decreases n,
{
    if n > 0 {
        let prev = stable_sorted(keys, (n - 1) as nat, descending);
        lemma_stable_sorted(keys, (n - 1) as nat, descending);
        assert forall|p: int| 0 <= p < prev.len() implies #[trigger] prev[p] < (n - 1) as usize by {
            assert(prev.contains(prev[p]));
        }
        lemma_insert_sorted(prev, (n - 1) as usize, keys, descending);
    }
}

/// The positions `0..keys.len()` in stable sorted order of their keys (ascending, or
/// descending when `descending`; missing keys order lowest), as `sort_by` with a key
/// comparison leaves them: a permutation in which no item precedes one with a better key,
/// and items with equal keys keep their relative order.
pub fn stable_order(keys: &Vec<Option<i64>>, descending: bool) -> (out: Vec<usize>)
    ensures
        out@ == stable_sorted(keys@, keys@.len(), descending),
        out@.len() == keys@.len(),
        is_stably_sorted(out@, keys@, descending),
        forall|x: usize| #[trigger] out@.contains(x) <==> x < keys@.len(),
{
    let n = keys.len();
    let mut out: Vec<usize> = Vec::new();
    let mut i: usize = 0;
    while i < n
        invariant
            n == keys@.len(),
            i <= n,
            out@ == stable_sorted(keys@, i as nat, descending),
        decreases n - i,
    {
        proof {
            lemma_stable_sorted(keys@, i as nat, descending);
            assert forall|p: int| 0 <= p < out@.len() implies #[trigger] out@[p] < n by {
                assert(out@.contains(out@[p]));
            }
        }
        let mut pos: usize = 0;
        while pos < out.len() && !key_ranks_before(keys, i, out[pos], descending)
            invariant
                n == keys@.len(),
                i < n,
                pos <= out@.len(),
                forall|p: int| 0 <= p < out@.len() ==> #[trigger] out@[p] < n,
                forall|p: int| 0 <= p < pos ==> !ranks_before(keys@, i as int, #[trigger] out@[p] as int, descending),
            decreases out@.len() - pos,
        {
            pos = pos + 1;
        }
        let ghost before = out@;
        proof {
            lemma_insert_at(before, i, keys@, descending, pos as int);
        }
        out.insert(pos, i);
        assert(out@ == before.take(pos as int).push(i) + before.skip(pos as int));
        i = i + 1;
    }
    proof {
        lemma_stable_sorted(keys@, n as nat, descending);
    }
    out
}

/// Whether item `i` ranks strictly ahead of item `j`.
fn key_ranks_before(keys: &Vec<Option<i64>>, i: usize, j: usize, descending: bool) -> (r: bool)
    requires
        i < keys@.len(),
        j < keys@.len(),
    ensures
        r == ranks_before(keys@, i as int, j as int, descending),
{
    let (a, b) = if descending {
        (keys[j], keys[i])
    } else {
        (keys[i], keys[j])
    };
    match (a, b) {
        (None, Some(_)) => true,
        (Some(x), Some(y)) => x < y,
        _ => false,
    }
}

// ---------------------------------------------------------------------------------------
// Sorted, de-duplicated level lists
// ---------------------------------------------------------------------------------------

/// `order` with every item dropped whose cents key equals that of the last item kept
/// before it (what `dedup_by_key` does).
pub open spec fn dedup_adjacent(order: Seq<usize>, cents: Seq<i64>) -> Seq<usize>
    decreases order.len(),
{
    if order.len() == 0 {
        seq![]
    } else {
        let prev = dedup_adjacent(order.drop_last(), cents);
        if prev.len() > 0 && cents[prev.last() as int] == cents[order.last() as int] {
            prev
        } else {
            prev.push(order.last())
        }
    }
}

/// Neighbouring items that `dedup_adjacent` keeps have different cents keys, and it keeps
/// the first item, when there is one.
pub proof fn lemma_dedup_adjacent(order: Seq<usize>, cents: Seq<i64>)
    ensures
        dedup_adjacent(order, cents).len() <= order.len(),
        order.len() > 0 ==> dedup_adjacent(order, cents).len() > 0 && dedup_adjacent(order, cents)[0]
            == order[0],
        forall|p: int|
            0 <= p < dedup_adjacent(order, cents).len() - 1 ==> cents[#[trigger] dedup_adjacent(order, cents)[p] as int]
                != cents[dedup_adjacent(order, cents)[p + 1] as int],
        forall|p: int|
            0 <= p < dedup_adjacent(order, cents).len() ==> order.contains(#[trigger] dedup_adjacent(order, cents)[p]),
    decreases order.len(),
{
    if order.len() > 0 {
        let init = order.drop_last();
        lemma_dedup_adjacent(init, cents);
        let prev = dedup_adjacent(init, cents);
        let cur = dedup_adjacent(order, cents);
        assert forall|p: int| 0 <= p < cur.len() implies order.contains(#[trigger] cur[p]) by {
            if p < prev.len() {
                assert(cur[p] == prev[p]);
                assert(init.contains(prev[p]));
                let k = choose|k: int| 0 <= k < init.len() && init[k] == prev[p];
                assert(order[k] == prev[p]);
            } else {
                assert(cur[p] == order.last());
                assert(order[order.len() - 1] == order.last());
            }
        }
        if init.len() == 0 {
            assert(prev.len() == 0);
            assert(cur == seq![order.last()]);
        } else {
            assert(init[0] == order[0]);
        }
    }
}

/// Items in stable ascending order of their keys, with each run of equal cents keys cut to
/// its first item; reversed at the end when not `ascending`.
pub open spec fn dedup_sorted(keys: Seq<Option<i64>>, cents: Seq<i64>, ascending: bool) -> Seq<usize> {
    let d = dedup_adjacent(stable_sorted(keys, keys.len(), false), cents);
    if ascending {
        d
    } else {
        d.reverse()
    }
}

/// The positions of the price levels to list: sorted ascending by price, a level dropped
/// when it rounds to the same cent as the last level kept, and the list reversed when
/// `ascending` is false.
pub fn dedup_sort_order(keys: &Vec<Option<i64>>, cents: &Vec<i64>, ascending: bool) -> (out: Vec<usize>)
    requires
        cents@.len() == keys@.len(),
    ensures
        out@ == dedup_sorted(keys@, cents@, ascending),
        forall|p: int| 0 <= p < out@.len() ==> #[trigger] out@[p] < keys@.len(),
        forall|p: int|
            0 <= p < out@.len() - 1 ==> cents@[#[trigger] out@[p] as int] != cents@[out@[p + 1] as int],
{
    let order = stable_order(keys, false);
    let ghost sorted = order@;
    let mut kept: Vec<usize> = Vec::new();
    let mut k: usize = 0;
    while k < order.len()
        invariant
            sorted == order@,
            k <= order@.len(),
            forall|x: usize| #[trigger] order@.contains(x) <==> x < keys@.len(),
            cents@.len() == keys@.len(),
            kept@ == dedup_adjacent(order@.take(k as int), cents@),
        decreases order.len() - k,
    {
        proof {
            lemma_dedup_adjacent(order@.take(k as int), cents@);
            assert(order@.contains(order@[k as int]));
        }
        assert(order@.take(k + 1).drop_last() == order@.take(k as int));
        assert(order@.take(k + 1).last() == order@[k as int]);
        let item = order[k];
        if kept.len() > 0 {
            let last = kept[kept.len() - 1];
            assert(order@.take(k as int).contains(last));
            assert(order@.contains(last)) by {
                let m = choose|m: int| 0 <= m < k && order@.take(k as int)[m] == last;
                assert(order@[m] == last);
            }
            if cents[last] == cents[item] {
                k = k + 1;
                continue;
            }
        }
        kept.push(item);
        k = k + 1;
    }
    assert(order@.take(order.len() as int) == order@);
    proof {
        lemma_dedup_adjacent(order@, cents@);
        assert forall|p: int| 0 <= p < kept@.len() implies #[trigger] kept@[p] < keys@.len() by {
            assert(order@.contains(kept@[p]));
        }
    }
    if ascending {
        kept
    } else {
        let mut rev: Vec<usize> = Vec::new();
        let mut j = kept.len();
        while j > 0
            invariant
                j <= kept@.len(),
                rev@ == kept@.skip(j as int).reverse(),
            decreases j,
        {
            j = j - 1;
            rev.push(kept[j]);
            assert(kept@.skip(j as int).reverse() == kept@.skip(j + 1).reverse().push(kept@[j as int]));
        }
        assert(kept@.skip(0) == kept@);
        proof {
            assert forall|p: int| 0 <= p < rev@.len() - 1 implies cents@[#[trigger] rev@[p] as int]
                != cents@[rev@[p + 1] as int] by {
                let q = kept@.len() - 2 - p;
                assert(rev@[p] == kept@[q + 1]);
                assert(rev@[p + 1] == kept@[q]);
            }
        }
        rev
    }
}

} // verus!
