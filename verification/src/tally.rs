use vstd::prelude::*;

verus! {

/// A key that a tally tells apart from another by its view.
pub trait TallyKey: View + Sized {
    fn same_key(&self, other: &Self) -> (b: bool)
        ensures
            b == (self@ == other@),
    ;

    fn copy_key(&self) -> (r: Self)
        ensures
            r@ == self@,
    ;
}

impl TallyKey for u64 {
    fn same_key(&self, other: &Self) -> (b: bool) {
        *self == *other
    }

    fn copy_key(&self) -> (r: Self) {
        *self
    }
}

impl TallyKey for String {
    fn same_key(&self, other: &Self) -> (b: bool) {
        crate::text::str_eq(self.as_str(), other.as_str())
    }

    fn copy_key(&self) -> (r: Self) {
        self.clone()
    }
}

/// The time that the contributions `c` give the key `k`.
pub open spec fn sum_for<V>(c: Seq<(V, u64)>, k: V) -> nat
    decreases c.len(),
{
    if c.len() == 0 {
        0
    } else {
        sum_for(c.drop_last(), k) + if c.last().0 == k { c.last().1 as nat } else { 0 }
    }
}

/// The time of all contributions.
pub open spec fn sum_all<V>(c: Seq<(V, u64)>) -> nat
    decreases c.len(),
{
    if c.len() == 0 {
        0
    } else {
        sum_all(c.drop_last()) + c.last().1 as nat
    }
}

/// The keys that the contributions name, in their order.
pub open spec fn keys_of<V>(c: Seq<(V, u64)>) -> Seq<V> {
    c.map_values(|e: (V, u64)| e.0)
}

pub proof fn lemma_sum_for_le_all<V>(c: Seq<(V, u64)>, k: V)
    ensures
        sum_for(c, k) <= sum_all(c),
    decreases c.len(),
{
    if c.len() > 0 {
        lemma_sum_for_le_all(c.drop_last(), k);
    }
}

pub proof fn lemma_sum_concat<V>(a: Seq<(V, u64)>, b: Seq<(V, u64)>)
    ensures
        sum_all(a + b) == sum_all(a) + sum_all(b),
        forall|k: V| #[trigger] sum_for(a + b, k) == sum_for(a, k) + sum_for(b, k),
    decreases b.len(),
{
    if b.len() == 0 {
        assert(a + b =~= a);
    } else {
        lemma_sum_concat(a, b.drop_last());
        assert((a + b).drop_last() =~= a + b.drop_last());
        assert((a + b).last() == b.last());
        assert forall|k: V| #[trigger] sum_for(a + b, k) == sum_for(a, k) + sum_for(b, k) by {
            assert(sum_for(a + b.drop_last(), k) == sum_for(a, k) + sum_for(b.drop_last(), k));
        }
    }
}

pub proof fn lemma_sum_single<V>(k: V, dt: u64, x: V)
    ensures
        sum_for(seq![(k, dt)], x) == if k == x { dt as nat } else { 0 },
{
    let s = seq![(k, dt)];
    assert(s.drop_last() =~= Seq::<(V, u64)>::empty());
    assert(sum_for(s.drop_last(), x) == 0);
    assert(s.last() == (k, dt));
}

pub proof fn lemma_sum_all_push<V>(c: Seq<(V, u64)>, e: (V, u64))
    ensures
        sum_all(c.push(e)) == sum_all(c) + e.1,
        forall|k: V| sum_for(c.push(e), k) == sum_for(c, k) + if e.0 == k { e.1 as nat } else { 0 },
{
    assert(c.push(e).drop_last() =~= c);
}

/// The views of a sequence of keys.
pub open spec fn key_views<K: View>(keys: Seq<K>) -> Seq<K::V> {
    keys.map_values(|k: K| k@)
}

/// `(keys, times)` is the tally of the contributions `c`: each key that `c`
/// names once, in no particular order, with the sum of its contributions.
pub open spec fn tallies<V>(keys: Seq<V>, times: Seq<u64>, c: Seq<(V, u64)>) -> bool {
    &&& keys.len() == times.len()
    &&& keys.no_duplicates()
    &&& forall|i: int| 0 <= i < keys.len() ==> #[trigger] times[i] == sum_for(c, keys[i])
    &&& forall|i: int| 0 <= i < keys.len() ==> keys_of(c).contains(#[trigger] keys[i])
    &&& forall|j: int| 0 <= j < c.len() ==> keys.contains(#[trigger] c[j].0)
}

/// Adds the contribution `(key, dt)` to the tally of `c`.
pub(crate) fn tally_add<K: TallyKey>(
    keys: &mut Vec<K>,
    times: &mut Vec<u64>,
    key: K,
    dt: u64,
    Ghost(c): Ghost<Seq<(K::V, u64)>>,
)
    requires
        tallies(key_views(old(keys)@), old(times)@, c),
        sum_for(c, key@) + dt <= u64::MAX,
    ensures
        tallies(key_views(final(keys)@), final(times)@, c.push((key@, dt))),
        final(keys)@.len() == old(keys)@.len() || (final(keys)@.len() == old(keys)@.len() + 1
            && key_views(final(keys)@)[old(keys)@.len() as int] == key@),
        forall|i: int| 0 <= i < old(keys)@.len() ==> final(keys)@[i] == old(keys)@[i],
{
    let ghost c2 = c.push((key@, dt));
    let ghost ks0 = key_views(keys@);
    proof {
        lemma_sum_all_push(c, (key@, dt));
        assert(keys_of(c2) =~= keys_of(c).push(key@));
    }
    let mut i: usize = 0;
    while i < keys.len()
        invariant
            i <= keys@.len(),
            keys@.len() == times@.len(),
            forall|j: int| 0 <= j < i ==> key_views(keys@)[j] != key@,
            key_views(keys@) == ks0,
            tallies(ks0, times@, c),
            times@ == old(times)@,
            keys@ == old(keys)@,
            sum_for(c, key@) + dt <= u64::MAX,
            c2 == c.push((key@, dt)),
        decreases keys.len() - i,
    {
        if keys[i].same_key(&key) {
            proof {
                lemma_sum_all_push(c, (key@, dt));
                assert(keys_of(c2) =~= keys_of(c).push(key@));
            }
            let ghost old_times = times@;
            let t = times[i] + dt;
            times.set(i, t);
            let ghost ks = key_views(keys@);
            assert forall|j: int| 0 <= j < keys@.len() implies #[trigger] times@[j] == sum_for(c2, ks[j]) by {
                assert(old_times[j] == sum_for(c, ks0[j]));
                if j != i {
                    assert(ks[j] != key@);
                }
            }
            assert forall|j: int| 0 <= j < keys@.len() implies keys_of(c2).contains(#[trigger] ks[j]) by {
                assert(keys_of(c).contains(ks[j]));
                let w = choose|w: int| 0 <= w < keys_of(c).len() && keys_of(c)[w] == ks[j];
                assert(keys_of(c2)[w] == ks[j]);
            }
            assert forall|j: int| 0 <= j < c2.len() implies ks.contains(#[trigger] c2[j].0) by {
                if j == c.len() {
                    assert(ks[i as int] == key@);
                } else {
                    assert(c2[j] == c[j]);
                }
            }
            return;
        }
        i = i + 1;
    }
    proof {
        assert(!ks0.contains(key@));
        // the key is new: no contribution named it before
        if keys_of(c).contains(key@) {
            let w = choose|w: int| 0 <= w < keys_of(c).len() && keys_of(c)[w] == key@;
            assert(c[w].0 == key@);
            assert(ks0.contains(c[w].0));
        }
        lemma_sum_for_absent(c, key@);
    }
    keys.push(key);
    times.push(dt);
    let ghost ks = key_views(keys@);
    assert(ks =~= ks0.push(key@));
    assert forall|j: int| 0 <= j < keys@.len() implies #[trigger] times@[j] == sum_for(c2, ks[j]) by {
        if j < ks0.len() {
            assert(ks[j] == ks0[j]);
        }
    }
    assert forall|j: int| 0 <= j < keys@.len() implies keys_of(c2).contains(#[trigger] ks[j]) by {
        if j < ks0.len() {
            assert(keys_of(c).contains(ks0[j]));
            let w = choose|w: int| 0 <= w < keys_of(c).len() && keys_of(c)[w] == ks0[j];
            assert(keys_of(c2)[w] == ks[j]);
        } else {
            assert(keys_of(c2)[c.len() as int] == key@);
        }
    }
    assert forall|j: int| 0 <= j < c2.len() implies ks.contains(#[trigger] c2[j].0) by {
        if j == c.len() {
            assert(ks[ks0.len() as int] == key@);
        } else {
            assert(c2[j] == c[j]);
            assert(ks0.contains(c[j].0));
            let w = choose|w: int| 0 <= w < ks0.len() && ks0[w] == c[j].0;
            assert(ks[w] == c[j].0);
        }
    }
}

/// Adds the contribution `(key, dt)` to the tally of `c`, unless the key's
/// sum would then exceed a `u64`: false then, with the tally left as it was.
pub(crate) fn tally_add_checked<K: TallyKey>(
    keys: &mut Vec<K>,
    times: &mut Vec<u64>,
    key: K,
    dt: u64,
    Ghost(c): Ghost<Seq<(K::V, u64)>>,
) -> (ok: bool)
    requires
        tallies(key_views(old(keys)@), old(times)@, c),
    ensures
        ok == (sum_for(c, key@) + dt <= u64::MAX),
        ok ==> tallies(key_views(final(keys)@), final(times)@, c.push((key@, dt))),
        !ok ==> final(keys)@ == old(keys)@ && final(times)@ == old(times)@,
{
    let mut i: usize = 0;
    while i < keys.len() && !keys[i].same_key(&key)
        invariant
            i <= keys@.len(),
            keys@.len() == times@.len(),
            forall|j: int| 0 <= j < i ==> key_views(keys@)[j] != key@,
        decreases keys.len() - i,
    {
        i = i + 1;
    }
    let current: u64 = if i < keys.len() { times[i] } else { 0 };
    proof {
        if i < keys.len() {
            assert(key_views(keys@)[i as int] == key@);
            assert(times@[i as int] == sum_for(c, key_views(keys@)[i as int]));
        } else {
            if keys_of(c).contains(key@) {
                let w = choose|w: int| 0 <= w < keys_of(c).len() && keys_of(c)[w] == key@;
                assert(c[w].0 == key@);
                assert(key_views(keys@).contains(c[w].0));
                let q = choose|q: int| 0 <= q < key_views(keys@).len() && key_views(keys@)[q] == c[w].0;
                assert(false);
            }
            lemma_sum_for_absent(c, key@);
        }
    }
    if current > u64::MAX - dt {
        return false;
    }
    tally_add(keys, times, key, dt, Ghost(c));
    true
}

pub proof fn lemma_sum_for_absent<V>(c: Seq<(V, u64)>, k: V)
    requires
        !keys_of(c).contains(k),
    ensures
        sum_for(c, k) == 0,
    decreases c.len(),
{
    if c.len() > 0 {
        let d = c.drop_last();
        if keys_of(d).contains(k) {
            let w = choose|w: int| 0 <= w < keys_of(d).len() && keys_of(d)[w] == k;
            assert(keys_of(c)[w] == k);
        }
        assert(keys_of(c)[c.len() - 1] == c.last().0);
        lemma_sum_for_absent(d, k);
    }
}

/// Each key with its time, as contributions.
pub open spec fn zip_entries<V>(keys: Seq<V>, times: Seq<u64>) -> Seq<(V, u64)> {
    Seq::new(keys.len(), |i: int| (keys[i], times[i]))
}

/// Distinct keys with their times are the tally of themselves.
pub proof fn lemma_zip_tallies<V>(keys: Seq<V>, times: Seq<u64>)
    requires
        keys.len() == times.len(),
        keys.no_duplicates(),
    ensures
        tallies(keys, times, zip_entries(keys, times)),
    decreases keys.len(),
{
    let c = zip_entries(keys, times);
    if keys.len() > 0 {
        let n = keys.len() - 1;
        let k0 = keys.drop_last();
        let t0 = times.drop_last();
        assert(k0.no_duplicates()) by {
            assert forall|a: int, b: int| 0 <= a < b < k0.len() implies k0[a] != k0[b] by {
                assert(k0[a] == keys[a] && k0[b] == keys[b]);
            }
        }
        lemma_zip_tallies(k0, t0);
        assert(c.drop_last() =~= zip_entries(k0, t0));
        assert(keys_of(c) =~= keys);
        assert forall|i: int| 0 <= i < keys.len() implies #[trigger] times[i] == sum_for(c, keys[i]) by {
            if i < n {
                assert(keys[n] != keys[i]);
                assert(k0[i] == keys[i]);
            } else {
                assert(!keys_of(zip_entries(k0, t0)).contains(keys[i])) by {
                    assert(keys_of(zip_entries(k0, t0)) =~= k0);
                    if k0.contains(keys[i]) {
                        let w = choose|w: int| 0 <= w < k0.len() && k0[w] == keys[i];
                        assert(keys[w] == keys[i]);
                    }
                }
                lemma_sum_for_absent(zip_entries(k0, t0), keys[i]);
            }
        }
        assert forall|i: int| 0 <= i < keys.len() implies keys_of(c).contains(#[trigger] keys[i]) by {
            assert(keys_of(c)[i] == keys[i]);
        }
        assert forall|j: int| 0 <= j < c.len() implies keys.contains(#[trigger] c[j].0) by {
            assert(keys[j] == c[j].0);
        }
    } else {
        assert(keys_of(c) =~= keys);
    }
}

/// Whether the position `j` occurs in `order`.
pub open spec fn has_pos(order: Seq<usize>, j: int) -> bool {
    order.contains(j as usize)
}

/// The positions of `times` ordered by decreasing time: every position
/// once.
pub open spec fn orders_desc(order: Seq<usize>, times: Seq<u64>) -> bool {
    &&& order.len() == times.len()
    &&& order.no_duplicates()
    &&& forall|p: int| 0 <= p < order.len() ==> #[trigger] order[p] < times.len()
    &&& forall|j: int| 0 <= j < times.len() ==> #[trigger] has_pos(order, j)
    &&& forall|p: int, q: int| 0 <= p < q < order.len() ==> times[order[p] as int] >= times[order[q] as int]
}

/// The positions of `times`, from the largest time to the smallest; of equal
/// times the earlier position first.
pub fn order_by_time_desc(times: &Vec<u64>) -> (order: Vec<usize>)
    ensures
        orders_desc(order@, times@),
{
    let mut order: Vec<usize> = Vec::new();
    let mut i: usize = 0;
    while i < times.len()
        invariant
            i <= times@.len(),
            order@.len() == i,
            order@.no_duplicates(),
            forall|p: int| 0 <= p < order@.len() ==> #[trigger] order@[p] < i,
            forall|j: int| 0 <= j < i ==> #[trigger] has_pos(order@, j),
            forall|p: int, q: int| 0 <= p < q < order@.len() ==> times@[order@[p] as int] >= times@[order@[q] as int],
        decreases times.len() - i,
    {
        let t = times[i];
        let mut p: usize = 0;
        while p < order.len() && times[order[p]] >= t
            invariant
                p <= order@.len(),
                forall|r: int| 0 <= r < order@.len() ==> #[trigger] order@[r] < i,
                i < times@.len(),
                t == times@[i as int],
                forall|r: int| 0 <= r < p ==> times@[#[trigger] order@[r] as int] >= t,
            decreases order.len() - p,
        {
            p = p + 1;
        }
        let ghost old_order = order@;
        order.insert(p, i);
        proof {
            let o = order@;
            assert(o =~= old_order.insert(p as int, i));
            assert forall|r: int| 0 <= r < o.len() implies #[trigger] o[r] < i + 1 by {
                if r < p { assert(o[r] == old_order[r]); }
                else if r > p { assert(o[r] == old_order[r - 1]); }
            }
            assert forall|a: int, b: int| 0 <= a < b < o.len() implies o[a] != o[b] by {
                if a < p && b < p { assert(old_order[a] != old_order[b]); }
                else if a < p && b > p { assert(old_order[a] != old_order[b - 1]); }
                else if a > p && b > p { assert(old_order[a - 1] != old_order[b - 1]); }
                else if a == p { assert(old_order[b - 1] < i); }
                else { assert(old_order[a] < i); }
            }
            assert(o.no_duplicates());
            assert forall|j: int| 0 <= j < i + 1 implies #[trigger] has_pos(o, j) by {
                if j == i {
                    assert(o[p as int] == i);
                } else {
                    assert(has_pos(old_order, j));
                    let w = choose|w: int| 0 <= w < old_order.len() && old_order[w] == j as usize;
                    if w < p { assert(o[w] == j as usize); } else { assert(o[w + 1] == j as usize); }
                }
            }
            assert forall|a: int, b: int| 0 <= a < b < o.len() implies times@[o[a] as int] >= times@[o[b] as int] by {
                if a < p && b < p {
                } else if a < p && b == p {
                    assert(times@[old_order[a] as int] >= t);
                } else if a < p && b > p {
                } else if a == p && b > p {
                    // everything from p on is below t
                    if p < old_order.len() {
                        assert(times@[old_order[p as int] as int] < t);
                        if b - 1 > p {
                            assert(times@[old_order[p as int] as int] >= times@[old_order[b - 1] as int]);
                        }
                    }
                } else {
                }
            }
        }
        i = i + 1;
    }
    order
}

/// `(keys, times)` ranks the tally of `c` and keeps at most `top_n`
/// entries: distinct keys that `c` names, each with the sum of its
/// contributions, from the largest time to the smallest; a key of `c` is
/// left out only when `top_n` entries were kept, none of them with less time.
pub open spec fn ranks<V>(keys: Seq<V>, times: Seq<u64>, c: Seq<(V, u64)>, top_n: int) -> bool {
    &&& keys.len() == times.len()
    &&& keys.len() <= top_n
    &&& keys.no_duplicates()
    &&& forall|i: int| 0 <= i < keys.len() ==> #[trigger] times[i] == sum_for(c, keys[i])
    &&& forall|i: int| 0 <= i < keys.len() ==> keys_of(c).contains(#[trigger] keys[i])
    &&& forall|i: int, j: int| 0 <= i < j < times.len() ==> times[i] >= times[j]
    &&& forall|j: int| 0 <= j < c.len() ==> (keys.contains(#[trigger] c[j].0) || (keys.len() == top_n
        && forall|i: int| 0 <= i < times.len() ==> times[i] >= sum_for(c, c[j].0)))
}

/// The `top_n` entries of a tally with the most time, from the most.
pub(crate) fn top_entries<K: TallyKey>(keys: &Vec<K>, times: &Vec<u64>, top_n: usize, Ghost(c): Ghost<Seq<(K::V, u64)>>) -> (r: (Vec<K>, Vec<u64>))
    requires
        tallies(key_views(keys@), times@, c),
    ensures
        ranks(key_views(r.0@), r.1@, c, top_n as int),
{
    let order = order_by_time_desc(times);
    let n = times.len();
    let m = if top_n < n { top_n } else { n };
    let ghost ks = key_views(keys@);
    let mut out_keys: Vec<K> = Vec::new();
    let mut out_times: Vec<u64> = Vec::new();
    let mut r: usize = 0;
    while r < m
        invariant
            m <= n,
            n == times@.len(),
            m <= top_n,
            m == top_n || m == n,
            ks == key_views(keys@),
            tallies(ks, times@, c),
            orders_desc(order@, times@),
            r <= m,
            out_keys@.len() == r,
            out_times@.len() == r,
            forall|q: int| 0 <= q < r ==> #[trigger] key_views(out_keys@)[q] == ks[order@[q] as int],
            forall|q: int| 0 <= q < r ==> #[trigger] out_times@[q] == times@[order@[q] as int],
        decreases m - r,
    {
        let p = order[r];
        let k = keys[p].copy_key();
        let ghost kv = k@;
        let ghost before = key_views(out_keys@);
        out_keys.push(k);
        out_times.push(times[p]);
        r = r + 1;
        proof {
            assert(key_views(out_keys@) =~= before.push(kv));
            assert(kv == ks[p as int]);
        }
    }
    let ghost ok = key_views(out_keys@);
    let ghost ot = out_times@;
    assert forall|a: int, b: int| 0 <= a < b < ok.len() implies ok[a] != ok[b] by {
        assert(order@[a] != order@[b]);
        assert(ks[order@[a] as int] != ks[order@[b] as int]);
    }
    assert(ok.no_duplicates());
    assert forall|i: int| 0 <= i < ok.len() implies keys_of(c).contains(#[trigger] ok[i]) by {
        assert(ok[i] == ks[order@[i] as int]);
    }
    assert forall|i: int| 0 <= i < ok.len() implies #[trigger] ot[i] == sum_for(c, ok[i]) by {
        assert(ok[i] == ks[order@[i] as int]);
    }
    assert forall|j: int| 0 <= j < c.len() implies (ok.contains(#[trigger] c[j].0) || (ok.len() == top_n
        && forall|i: int| 0 <= i < ot.len() ==> ot[i] >= sum_for(c, c[j].0))) by {
        assert(ks.contains(c[j].0));
        let p0 = choose|p0: int| 0 <= p0 < ks.len() && ks[p0] == c[j].0;
        assert(has_pos(order@, p0));
        let q = choose|q: int| 0 <= q < order@.len() && order@[q] == p0 as usize;
        if q < m {
            assert(ok[q] == c[j].0);
        } else {
            assert forall|i: int| 0 <= i < ot.len() implies ot[i] >= sum_for(c, c[j].0) by {
                assert(ot[i] == times@[order@[i] as int]);
                assert(times@[order@[i] as int] >= times@[order@[q] as int]);
                assert(times@[p0] == sum_for(c, ks[p0]));
            }
        }
    }
    (out_keys, out_times)
}

} // verus!
