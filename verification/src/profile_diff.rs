use vstd::prelude::*;
use crate::cpuprofile::{CpuNode, CpuProfile, signed_decimal, push_signed_decimal};
use crate::profile_stats::{
    last_node, lemma_last_node, node_positions, node_tally, hotspot_row, hotspot_matches, HotspotRow,
    sample_count, deltas_sum, node_contributions, frame_fits, sampled_frames_fit, total_time_us,
};
use crate::tally::{keys_of, ranks, sum_for, sum_all, tallies, key_views, top_entries, zip_entries, lemma_zip_tallies, lemma_sum_for_le_all, TallyKey};
use crate::profile_stats::{lemma_prefix_sum, lemma_deltas_sum_prefix};
use crate::text::string_of;

verus! {

/// How a hotspot row names its function: `name @ url:line:column`.
pub open spec fn row_key(h: HotspotRow) -> Seq<char> {
    h.function_name@ + " @ "@ + h.url@ + ":"@ + signed_decimal(h.line_number as int) + ":"@ + signed_decimal(h.column_number as int)
}

/// The name of the function of the node with the id `id`, as a hotspot row
/// gives it.
pub open spec fn hotspot_key(nodes: Seq<CpuNode>, id: u64) -> Seq<char> {
    match last_node(nodes, id) {
        Some(i) => {
            let f = nodes[i].call_frame;
            (if f.function_name@.len() == 0 { "(anonymous)"@ } else { f.function_name@ }) + " @ "@ + f.url@ + ":"@
                + signed_decimal(f.line_number + 1) + ":"@ + signed_decimal(f.column_number + 1)
        },
        None => "(anonymous)"@ + " @ "@ + ":"@ + signed_decimal(1) + ":"@ + signed_decimal(1),
    }
}

/// Some sampled node of the profile has the function `k`.
pub open spec fn has_key_in(p: CpuProfile, k: Seq<char>) -> bool {
    exists|j: int| 0 <= j < sample_count(p) && #[trigger] hotspot_key(p.nodes@, p.samples@[j]) == k
}

/// `v` is the least time that a sampled node with the function `k` took.
pub open spec fn is_key_time(p: CpuProfile, k: Seq<char>, v: u64) -> bool {
    &&& exists|j: int| 0 <= j < sample_count(p) && #[trigger] hotspot_key(p.nodes@, p.samples@[j]) == k
        && sum_for(node_contributions(p), p.samples@[j]) == v
    &&& forall|j: int| 0 <= j < sample_count(p) && #[trigger] hotspot_key(p.nodes@, p.samples@[j]) == k
        ==> v <= sum_for(node_contributions(p), p.samples@[j])
}

/// The time that the profile gives the function `k`: the least time of a
/// sampled node with that function, or 0 where there is none.
pub open spec fn key_time(p: CpuProfile, k: Seq<char>) -> nat {
    if has_key_in(p, k) { (choose|v: u64| is_key_time(p, k, v)) as nat } else { 0 }
}

pub proof fn lemma_key_time(p: CpuProfile, k: Seq<char>, v: u64)
    requires
        is_key_time(p, k, v),
    ensures
        has_key_in(p, k),
        key_time(p, k) == v,
{
    let w = choose|v2: u64| is_key_time(p, k, v2);
    let j1 = choose|j: int| 0 <= j < sample_count(p) && #[trigger] hotspot_key(p.nodes@, p.samples@[j]) == k
        && sum_for(node_contributions(p), p.samples@[j]) == v;
    assert(has_key_in(p, k));
    assert(is_key_time(p, k, w));
    let j2 = choose|j: int| 0 <= j < sample_count(p) && #[trigger] hotspot_key(p.nodes@, p.samples@[j]) == k
        && sum_for(node_contributions(p), p.samples@[j]) == w;
    assert(w <= sum_for(node_contributions(p), p.samples@[j1]));
    assert(v <= sum_for(node_contributions(p), p.samples@[j2]));
}

proof fn lemma_row_key(h: HotspotRow, nodes: Seq<CpuNode>)
    requires
        hotspot_matches(h, nodes),
    ensures
        row_key(h) == hotspot_key(nodes, h.id),
{
    lemma_last_node(nodes, h.id);
}

/// The name of a hotspot row's function.
pub fn func_key(h: &HotspotRow) -> (k: String)
    ensures
        k@ == row_key(*h),
{
    let mut k = h.function_name.clone();
    k.append(" @ ");
    k.append(h.url.as_str());
    k.append(":");
    push_signed_decimal(&mut k, h.line_number);
    k.append(":");
    push_signed_decimal(&mut k, h.column_number);
    assert(k@ =~= row_key(*h));
    k
}

/// Each function of the profile's sampled nodes with its time.
fn key_times(profile: &CpuProfile) -> (r: (Vec<String>, Vec<u64>))
    requires
        deltas_sum(profile.time_deltas@) <= u64::MAX,
        sampled_frames_fit(*profile),
    ensures
        r.0@.len() == r.1@.len(),
        key_views(r.0@).no_duplicates(),
        forall|q: int| 0 <= q < r.0@.len() ==> is_key_time(*profile, #[trigger] key_views(r.0@)[q], r.1@[q]),
        forall|k: Seq<char>| #[trigger] has_key_in(*profile, k) ==> key_views(r.0@).contains(k),
        forall|q: int| 0 <= q < r.1@.len() ==> #[trigger] r.1@[q] <= deltas_sum(profile.time_deltas@),
{
    let positions = node_positions(&profile.nodes);
    let (ids, times) = node_tally(profile);
    let ghost c = node_contributions(*profile);
    let ghost nodes = profile.nodes@;
    let mut keys: Vec<String> = Vec::new();
    let mut vals: Vec<u64> = Vec::new();
    let ghost mut wit: Seq<int> = Seq::empty();
    let mut i: usize = 0;
    while i < ids.len()
        invariant
            c == node_contributions(*profile),
            nodes == profile.nodes@,
            tallies(key_views(ids@), times@, c),
            sampled_frames_fit(*profile),
            forall|x: u64| #[trigger] positions@.contains_key(x) == last_node(nodes, x) is Some,
            forall|x: u64| positions@.contains_key(x) ==> Some(#[trigger] positions@[x] as int) == last_node(nodes, x),
            i <= ids@.len(),
            keys@.len() == vals@.len(),
            wit.len() == keys@.len(),
            key_views(keys@).no_duplicates(),
            forall|q: int| 0 <= q < keys@.len() ==> 0 <= #[trigger] wit[q] < i
                && hotspot_key(nodes, ids@[wit[q]]) == key_views(keys@)[q] && vals@[q] == times@[wit[q]],
            forall|q: int, e: int| 0 <= q < keys@.len() && 0 <= e < i && hotspot_key(nodes, ids@[e]) == #[trigger] key_views(keys@)[q]
                ==> vals@[q] <= #[trigger] times@[e],
            forall|e: int| 0 <= e < i ==> key_views(keys@).contains(hotspot_key(nodes, #[trigger] ids@[e])),
        decreases ids.len() - i,
    {
        proof {
            assert(key_views(ids@)[i as int] == ids@[i as int]);
            assert(keys_of(c).contains(ids@[i as int]));
            let w = choose|w: int| 0 <= w < keys_of(c).len() && keys_of(c)[w] == ids@[i as int];
            assert(frame_fits(nodes, profile.samples@[w]));
        }
        let h = hotspot_row(&profile.nodes, &positions, ids[i], times[i]);
        let key = func_key(&h);
        proof {
            lemma_row_key(h, nodes);
        }
        let ghost kv = key@;
        let mut q: usize = 0;
        while q < keys.len() && !keys[q].same_key(&key)
            invariant
                q <= keys@.len(),
                forall|a: int| 0 <= a < q ==> key_views(keys@)[a] != key@,
            decreases keys.len() - q,
        {
            q = q + 1;
        }
        let ghost old_keys = key_views(keys@);
        let ghost old_vals = vals@;
        if q < keys.len() {
            assert(key_views(keys@)[q as int] == kv);
            if times[i] < vals[q] {
                vals.set(q, times[i]);
                proof {
                    wit = wit.update(q as int, i as int);
                }
            }
            proof {
                assert forall|a: int, e: int| 0 <= a < keys@.len() && 0 <= e < i + 1 && hotspot_key(nodes, ids@[e]) == #[trigger] key_views(keys@)[a]
                    implies vals@[a] <= #[trigger] times@[e] by {
                    if e < i {
                        assert(old_vals[a] <= times@[e]);
                    } else {
                        assert(a == q);
                    }
                }
                assert forall|e: int| 0 <= e < i + 1 implies key_views(keys@).contains(hotspot_key(nodes, #[trigger] ids@[e])) by {
                    if e == i {
                        assert(key_views(keys@)[q as int] == kv);
                    }
                }
            }
        } else {
            keys.push(key);
            vals.push(times[i]);
            proof {
                wit = wit.push(i as int);
                assert(key_views(keys@) =~= old_keys.push(kv));
                assert forall|a: int, b: int| 0 <= a < b < key_views(keys@).len() implies key_views(keys@)[a] != key_views(keys@)[b] by {
                    if b == old_keys.len() {
                        assert(old_keys[a] != kv);
                    }
                }
                assert forall|a: int, e: int| 0 <= a < keys@.len() && 0 <= e < i + 1 && hotspot_key(nodes, ids@[e]) == #[trigger] key_views(keys@)[a]
                    implies vals@[a] <= #[trigger] times@[e] by {
                    if e < i && a == old_keys.len() {
                        assert(old_keys.contains(hotspot_key(nodes, ids@[e])));
                        let z = choose|z: int| 0 <= z < old_keys.len() && old_keys[z] == hotspot_key(nodes, ids@[e]);
                        assert(old_keys[z] == kv);
                    }
                }
                assert forall|e: int| 0 <= e < i + 1 implies key_views(keys@).contains(hotspot_key(nodes, #[trigger] ids@[e])) by {
                    if e == i {
                        assert(key_views(keys@)[old_keys.len() as int] == kv);
                    } else {
                        let z = choose|z: int| 0 <= z < old_keys.len() && old_keys[z] == hotspot_key(nodes, ids@[e]);
                        assert(key_views(keys@)[z] == old_keys[z]);
                    }
                }
            }
        }
        i = i + 1;
    }
    proof {
        let kv = key_views(keys@);
        assert forall|q: int| 0 <= q < keys@.len() implies is_key_time(*profile, #[trigger] kv[q], vals@[q]) by {
            let e = wit[q];
            assert(key_views(ids@)[e] == ids@[e]);
            assert(keys_of(c).contains(ids@[e]));
            let j = choose|j: int| 0 <= j < keys_of(c).len() && keys_of(c)[j] == ids@[e];
            assert(profile.samples@[j] == ids@[e]);
            assert(hotspot_key(profile.nodes@, profile.samples@[j]) == kv[q]);
            assert(sum_for(c, profile.samples@[j]) == vals@[q]);
            assert forall|j2: int| 0 <= j2 < sample_count(*profile) && #[trigger] hotspot_key(profile.nodes@, profile.samples@[j2]) == kv[q]
                implies vals@[q] <= sum_for(node_contributions(*profile), profile.samples@[j2]) by {
                assert(c[j2].0 == profile.samples@[j2]);
                assert(key_views(ids@).contains(c[j2].0));
                let e2 = choose|e2: int| 0 <= e2 < key_views(ids@).len() && key_views(ids@)[e2] == c[j2].0;
                assert(ids@[e2] == profile.samples@[j2]);
                assert(vals@[q] <= times@[e2]);
            }
        }
        assert(c.take(sample_count(*profile)) =~= c);
        lemma_prefix_sum(c, profile.time_deltas@, sample_count(*profile));
        lemma_deltas_sum_prefix(profile.time_deltas@, sample_count(*profile));
        assert forall|q: int| 0 <= q < vals@.len() implies #[trigger] vals@[q] <= deltas_sum(profile.time_deltas@) by {
            lemma_sum_for_le_all(c, ids@[wit[q]]);
            assert(key_views(ids@)[wit[q]] == ids@[wit[q]]);
        }
        assert forall|k: Seq<char>| #[trigger] has_key_in(*profile, k) implies kv.contains(k) by {
            let j = choose|j: int| 0 <= j < sample_count(*profile) && #[trigger] hotspot_key(profile.nodes@, profile.samples@[j]) == k;
            assert(c[j].0 == profile.samples@[j]);
            assert(key_views(ids@).contains(c[j].0));
            let e = choose|e: int| 0 <= e < key_views(ids@).len() && key_views(ids@)[e] == c[j].0;
            assert(ids@[e] == profile.samples@[j]);
        }
    }
    (keys, vals)
}

/// Some profile's sampled nodes have the function `k`.
pub open spec fn in_union(b: CpuProfile, a: CpuProfile, k: Seq<char>) -> bool {
    has_key_in(b, k) || has_key_in(a, k)
}

/// How much the function `k` grew from `b` to `a` (shrank, where `up` is
/// false).
pub open spec fn change(b: CpuProfile, a: CpuProfile, k: Seq<char>, up: bool) -> int {
    if up { key_time(a, k) - key_time(b, k) } else { key_time(b, k) - key_time(a, k) }
}

/// A function's time before and after, and how it changed.
#[derive(Debug, Clone)]
pub struct DeltaRow {
    pub function: String,
    pub before_us: u64,
    pub after_us: u64,
    pub delta_us: i64,
}

pub open spec fn delta_functions(rows: Seq<DeltaRow>) -> Seq<Seq<char>> {
    rows.map_values(|r: DeltaRow| r.function@)
}

/// `rows` are the at most `top_n` functions that grew the most from `b` to
/// `a` (that shrank the most, where `up` is false), from the most: each with
/// its times and the difference; a function that changed that way is left
/// out only when `top_n` rows were kept, none of them with a smaller change.
pub open spec fn ranks_changes(rows: Seq<DeltaRow>, b: CpuProfile, a: CpuProfile, top_n: int, up: bool) -> bool {
    &&& rows.len() <= top_n
    &&& delta_functions(rows).no_duplicates()
    &&& forall|i: int| 0 <= i < rows.len() ==> {
        let k = (#[trigger] rows[i]).function@;
        &&& in_union(b, a, k)
        &&& rows[i].before_us == key_time(b, k)
        &&& rows[i].after_us == key_time(a, k)
        &&& rows[i].delta_us == rows[i].after_us - rows[i].before_us
        &&& change(b, a, k, up) > 0
    }
    &&& forall|i: int, j: int| 0 <= i < j < rows.len() ==> change(b, a, rows[i].function@, up) >= change(b, a, rows[j].function@, up)
    &&& forall|k: Seq<char>| #[trigger] in_union(b, a, k) && change(b, a, k, up) > 0 ==> (delta_functions(rows).contains(k)
        || (rows.len() == top_n && forall|i: int| 0 <= i < rows.len() ==> change(b, a, rows[i].function@, up) >= change(b, a, k, up)))
}

/// How two profiles differ: their whole times, and the functions that grew
/// and that shrank the most.
#[derive(Debug)]
pub struct ProfileDiff {
    pub before_total_us: u64,
    pub after_total_us: u64,
    pub regressions: Vec<DeltaRow>,
    pub improvements: Vec<DeltaRow>,
}

fn find_key(keys: &Vec<String>, k: &String) -> (r: Option<usize>)
    ensures
        match r {
            Some(q) => q < keys@.len() && key_views(keys@)[q as int] == k@,
            None => !key_views(keys@).contains(k@),
        },
{
    let mut q: usize = 0;
    while q < keys.len()
        invariant
            q <= keys@.len(),
            forall|a: int| 0 <= a < q ==> key_views(keys@)[a] != k@,
        decreases keys.len() - q,
    {
        if keys[q].same_key(k) {
            return Some(q);
        }
        q = q + 1;
    }
    None
}

/// Every function of either profile with its time in each.
fn union_times(
    bk: &Vec<String>, bv: &Vec<u64>, ak: &Vec<String>, av: &Vec<u64>,
    Ghost(b): Ghost<CpuProfile>, Ghost(a): Ghost<CpuProfile>,
) -> (r: (Vec<String>, Vec<u64>, Vec<u64>))
    requires
        bk@.len() == bv@.len(),
        key_views(bk@).no_duplicates(),
        forall|q: int| 0 <= q < bk@.len() ==> is_key_time(b, #[trigger] key_views(bk@)[q], bv@[q]),
        forall|k: Seq<char>| #[trigger] has_key_in(b, k) ==> key_views(bk@).contains(k),
        ak@.len() == av@.len(),
        key_views(ak@).no_duplicates(),
        forall|q: int| 0 <= q < ak@.len() ==> is_key_time(a, #[trigger] key_views(ak@)[q], av@[q]),
        forall|k: Seq<char>| #[trigger] has_key_in(a, k) ==> key_views(ak@).contains(k),
    ensures
        r.0@.len() == r.1@.len(),
        r.0@.len() == r.2@.len(),
        key_views(r.0@).no_duplicates(),
        forall|q: int| 0 <= q < r.0@.len() ==> in_union(b, a, #[trigger] key_views(r.0@)[q])
            && r.1@[q] == key_time(b, key_views(r.0@)[q]) && r.2@[q] == key_time(a, key_views(r.0@)[q]),
        forall|k: Seq<char>| #[trigger] in_union(b, a, k) ==> key_views(r.0@).contains(k),
{
    let mut uk: Vec<String> = Vec::new();
    let mut ub: Vec<u64> = Vec::new();
    let mut ua: Vec<u64> = Vec::new();
    let mut i: usize = 0;
    while i < bk.len()
        invariant
            bk@.len() == bv@.len(),
            key_views(bk@).no_duplicates(),
            forall|q: int| 0 <= q < bk@.len() ==> is_key_time(b, #[trigger] key_views(bk@)[q], bv@[q]),
            ak@.len() == av@.len(),
            forall|q: int| 0 <= q < ak@.len() ==> is_key_time(a, #[trigger] key_views(ak@)[q], av@[q]),
            forall|k: Seq<char>| #[trigger] has_key_in(a, k) ==> key_views(ak@).contains(k),
            i <= bk@.len(),
            uk@.len() == i,
            ub@.len() == i,
            ua@.len() == i,
            forall|q: int| 0 <= q < i ==> #[trigger] key_views(uk@)[q] == key_views(bk@)[q],
            forall|q: int| 0 <= q < i ==> in_union(b, a, #[trigger] key_views(uk@)[q])
                && ub@[q] == key_time(b, key_views(uk@)[q]) && ua@[q] == key_time(a, key_views(uk@)[q]),
        decreases bk.len() - i,
    {
        let k = bk[i].clone();
        let found = find_key(ak, &k);
        let after = match found { Some(q) => av[q], None => 0 };
        proof {
            assert(key_views(bk@)[i as int] == bk@[i as int]@);
            assert(is_key_time(b, key_views(bk@)[i as int], bv@[i as int]));
            lemma_key_time(b, k@, bv@[i as int]);
            match found {
                Some(q) => { lemma_key_time(a, k@, av@[q as int]); },
                None => { assert(!has_key_in(a, k@)); },
            }
        }
        let ghost before = key_views(uk@);
        uk.push(k);
        ub.push(bv[i]);
        ua.push(after);
        proof {
            assert(key_views(uk@) =~= before.push(key_views(bk@)[i as int]));
        }
        i = i + 1;
    }
    let ghost nb = i;
    let ghost mut src: Seq<int> = Seq::empty();
    let mut j: usize = 0;
    while j < ak.len()
        invariant
            bk@.len() == bv@.len(),
            key_views(bk@).no_duplicates(),
            forall|q: int| 0 <= q < bk@.len() ==> is_key_time(b, #[trigger] key_views(bk@)[q], bv@[q]),
            forall|k: Seq<char>| #[trigger] has_key_in(b, k) ==> key_views(bk@).contains(k),
            ak@.len() == av@.len(),
            key_views(ak@).no_duplicates(),
            forall|q: int| 0 <= q < ak@.len() ==> is_key_time(a, #[trigger] key_views(ak@)[q], av@[q]),
            nb == bk@.len(),
            j <= ak@.len(),
            uk@.len() == ub@.len(),
            uk@.len() == ua@.len(),
            nb <= uk@.len(),
            forall|q: int| 0 <= q < nb ==> #[trigger] key_views(uk@)[q] == key_views(bk@)[q],
            forall|q: int| nb <= q < uk@.len() ==> !key_views(bk@).contains(#[trigger] key_views(uk@)[q]),
            key_views(uk@).no_duplicates(),
            forall|q: int| 0 <= q < uk@.len() ==> in_union(b, a, #[trigger] key_views(uk@)[q])
                && ub@[q] == key_time(b, key_views(uk@)[q]) && ua@[q] == key_time(a, key_views(uk@)[q]),
            forall|x: int| 0 <= x < j ==> key_views(uk@).contains(#[trigger] key_views(ak@)[x]),
            src.len() == uk@.len() - nb,
            forall|t: int| 0 <= t < src.len() ==> 0 <= #[trigger] src[t] < j && key_views(uk@)[nb + t] == key_views(ak@)[src[t]],
        decreases ak.len() - j,
    {
        let k = ak[j].clone();
        let found = find_key(bk, &k);
        let ghost before = key_views(uk@);
        if found.is_none() {
            proof {
                assert(key_views(ak@)[j as int] == ak@[j as int]@);
                assert(is_key_time(a, key_views(ak@)[j as int], av@[j as int]));
                lemma_key_time(a, k@, av@[j as int]);
                assert(!has_key_in(b, k@));
                assert(!before.contains(k@)) by {
                    if before.contains(k@) {
                        let w = choose|w: int| 0 <= w < before.len() && before[w] == k@;
                        if w < nb {
                            assert(key_views(bk@)[w] == k@);
                        } else {
                            assert(key_views(uk@)[w] == key_views(ak@)[src[w - nb]]);
                            assert(src[w - nb] < j);
                        }
                    }
                }
            }
            uk.push(k);
            ub.push(0);
            ua.push(av[j]);
            proof {
                src = src.push(j as int);
                assert(key_views(uk@) =~= before.push(key_views(ak@)[j as int]));
                assert forall|x: int, y: int| 0 <= x < y < key_views(uk@).len() implies key_views(uk@)[x] != key_views(uk@)[y] by {
                    if y == before.len() {
                        assert(before[x] != k@);
                    }
                }
                assert(key_views(uk@)[before.len() as int] == key_views(ak@)[j as int]);
            }
        } else {
            proof {
                let q = found.unwrap();
                assert(key_views(uk@)[q as int] == key_views(bk@)[q as int]);
            }
        }
        proof {
            assert forall|x: int| 0 <= x < j + 1 implies key_views(uk@).contains(#[trigger] key_views(ak@)[x]) by {
                if x < j {
                    let w = choose|w: int| 0 <= w < before.len() && before[w] == key_views(ak@)[x];
                    assert(key_views(uk@)[w] == before[w]);
                }
            }
        }
        j = j + 1;
    }
    proof {
        assert forall|k: Seq<char>| #[trigger] in_union(b, a, k) implies key_views(uk@).contains(k) by {
            if has_key_in(b, k) {
                let w = choose|w: int| 0 <= w < key_views(bk@).len() && key_views(bk@)[w] == k;
                assert(key_views(uk@)[w] == k);
            } else {
                let w = choose|w: int| 0 <= w < key_views(ak@).len() && key_views(ak@)[w] == k;
                assert(key_views(uk@).contains(key_views(ak@)[w]));
            }
        }
    }
    (uk, ub, ua)
}

/// The at most `top_n` functions that changed the most in the direction
/// `up`, from the most.
fn top_changes(
    uk: &Vec<String>, ub: &Vec<u64>, ua: &Vec<u64>, top_n: usize, up: bool,
    Ghost(b): Ghost<CpuProfile>, Ghost(a): Ghost<CpuProfile>,
) -> (rows: Vec<DeltaRow>)
    requires
        uk@.len() == ub@.len(),
        uk@.len() == ua@.len(),
        key_views(uk@).no_duplicates(),
        forall|q: int| 0 <= q < uk@.len() ==> in_union(b, a, #[trigger] key_views(uk@)[q])
            && ub@[q] == key_time(b, key_views(uk@)[q]) && ua@[q] == key_time(a, key_views(uk@)[q]),
        forall|k: Seq<char>| #[trigger] in_union(b, a, k) ==> key_views(uk@).contains(k),
        forall|q: int| 0 <= q < uk@.len() ==> #[trigger] ub@[q] <= i64::MAX && ua@[q] <= i64::MAX,
    ensures
        ranks_changes(rows@, b, a, top_n as int, up),
{
    // the functions that changed in that direction, with the size of the change
    let mut ck: Vec<String> = Vec::new();
    let mut cv: Vec<u64> = Vec::new();
    let ghost mut idx: Seq<int> = Seq::empty();
    let mut i: usize = 0;
    while i < uk.len()
        invariant
            uk@.len() == ub@.len(),
            uk@.len() == ua@.len(),
            key_views(uk@).no_duplicates(),
            forall|q: int| 0 <= q < uk@.len() ==> in_union(b, a, #[trigger] key_views(uk@)[q])
                && ub@[q] == key_time(b, key_views(uk@)[q]) && ua@[q] == key_time(a, key_views(uk@)[q]),
            i <= uk@.len(),
            ck@.len() == idx.len(),
            cv@.len() == idx.len(),
            forall|r: int| 0 <= r < idx.len() ==> 0 <= #[trigger] idx[r] < i
                && key_views(ck@)[r] == key_views(uk@)[idx[r]]
                && cv@[r] == change(b, a, key_views(uk@)[idx[r]], up) && cv@[r] > 0,
            forall|r: int, s: int| 0 <= r < s < idx.len() ==> idx[r] < idx[s],
            forall|q: int| 0 <= q < i && change(b, a, #[trigger] key_views(uk@)[q], up) > 0 ==> key_views(ck@).contains(key_views(uk@)[q]),
        decreases uk.len() - i,
    {
        let grew = if up { ua[i] > ub[i] } else { ub[i] > ua[i] };
        let ghost before = key_views(ck@);
        if grew {
            let d = if up { ua[i] - ub[i] } else { ub[i] - ua[i] };
            ck.push(uk[i].clone());
            cv.push(d);
            proof {
                idx = idx.push(i as int);
                assert(key_views(ck@) =~= before.push(key_views(uk@)[i as int]));
            }
        }
        proof {
            assert forall|q: int| 0 <= q < i + 1 && change(b, a, #[trigger] key_views(uk@)[q], up) > 0
                implies key_views(ck@).contains(key_views(uk@)[q]) by {
                if q == i {
                    assert(key_views(ck@)[key_views(ck@).len() - 1] == key_views(uk@)[q]);
                } else {
                    let w = choose|w: int| 0 <= w < before.len() && before[w] == key_views(uk@)[q];
                    assert(key_views(ck@)[w] == before[w]);
                }
            }
        }
        i = i + 1;
    }
    let ghost kv = key_views(ck@);
    proof {
        assert forall|r: int, s: int| 0 <= r < s < kv.len() implies kv[r] != kv[s] by {
            assert(idx[r] < idx[s]);
        }
        lemma_zip_tallies(kv, cv@);
    }
    let ghost c = zip_entries(kv, cv@);
    assert forall|x: int| 0 <= x < kv.len() implies #[trigger] cv@[x] == change(b, a, kv[x], up) && cv@[x] > 0 by {
        assert(kv[x] == key_views(uk@)[idx[x]]);
    }
    let (sel, vals) = top_entries(&ck, &cv, top_n, Ghost(c));
    let mut rows: Vec<DeltaRow> = Vec::new();
    let mut r: usize = 0;
    while r < sel.len()
        invariant
            r <= sel@.len(),
            sel@.len() == vals@.len(),
            rows@.len() == r,
            ranks(key_views(sel@), vals@, c, top_n as int),
            c == zip_entries(kv, cv@),
            kv.len() == cv@.len(),
            tallies(kv, cv@, c),
            forall|x: int| 0 <= x < kv.len() ==> #[trigger] cv@[x] == change(b, a, kv[x], up) && cv@[x] > 0,
            uk@.len() == ub@.len(),
            uk@.len() == ua@.len(),
            forall|q: int| 0 <= q < uk@.len() ==> in_union(b, a, #[trigger] key_views(uk@)[q])
                && ub@[q] == key_time(b, key_views(uk@)[q]) && ua@[q] == key_time(a, key_views(uk@)[q]),
            forall|k: Seq<char>| #[trigger] in_union(b, a, k) ==> key_views(uk@).contains(k),
            forall|q: int| 0 <= q < uk@.len() ==> #[trigger] ub@[q] <= i64::MAX && ua@[q] <= i64::MAX,
            forall|x: int| 0 <= x < r ==> (#[trigger] rows@[x]).function@ == key_views(sel@)[x]
                && in_union(b, a, rows@[x].function@)
                && rows@[x].before_us == key_time(b, rows@[x].function@)
                && rows@[x].after_us == key_time(a, rows@[x].function@)
                && rows@[x].delta_us == rows@[x].after_us - rows@[x].before_us,
        decreases sel.len() - r,
    {
        let k = sel[r].clone();
        proof {
            assert(keys_of(c).contains(key_views(sel@)[r as int]));
            let w = choose|w: int| 0 <= w < keys_of(c).len() && keys_of(c)[w] == key_views(sel@)[r as int];
            assert(kv[w] == k@);
            assert(cv@[w] > 0);
            assert(key_views(uk@).contains(k@)) by {
                assert(change(b, a, k@, up) > 0);
                if !in_union(b, a, k@) {
                    assert(key_time(b, k@) == 0 && key_time(a, k@) == 0);
                }
            }
        }
        let q = find_key(uk, &k);
        let q = match q { Some(q) => q, None => { proof { assert(false); } 0 } };
        let bu = ub[q];
        let au = ua[q];
        let delta = (au as i64) - (bu as i64);
        rows.push(DeltaRow { function: k, before_us: bu, after_us: au, delta_us: delta });
        r = r + 1;
    }
    proof {
        let rv = rows@;
        assert(delta_functions(rv) =~= key_views(sel@));
        assert forall|i: int| 0 <= i < rv.len() implies change(b, a, (#[trigger] rv[i]).function@, up) > 0
            && vals@[i] == change(b, a, rv[i].function@, up) by {
            let k = rv[i].function@;
            assert(keys_of(c).contains(key_views(sel@)[i]));
            let w = choose|w: int| 0 <= w < keys_of(c).len() && keys_of(c)[w] == key_views(sel@)[i];
            assert(kv[w] == k);
            assert(vals@[i] == sum_for(c, key_views(sel@)[i]));
            assert(cv@[w] == sum_for(c, kv[w]));
        }
        assert forall|k: Seq<char>| #[trigger] in_union(b, a, k) && change(b, a, k, up) > 0 implies (delta_functions(rv).contains(k)
            || (rv.len() == top_n && forall|i: int| 0 <= i < rv.len() ==> change(b, a, rv[i].function@, up) >= change(b, a, k, up))) by {
            let q = choose|q: int| 0 <= q < key_views(uk@).len() && key_views(uk@)[q] == k;
            assert(in_union(b, a, key_views(uk@)[q]));
            assert(key_views(ck@).contains(key_views(uk@)[q])) by {
                assert(change(b, a, key_views(uk@)[q], up) > 0);
            }
            let w = choose|w: int| 0 <= w < kv.len() && kv[w] == k;
            assert(c[w].0 == k);
            assert(sum_for(c, k) == cv@[w]);
            if !delta_functions(rv).contains(k) {
                assert(!key_views(sel@).contains(c[w].0));
                assert forall|i: int| 0 <= i < rv.len() implies change(b, a, rv[i].function@, up) >= change(b, a, k, up) by {
                    assert(vals@[i] >= sum_for(c, c[w].0));
                    assert(change(b, a, (rv[i]).function@, up) > 0 && vals@[i] == change(b, a, rv[i].function@, up));
                }
            }
        }
    }
    rows
}

/// No function is both among the regressions and among the improvements.
pub proof fn law_changes_are_exclusive(
    regressions: Seq<DeltaRow>, improvements: Seq<DeltaRow>, b: CpuProfile, a: CpuProfile, top_n: int,
)
    requires
        ranks_changes(regressions, b, a, top_n, true),
        ranks_changes(improvements, b, a, top_n, false),
    ensures
        forall|i: int, j: int| 0 <= i < regressions.len() && 0 <= j < improvements.len()
            ==> (#[trigger] regressions[i]).function@ != (#[trigger] improvements[j]).function@,
{
    assert forall|i: int, j: int| 0 <= i < regressions.len() && 0 <= j < improvements.len()
        implies (#[trigger] regressions[i]).function@ != (#[trigger] improvements[j]).function@ by {
        assert(change(b, a, regressions[i].function@, true) > 0);
        assert(change(b, a, improvements[j].function@, false) > 0);
    }
}

/// How the function times of `after` differ from those of `before`: the
/// whole times, and the `top_n` functions that grew the most and the `top_n`
/// that shrank the most.
pub fn diff_profiles(before: &CpuProfile, after: &CpuProfile, top_n: usize) -> (d: ProfileDiff)
    requires
        deltas_sum(before.time_deltas@) <= i64::MAX,
        deltas_sum(after.time_deltas@) <= i64::MAX,
        sampled_frames_fit(*before),
        sampled_frames_fit(*after),
    ensures
        d.before_total_us == deltas_sum(before.time_deltas@),
        d.after_total_us == deltas_sum(after.time_deltas@),
        ranks_changes(d.regressions@, *before, *after, top_n as int, true),
        ranks_changes(d.improvements@, *before, *after, top_n as int, false),
{
    let bt = total_time_us(&before.time_deltas);
    let at = total_time_us(&after.time_deltas);
    let (bk, bv) = key_times(before);
    let (ak, av) = key_times(after);
    let (uk, ub, ua) = union_times(&bk, &bv, &ak, &av, Ghost(*before), Ghost(*after));
    proof {
        assert forall|q: int| 0 <= q < uk@.len() implies #[trigger] ub@[q] <= i64::MAX && ua@[q] <= i64::MAX by {
            let k = key_views(uk@)[q];
            if has_key_in(*before, k) {
                let w = choose|w: int| 0 <= w < key_views(bk@).len() && key_views(bk@)[w] == k;
                lemma_key_time(*before, k, bv@[w]);
            }
            if has_key_in(*after, k) {
                let w = choose|w: int| 0 <= w < key_views(ak@).len() && key_views(ak@)[w] == k;
                lemma_key_time(*after, k, av@[w]);
            }
        }
    }
    let regressions = top_changes(&uk, &ub, &ua, top_n, true, Ghost(*before), Ghost(*after));
    let improvements = top_changes(&uk, &ub, &ua, top_n, false, Ghost(*before), Ghost(*after));
    ProfileDiff { before_total_us: bt, after_total_us: at, regressions, improvements }
}

} // verus!
