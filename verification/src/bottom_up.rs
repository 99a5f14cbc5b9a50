use vstd::prelude::*;
use std::collections::HashMap;
use crate::cpuprofile::{CpuNode, CpuProfile, first_parent, spec_display_name, display_name, build_parent_map};
use crate::profile_stats::{last_node, lemma_last_node, node_positions, sample_count};
use crate::profile_paths::{walk_ok, walks_end};
use crate::tally::{keys_of, ranks, sum_for, tallies, key_views, tally_add, tally_add_checked, top_entries, lemma_sum_concat, lemma_sum_for_absent, lemma_sum_single, TallyKey};
use crate::text::strings_seq;

verus! {

/// The functions that the walk up from the node `id` meets, that node
/// first; the walk stops before an id that the profile does not hold.
pub open spec fn known_walk(nodes: Seq<CpuNode>, id: u64, fuel: nat) -> Seq<Seq<char>>
    decreases fuel,
{
    match last_node(nodes, id) {
        None => Seq::empty(),
        Some(i) => seq![spec_display_name(nodes[i].call_frame)] + match first_parent(nodes, id) {
            None => Seq::<Seq<char>>::empty(),
            Some(p) => if fuel > 0 { known_walk(nodes, p, (fuel - 1) as nat) } else { Seq::<Seq<char>>::empty() },
        },
    }
}

/// The functions of the `k`-th sample's stack, the sampled one first.
pub open spec fn sample_funcs(p: CpuProfile, k: int) -> Seq<Seq<char>> {
    known_walk(p.nodes@, p.samples@[k], p.nodes@.len() as nat)
}

/// Each function of a stack with the sample's time.
pub open spec fn with_time(fs: Seq<Seq<char>>, dt: u64) -> Seq<(Seq<char>, u64)> {
    fs.map_values(|f: Seq<char>| (f, dt))
}

/// The sampled function of a stack with the sample's time.
pub open spec fn leaf_of(fs: Seq<Seq<char>>, dt: u64) -> Seq<(Seq<char>, u64)> {
    if fs.len() > 0 { seq![(fs[0], dt)] } else { Seq::empty() }
}

/// Each call of a stack, as the called function and its caller, with the
/// sample's time.
pub open spec fn edges_of(fs: Seq<Seq<char>>, dt: u64) -> Seq<((Seq<char>, Seq<char>), u64)> {
    Seq::new(if fs.len() > 0 { (fs.len() - 1) as nat } else { 0 }, |j: int| ((fs[j], fs[j + 1]), dt))
}

/// What the first `n` samples give each function on their stacks.
pub open spec fn total_contrib(p: CpuProfile, n: int) -> Seq<(Seq<char>, u64)>
    decreases n,
{
    if n <= 0 { Seq::empty() } else { total_contrib(p, n - 1) + with_time(sample_funcs(p, n - 1), p.time_deltas@[n - 1]) }
}

/// What the first `n` samples give their sampled functions.
pub open spec fn self_contrib(p: CpuProfile, n: int) -> Seq<(Seq<char>, u64)>
    decreases n,
{
    if n <= 0 { Seq::empty() } else { self_contrib(p, n - 1) + leaf_of(sample_funcs(p, n - 1), p.time_deltas@[n - 1]) }
}

/// What the first `n` samples give each call on their stacks.
pub open spec fn edge_contrib(p: CpuProfile, n: int) -> Seq<((Seq<char>, Seq<char>), u64)>
    decreases n,
{
    if n <= 0 { Seq::empty() } else { edge_contrib(p, n - 1) + edges_of(sample_funcs(p, n - 1), p.time_deltas@[n - 1]) }
}

/// The callers of `x` in the calls `e`, each with the call's time.
pub open spec fn callers_of(e: Seq<((Seq<char>, Seq<char>), u64)>, x: Seq<char>) -> Seq<(Seq<char>, u64)>
    decreases e.len(),
{
    if e.len() == 0 {
        Seq::empty()
    } else {
        callers_of(e.drop_last(), x) + if e.last().0.0 == x { seq![(e.last().0.1, e.last().1)] } else { Seq::empty() }
    }
}

proof fn lemma_callers_of(e: Seq<((Seq<char>, Seq<char>), u64)>, x: Seq<char>, y: Seq<char>)
    ensures
        sum_for(callers_of(e, x), y) == sum_for(e, (x, y)),
        keys_of(callers_of(e, x)).contains(y) == keys_of(e).contains((x, y)),
    decreases e.len(),
{
    if e.len() > 0 {
        let d = e.drop_last();
        lemma_callers_of(d, x, y);
        let tail = if e.last().0.0 == x { seq![(e.last().0.1, e.last().1)] } else { Seq::empty() };
        lemma_sum_concat(callers_of(d, x), tail);
        assert(callers_of(e, x) == callers_of(d, x) + tail);
        assert(sum_for(tail, y) == if e.last().0 == (x, y) { e.last().1 as nat } else { 0 }) by {
            if e.last().0.0 == x {
                assert(tail.drop_last() =~= Seq::<(Seq<char>, u64)>::empty());
                assert(tail.last() == (e.last().0.1, e.last().1));
                assert(sum_for(tail.drop_last(), y) == 0);
                assert(e.last().0 == (x, y) <==> e.last().0.1 == y);
            } else {
                assert(tail.len() == 0);
                assert(e.last().0 != (x, y));
            }
        }
        assert(sum_for(e, (x, y)) == sum_for(d, (x, y)) + if e.last().0 == (x, y) { e.last().1 as nat } else { 0 });
        assert(keys_of(callers_of(e, x)) =~= keys_of(callers_of(d, x)) + keys_of(tail));
        assert(keys_of(e) =~= keys_of(d).push(e.last().0));
        if keys_of(e).contains((x, y)) && !keys_of(d).contains((x, y)) {
            assert(e.last().0 == (x, y));
            assert(keys_of(callers_of(e, x))[keys_of(callers_of(d, x)).len() as int] == y);
        }
        if keys_of(d).contains((x, y)) {
            let w = choose|w: int| 0 <= w < keys_of(d).len() && keys_of(d)[w] == (x, y);
            assert(keys_of(e)[w] == (x, y));
        }
        if keys_of(callers_of(e, x)).contains(y) {
            let w = choose|w: int| 0 <= w < keys_of(callers_of(e, x)).len() && keys_of(callers_of(e, x))[w] == y;
            if w < keys_of(callers_of(d, x)).len() {
                assert(keys_of(callers_of(d, x))[w] == y);
            } else {
                assert(keys_of(e)[e.len() - 1] == (x, y));
            }
        }
        if keys_of(callers_of(d, x)).contains(y) {
            let w = choose|w: int| 0 <= w < keys_of(callers_of(d, x)).len() && keys_of(callers_of(d, x))[w] == y;
            assert(keys_of(callers_of(e, x))[w] == y);
        }
    }
}

proof fn lemma_leaf_le(fs: Seq<Seq<char>>, dt: u64, f: Seq<char>)
    ensures
        sum_for(leaf_of(fs, dt), f) <= sum_for(with_time(fs, dt), f),
{
    if fs.len() > 0 {
        assert(with_time(fs, dt) =~= leaf_of(fs, dt) + with_time(fs.skip(1), dt));
        lemma_sum_concat(leaf_of(fs, dt), with_time(fs.skip(1), dt));
    }
}

proof fn lemma_edges_le(fs: Seq<Seq<char>>, dt: u64, x: Seq<char>, y: Seq<char>)
    ensures
        sum_for(edges_of(fs, dt), (x, y)) <= sum_for(with_time(fs, dt), y),
    decreases fs.len(),
{
    if fs.len() >= 2 {
        let d = fs.drop_last();
        lemma_edges_le(d, dt, x, y);
        assert(edges_of(fs, dt).drop_last() =~= edges_of(d, dt));
        assert(with_time(fs, dt).drop_last() =~= with_time(d, dt));
    } else if fs.len() == 1 {
        assert(edges_of(fs, dt) =~= Seq::<((Seq<char>, Seq<char>), u64)>::empty());
    } else {
        assert(edges_of(fs, dt) =~= Seq::<((Seq<char>, Seq<char>), u64)>::empty());
    }
}

proof fn lemma_contrib_bounds(p: CpuProfile, n: int, f: Seq<char>, x: Seq<char>)
    requires
        0 <= n,
    ensures
        sum_for(self_contrib(p, n), f) <= sum_for(total_contrib(p, n), f),
        sum_for(edge_contrib(p, n), (x, f)) <= sum_for(total_contrib(p, n), f),
    decreases n,
{
    if n > 0 {
        lemma_contrib_bounds(p, n - 1, f, x);
        let fs = sample_funcs(p, n - 1);
        let dt = p.time_deltas@[n - 1];
        lemma_sum_concat(total_contrib(p, n - 1), with_time(fs, dt));
        lemma_sum_concat(self_contrib(p, n - 1), leaf_of(fs, dt));
        lemma_sum_concat(edge_contrib(p, n - 1), edges_of(fs, dt));
        lemma_leaf_le(fs, dt, f);
        lemma_edges_le(fs, dt, x, f);
    }
}

proof fn lemma_total_grows(p: CpuProfile, k: int, n: int, f: Seq<char>)
    requires
        0 <= k <= n,
    ensures
        sum_for(total_contrib(p, k), f) <= sum_for(total_contrib(p, n), f),
    decreases n - k,
{
    if k < n {
        lemma_total_grows(p, k, n - 1, f);
        lemma_sum_concat(total_contrib(p, n - 1), with_time(sample_funcs(p, n - 1), p.time_deltas@[n - 1]));
    }
}

/// A call: the called function and its caller.
#[derive(Debug, Clone)]
pub struct CallEdge {
    pub callee: String,
    pub caller: String,
}

impl View for CallEdge {
    type V = (Seq<char>, Seq<char>);

    open spec fn view(&self) -> (Seq<char>, Seq<char>) {
        (self.callee@, self.caller@)
    }
}

impl TallyKey for CallEdge {
    fn same_key(&self, other: &Self) -> (b: bool) {
        let a = crate::text::str_eq(self.callee.as_str(), other.callee.as_str());
        let c = crate::text::str_eq(self.caller.as_str(), other.caller.as_str());
        a && c
    }

    fn copy_key(&self) -> (r: Self) {
        CallEdge { callee: self.callee.clone(), caller: self.caller.clone() }
    }
}

/// The functions that the walk up from the sampled node `id` meets, that
/// node first.
fn known_from(nodes: &Vec<CpuNode>, positions: &HashMap<u64, usize>, parent: &HashMap<u64, u64>, id: u64) -> (chain: Vec<String>)
    requires
        forall|x: u64| #[trigger] positions@.contains_key(x) == last_node(nodes@, x) is Some,
        forall|x: u64| positions@.contains_key(x) ==> Some(#[trigger] positions@[x] as int) == last_node(nodes@, x),
        forall|c: u64| #[trigger] parent@.contains_key(c) == first_parent(nodes@, c) is Some,
        forall|c: u64| parent@.contains_key(c) ==> Some(#[trigger] parent@[c]) == first_parent(nodes@, c),
        walk_ok(nodes@, id, nodes@.len() as nat),
    ensures
        strings_seq(chain@) == known_walk(nodes@, id, nodes@.len() as nat),
{
    let ghost full = known_walk(nodes@, id, nodes@.len() as nat);
    let mut chain: Vec<String> = Vec::new();
    let mut current = id;
    let ghost mut fuel: nat = nodes@.len() as nat;
    let mut done = false;
    while !done
        invariant
            forall|x: u64| #[trigger] positions@.contains_key(x) == last_node(nodes@, x) is Some,
            forall|x: u64| positions@.contains_key(x) ==> Some(#[trigger] positions@[x] as int) == last_node(nodes@, x),
            forall|c: u64| #[trigger] parent@.contains_key(c) == first_parent(nodes@, c) is Some,
            forall|c: u64| parent@.contains_key(c) ==> Some(#[trigger] parent@[c]) == first_parent(nodes@, c),
            full == known_walk(nodes@, id, nodes@.len() as nat),
            done ==> strings_seq(chain@) == full,
            !done ==> walk_ok(nodes@, current, fuel),
            !done ==> strings_seq(chain@) + known_walk(nodes@, current, fuel) == full,
        decreases fuel + if done { 0int } else { 1int },
    {
        proof {
            lemma_last_node(nodes@, current);
        }
        let ghost before = strings_seq(chain@);
        match positions.get(&current) {
            None => {
                assert(strings_seq(chain@) =~= before + known_walk(nodes@, current, fuel));
                done = true;
            },
            Some(i) => {
                let shown = display_name(&nodes[*i].call_frame);
                chain.push(shown);
                assert(strings_seq(chain@) =~= before.push(spec_display_name(nodes@[*i as int].call_frame)));
                match parent.get(&current) {
                    None => {
                        assert(strings_seq(chain@) =~= before + known_walk(nodes@, current, fuel));
                        done = true;
                    },
                    Some(p) => {
                        let ghost rest = known_walk(nodes@, *p, (fuel - 1) as nat);
                        assert(known_walk(nodes@, current, fuel) =~= seq![spec_display_name(nodes@[*i as int].call_frame)] + rest);
                        assert(strings_seq(chain@) + rest =~= before + known_walk(nodes@, current, fuel));
                        current = *p;
                        proof {
                            fuel = (fuel - 1) as nat;
                        }
                    },
                }
            },
        }
    }
    chain
}

/// The callers of `x` in a tally of calls, each with the time of its calls
/// of `x`.
fn callers_in_tally(
    ekeys: &Vec<CallEdge>,
    etimes: &Vec<u64>,
    x: &String,
    Ghost(e): Ghost<Seq<((Seq<char>, Seq<char>), u64)>>,
) -> (r: (Vec<String>, Vec<u64>))
    requires
        tallies(key_views(ekeys@), etimes@, e),
    ensures
        tallies(key_views(r.0@), r.1@, callers_of(e, x@)),
{
    let ghost ek = key_views(ekeys@);
    let mut out: Vec<String> = Vec::new();
    let mut ot: Vec<u64> = Vec::new();
    let ghost mut picked: Seq<int> = Seq::empty();
    let mut i: usize = 0;
    while i < ekeys.len()
        invariant
            ek == key_views(ekeys@),
            tallies(ek, etimes@, e),
            i <= ekeys@.len(),
            out@.len() == picked.len(),
            ot@.len() == picked.len(),
            forall|q: int| 0 <= q < picked.len() ==> 0 <= #[trigger] picked[q] < i && ek[picked[q]].0 == x@
                && out@[q]@ == ek[picked[q]].1 && ot@[q] == etimes@[picked[q]],
            forall|a: int, b: int| 0 <= a < b < picked.len() ==> picked[a] < picked[b],
            forall|j: int| 0 <= j < i && (#[trigger] ek[j]).0 == x@ ==> picked.contains(j),
        decreases ekeys.len() - i,
    {
        let ghost old_picked = picked;
        if crate::text::str_eq(ekeys[i].callee.as_str(), x.as_str()) {
            out.push(ekeys[i].caller.clone());
            ot.push(etimes[i]);
            proof {
                picked = picked.push(i as int);
                assert(picked[picked.len() - 1] == i);
            }
        }
        proof {
            assert forall|j: int| 0 <= j < i + 1 && (#[trigger] ek[j]).0 == x@ implies picked.contains(j) by {
                if j == i {
                    assert(picked[picked.len() - 1] == i);
                } else {
                    assert(old_picked.contains(j));
                    let w = choose|w: int| 0 <= w < old_picked.len() && old_picked[w] == j;
                    assert(picked[w] == j);
                }
            }
        }
        i = i + 1;
    }
    let ghost ov = key_views(out@);
    let ghost c = callers_of(e, x@);
    assert forall|a: int, b: int| 0 <= a < b < ov.len() implies ov[a] != ov[b] by {
        assert(ov[a] == out@[a]@);
        assert(ov[b] == out@[b]@);
        assert(picked[a] < picked[b]);
        assert(ek[picked[a]] != ek[picked[b]]);
    }
    assert(ov.no_duplicates());
    assert forall|q: int| 0 <= q < ov.len() implies #[trigger] ot@[q] == sum_for(c, ov[q]) by {
        assert(ov[q] == out@[q]@);
        lemma_callers_of(e, x@, ov[q]);
        assert(ek[picked[q]] == (x@, ov[q]));
    }
    assert forall|q: int| 0 <= q < ov.len() implies keys_of(c).contains(#[trigger] ov[q]) by {
        assert(ov[q] == out@[q]@);
        lemma_callers_of(e, x@, ov[q]);
        assert(ek[picked[q]] == (x@, ov[q]));
        assert(keys_of(e).contains(ek[picked[q]]));
    }
    assert forall|j: int| 0 <= j < c.len() implies ov.contains(#[trigger] c[j].0) by {
        let y = c[j].0;
        assert(keys_of(c)[j] == y);
        lemma_callers_of(e, x@, y);
        let w = choose|w: int| 0 <= w < keys_of(e).len() && keys_of(e)[w] == (x@, y);
        assert(ek.contains(e[w].0));
        let i0 = choose|i0: int| 0 <= i0 < ek.len() && ek[i0] == e[w].0;
        assert(ek[i0].0 == x@);
        assert(picked.contains(i0));
        let q = choose|q: int| 0 <= q < picked.len() && picked[q] == i0;
        assert(ov[q] == out@[q]@);
    }
    (out, ot)
}

proof fn lemma_step_bound(p: CpuProfile, k: int, n: int, fs: Seq<Seq<char>>, dt: u64, j: int)
    requires
        0 <= k < n,
        fs == sample_funcs(p, k),
        dt == p.time_deltas@[k],
        0 <= j < fs.len(),
        forall|f: Seq<char>| #[trigger] sum_for(total_contrib(p, n), f) <= u64::MAX,
    ensures
        sum_for(total_contrib(p, k) + with_time(fs.take(j + 1), dt), fs[j]) <= u64::MAX,
{
    lemma_step_le(p, k, n, fs, dt, j);
}

proof fn lemma_step_le(p: CpuProfile, k: int, n: int, fs: Seq<Seq<char>>, dt: u64, j: int)
    requires
        0 <= k < n,
        fs == sample_funcs(p, k),
        dt == p.time_deltas@[k],
        0 <= j < fs.len(),
    ensures
        sum_for(total_contrib(p, k) + with_time(fs.take(j + 1), dt), fs[j]) <= sum_for(total_contrib(p, n), fs[j]),
{
    let f = fs[j];
    assert(with_time(fs, dt) =~= with_time(fs.take(j + 1), dt) + with_time(fs.skip(j + 1), dt));
    lemma_sum_concat(with_time(fs.take(j + 1), dt), with_time(fs.skip(j + 1), dt));
    lemma_sum_concat(total_contrib(p, k), with_time(fs.take(j + 1), dt));
    lemma_sum_concat(total_contrib(p, k), with_time(fs, dt));
    assert(total_contrib(p, k + 1) == total_contrib(p, k) + with_time(fs, dt));
    lemma_total_grows(p, k + 1, n, f);
}

/// A caller of a function, with the time of its calls.
#[derive(Debug, Clone)]
pub struct CallerRow {
    pub caller: String,
    pub time_us: u64,
}

/// A function with the time that the samples spent in it, the time of the
/// stacks it was on, and its callers with the most time.
#[derive(Debug, Clone)]
pub struct BottomUpRow {
    pub function: String,
    pub self_time_us: u64,
    pub total_time_us: u64,
    pub main_callers: Vec<CallerRow>,
}

pub open spec fn row_functions(rows: Seq<BottomUpRow>) -> Seq<Seq<char>> {
    rows.map_values(|r: BottomUpRow| r.function@)
}

pub open spec fn row_totals(rows: Seq<BottomUpRow>) -> Seq<u64> {
    rows.map_values(|r: BottomUpRow| r.total_time_us)
}

pub open spec fn caller_names(rows: Seq<CallerRow>) -> Seq<Seq<char>> {
    rows.map_values(|r: CallerRow| r.caller@)
}

pub open spec fn caller_times(rows: Seq<CallerRow>) -> Seq<u64> {
    rows.map_values(|r: CallerRow| r.time_us)
}

/// No function's time, summed over the stacks it is on, exceeds a `u64`.
pub open spec fn totals_fit(p: CpuProfile) -> bool {
    forall|f: Seq<char>| #[trigger] sum_for(total_contrib(p, sample_count(p)), f) <= u64::MAX
}

/// The bottom-up view: the `top_n` functions with the most time on the
/// sampled stacks, from the most; each with the time of the samples taken
/// in it, and its three callers with the most time.
pub fn get_bottom_up(profile: &CpuProfile, top_n: usize) -> (rows: Vec<BottomUpRow>)
    requires
        walks_end(*profile),
        totals_fit(*profile),
    ensures
        ranks(row_functions(rows@), row_totals(rows@), total_contrib(*profile, sample_count(*profile)), top_n as int),
        forall|i: int| 0 <= i < rows@.len() ==> (#[trigger] rows@[i]).self_time_us
            == sum_for(self_contrib(*profile, sample_count(*profile)), rows@[i].function@),
        forall|i: int| 0 <= i < rows@.len() ==> ranks(caller_names((#[trigger] rows@[i]).main_callers@),
            caller_times(rows@[i].main_callers@), callers_of(edge_contrib(*profile, sample_count(*profile)), rows@[i].function@), 3),
{
    let positions = node_positions(&profile.nodes);
    let parent = build_parent_map(profile);
    let n = if profile.samples.len() <= profile.time_deltas.len() { profile.samples.len() } else { profile.time_deltas.len() };
    let mut tk: Vec<String> = Vec::new();
    let mut tt: Vec<u64> = Vec::new();
    let mut sk: Vec<String> = Vec::new();
    let mut st: Vec<u64> = Vec::new();
    let mut ek: Vec<CallEdge> = Vec::new();
    let mut et: Vec<u64> = Vec::new();
    let mut k: usize = 0;
    while k < n
        invariant
            n == sample_count(*profile),
            k <= n,
            tallies(key_views(tk@), tt@, total_contrib(*profile, k as int)),
            tallies(key_views(sk@), st@, self_contrib(*profile, k as int)),
            tallies(key_views(ek@), et@, edge_contrib(*profile, k as int)),
            totals_fit(*profile),
            walks_end(*profile),
            forall|x: u64| #[trigger] positions@.contains_key(x) == last_node(profile.nodes@, x) is Some,
            forall|x: u64| positions@.contains_key(x) ==> Some(#[trigger] positions@[x] as int) == last_node(profile.nodes@, x),
            forall|x: u64| #[trigger] parent@.contains_key(x) == first_parent(profile.nodes@, x) is Some,
            forall|x: u64| parent@.contains_key(x) ==> Some(#[trigger] parent@[x]) == first_parent(profile.nodes@, x),
        decreases n - k,
    {
        assert(walk_ok(profile.nodes@, profile.samples@[k as int], profile.nodes@.len() as nat));
        let fs = known_from(&profile.nodes, &positions, &parent, profile.samples[k]);
        let dt = profile.time_deltas[k];
        let ghost f = strings_seq(fs@);
        let ghost t0 = total_contrib(*profile, k as int);
        let ghost s0 = self_contrib(*profile, k as int);
        let ghost e0 = edge_contrib(*profile, k as int);
        let mut j: usize = 0;
        assert(f.take(0) =~= Seq::<Seq<char>>::empty());
        assert(t0 + with_time(f.take(0), dt) =~= t0);
        assert(s0 + leaf_of(f.take(0), dt) =~= s0);
        assert(e0 + edges_of(f.take(0), dt) =~= e0);
        while j < fs.len()
            invariant
                n == sample_count(*profile),
                k < n,
                f == strings_seq(fs@),
                f == sample_funcs(*profile, k as int),
                dt == profile.time_deltas@[k as int],
                t0 == total_contrib(*profile, k as int),
                s0 == self_contrib(*profile, k as int),
                e0 == edge_contrib(*profile, k as int),
                j <= fs@.len(),
                tallies(key_views(tk@), tt@, t0 + with_time(f.take(j as int), dt)),
                tallies(key_views(sk@), st@, s0 + leaf_of(f.take(j as int), dt)),
                tallies(key_views(ek@), et@, e0 + edges_of(f.take(j as int), dt)),
                totals_fit(*profile),
            decreases fs.len() - j,
        {
            let ghost tj = t0 + with_time(f.take(j as int), dt);
            let ghost sj = s0 + leaf_of(f.take(j as int), dt);
            let ghost ej = e0 + edges_of(f.take(j as int), dt);
            proof {
                lemma_step_bound(*profile, k as int, n as int, f, dt, j as int);
                assert(with_time(f.take(j + 1), dt) =~= with_time(f.take(j as int), dt).push((f[j as int], dt)));
                assert(t0 + with_time(f.take(j + 1), dt) =~= tj.push((f[j as int], dt)));
                lemma_sum_concat(tj, seq![(f[j as int], dt)]);
                assert(tj.push((f[j as int], dt)) =~= tj + seq![(f[j as int], dt)]);
                lemma_sum_single(f[j as int], dt, f[j as int]);
            }
            tally_add(&mut tk, &mut tt, fs[j].clone(), dt, Ghost(tj));
            if j == 0 {
                proof {
                    lemma_contrib_bounds(*profile, k as int, f[0], f[0]);
                    lemma_sum_concat(t0, with_time(f.take(1), dt));
                    assert(with_time(f.take(1), dt) =~= seq![(f[0], dt)]);
                    lemma_sum_single(f[0], dt, f[0]);
                    assert(sj =~= s0);
                }
                tally_add(&mut sk, &mut st, fs[0].clone(), dt, Ghost(sj));
                proof {
                    assert(leaf_of(f.take(1), dt) =~= seq![(f[0], dt)]);
                    assert(s0 + leaf_of(f.take(1), dt) =~= sj.push((f[0], dt)));
                    assert(edges_of(f.take(1), dt) =~= edges_of(f.take(0), dt));
                }
            } else {
                let edge = CallEdge { callee: fs[j - 1].clone(), caller: fs[j].clone() };
                let ghost ev = (f[j - 1], f[j as int]);
                proof {
                    assert(edge@ == ev);
                    lemma_contrib_bounds(*profile, k as int, f[j as int], f[j - 1]);
                    lemma_edges_le(f.take(j + 1), dt, f[j - 1], f[j as int]);
                    assert(edges_of(f.take(j + 1), dt) =~= edges_of(f.take(j as int), dt).push((ev, dt)));
                    lemma_sum_concat(e0, edges_of(f.take(j + 1), dt));
                    lemma_sum_concat(t0, with_time(f.take(j + 1), dt));
                    assert(e0 + edges_of(f.take(j + 1), dt) =~= ej.push((ev, dt)));
                    assert(ej.push((ev, dt)) =~= ej + seq![(ev, dt)]);
                    lemma_sum_concat(ej, seq![(ev, dt)]);
                    lemma_sum_single(ev, dt, ev);
                    assert(sum_for(ej + seq![(ev, dt)], ev) == sum_for(ej, ev) + dt);
                    assert(sum_for(e0 + edges_of(f.take(j + 1), dt), ev) == sum_for(e0, ev) + sum_for(edges_of(f.take(j + 1), dt), ev));
                    assert(sum_for(t0 + with_time(f.take(j + 1), dt), f[j as int])
                        == sum_for(t0, f[j as int]) + sum_for(with_time(f.take(j + 1), dt), f[j as int]));
                    assert(sum_for(e0, ev) <= sum_for(t0, f[j as int]));
                    assert(sum_for(t0 + with_time(f.take(j + 1), dt), f[j as int]) <= u64::MAX);
                }
                tally_add(&mut ek, &mut et, edge, dt, Ghost(ej));
                proof {
                    assert(leaf_of(f.take(j + 1), dt) =~= leaf_of(f.take(j as int), dt));
                }
            }
            j = j + 1;
        }
        proof {
            assert(f.take(j as int) =~= f);
            assert(total_contrib(*profile, k + 1) == t0 + with_time(f, dt));
            assert(self_contrib(*profile, k + 1) == s0 + leaf_of(f, dt));
            assert(edge_contrib(*profile, k + 1) == e0 + edges_of(f, dt));
        }
        k = k + 1;
    }
    let ghost tc = total_contrib(*profile, n as int);
    let ghost sc = self_contrib(*profile, n as int);
    let ghost ec = edge_contrib(*profile, n as int);
    let (funcs, totals) = top_entries(&tk, &tt, top_n, Ghost(tc));
    let mut rows: Vec<BottomUpRow> = Vec::new();
    let mut r: usize = 0;
    while r < funcs.len()
        invariant
            r <= funcs@.len(),
            funcs@.len() == totals@.len(),
            rows@.len() == r,
            tc == total_contrib(*profile, sample_count(*profile)),
            sc == self_contrib(*profile, sample_count(*profile)),
            ec == edge_contrib(*profile, sample_count(*profile)),
            ranks(key_views(funcs@), totals@, tc, top_n as int),
            tallies(key_views(sk@), st@, sc),
            tallies(key_views(ek@), et@, ec),
            forall|q: int| 0 <= q < r ==> (#[trigger] rows@[q]).function@ == key_views(funcs@)[q]
                && rows@[q].total_time_us == totals@[q]
                && rows@[q].self_time_us == sum_for(sc, rows@[q].function@)
                && ranks(caller_names(rows@[q].main_callers@), caller_times(rows@[q].main_callers@), callers_of(ec, rows@[q].function@), 3),
        decreases funcs.len() - r,
    {
        let name = funcs[r].clone();
        // the time of the samples taken in this function
        let mut i: usize = 0;
        while i < sk.len() && !sk[i].same_key(&name)
            invariant
                i <= sk@.len(),
                forall|q: int| 0 <= q < i ==> key_views(sk@)[q] != name@,
            decreases sk.len() - i,
        {
            i = i + 1;
        }
        let self_time = if i < sk.len() { st[i] } else { 0 };
        proof {
            if i == sk.len() {
                if keys_of(sc).contains(name@) {
                    let w = choose|w: int| 0 <= w < keys_of(sc).len() && keys_of(sc)[w] == name@;
                    assert(key_views(sk@).contains(sc[w].0));
                    let q = choose|q: int| 0 <= q < key_views(sk@).len() && key_views(sk@)[q] == sc[w].0;
                    assert(false);
                }
                lemma_sum_for_absent(sc, name@);
            }
        }
        let (cs, ct) = callers_in_tally(&ek, &et, &name, Ghost(ec));
        let (top_callers, top_times) = top_entries(&cs, &ct, 3, Ghost(callers_of(ec, name@)));
        let mut callers: Vec<CallerRow> = Vec::new();
        let mut q: usize = 0;
        while q < top_times.len()
            invariant
                q <= top_times@.len(),
                top_callers@.len() == top_times@.len(),
                callers@.len() == q,
                forall|a: int| 0 <= a < q ==> (#[trigger] callers@[a]).caller@ == key_views(top_callers@)[a]
                    && callers@[a].time_us == top_times@[a],
            decreases top_times.len() - q,
        {
            callers.push(CallerRow { caller: top_callers[q].clone(), time_us: top_times[q] });
            q = q + 1;
        }
        assert(caller_names(callers@) =~= key_views(top_callers@));
        assert(caller_times(callers@) =~= top_times@);
        rows.push(BottomUpRow { function: name, self_time_us: self_time, total_time_us: totals[r], main_callers: callers });
        r = r + 1;
    }
    assert(row_functions(rows@) =~= key_views(funcs@));
    assert(row_totals(rows@) =~= totals@);
    rows
}

/// Whether no function's time, summed over the stacks it is on, exceeds a
/// `u64`: what the bottom-up view needs.
pub fn totals_fit_check(profile: &CpuProfile) -> (b: bool)
    requires
        walks_end(*profile),
    ensures
        b == totals_fit(*profile),
{
    let positions = node_positions(&profile.nodes);
    let parent = build_parent_map(profile);
    let n = if profile.samples.len() <= profile.time_deltas.len() { profile.samples.len() } else { profile.time_deltas.len() };
    let mut tk: Vec<String> = Vec::new();
    let mut tt: Vec<u64> = Vec::new();
    let mut k: usize = 0;
    while k < n
        invariant
            n == sample_count(*profile),
            k <= n,
            tallies(key_views(tk@), tt@, total_contrib(*profile, k as int)),
            walks_end(*profile),
            forall|x: u64| #[trigger] positions@.contains_key(x) == last_node(profile.nodes@, x) is Some,
            forall|x: u64| positions@.contains_key(x) ==> Some(#[trigger] positions@[x] as int) == last_node(profile.nodes@, x),
            forall|x: u64| #[trigger] parent@.contains_key(x) == first_parent(profile.nodes@, x) is Some,
            forall|x: u64| parent@.contains_key(x) ==> Some(#[trigger] parent@[x]) == first_parent(profile.nodes@, x),
        decreases n - k,
    {
        assert(walk_ok(profile.nodes@, profile.samples@[k as int], profile.nodes@.len() as nat));
        let fs = known_from(&profile.nodes, &positions, &parent, profile.samples[k]);
        let dt = profile.time_deltas[k];
        let ghost f = strings_seq(fs@);
        let ghost t0 = total_contrib(*profile, k as int);
        let mut j: usize = 0;
        assert(f.take(0) =~= Seq::<Seq<char>>::empty());
        assert(t0 + with_time(f.take(0), dt) =~= t0);
        while j < fs.len()
            invariant
                n == sample_count(*profile),
                k < n,
                f == strings_seq(fs@),
                f == sample_funcs(*profile, k as int),
                dt == profile.time_deltas@[k as int],
                t0 == total_contrib(*profile, k as int),
                j <= fs@.len(),
                tallies(key_views(tk@), tt@, t0 + with_time(f.take(j as int), dt)),
            decreases fs.len() - j,
        {
            let ghost tj = t0 + with_time(f.take(j as int), dt);
            proof {
                lemma_step_le(*profile, k as int, n as int, f, dt, j as int);
                assert(with_time(f.take(j + 1), dt) =~= with_time(f.take(j as int), dt).push((f[j as int], dt)));
                assert(t0 + with_time(f.take(j + 1), dt) =~= tj.push((f[j as int], dt)));
                lemma_sum_concat(tj, seq![(f[j as int], dt)]);
                assert(tj.push((f[j as int], dt)) =~= tj + seq![(f[j as int], dt)]);
                lemma_sum_single(f[j as int], dt, f[j as int]);
            }
            let ok = tally_add_checked(&mut tk, &mut tt, fs[j].clone(), dt, Ghost(tj));
            if !ok {
                proof {
                    let w = f[j as int];
                    assert(sum_for(total_contrib(*profile, n as int), w) > u64::MAX);
                }
                return false;
            }
            j = j + 1;
        }
        proof {
            assert(f.take(j as int) =~= f);
            assert(total_contrib(*profile, k + 1) == t0 + with_time(f, dt));
        }
        k = k + 1;
    }
    proof {
        let tc = total_contrib(*profile, n as int);
        assert forall|x: Seq<char>| #[trigger] sum_for(total_contrib(*profile, sample_count(*profile)), x) <= u64::MAX by {
            if key_views(tk@).contains(x) {
                let q = choose|q: int| 0 <= q < key_views(tk@).len() && key_views(tk@)[q] == x;
                assert(tt@[q] == sum_for(tc, key_views(tk@)[q]));
            } else {
                if keys_of(tc).contains(x) {
                    let w = choose|w: int| 0 <= w < keys_of(tc).len() && keys_of(tc)[w] == x;
                    assert(key_views(tk@).contains(tc[w].0));
                }
                lemma_sum_for_absent(tc, x);
            }
        }
    }
    true
}

} // verus!
