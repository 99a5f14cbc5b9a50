use vstd::prelude::*;
use std::collections::HashMap;
use crate::cpuprofile::{CallFrame, CpuNode, CpuProfile, first_parent, spec_display_name, display_name, build_parent_map};
use crate::profile_stats::{last_node, lemma_last_node, node_positions, sample_count, deltas_sum, lemma_prefix_sum, lemma_deltas_sum_prefix};
use crate::tally::{keys_of, ranks, tallies, key_views, tally_add, top_entries, lemma_sum_all_push, lemma_sum_for_le_all, TallyKey};
use crate::text::{decimal, push_decimal_u64, string_of, strings_seq};

verus! {

/// How a node that the profile does not hold is shown: `unknown#` and its id.
pub open spec fn unknown_name(id: u64) -> Seq<char> {
    "unknown#"@ + decimal(id as nat)
}

/// Whether a frame's line and column can be counted from one.
pub open spec fn frame_ok(f: CallFrame) -> bool {
    f.line_number < i64::MAX && f.column_number < i64::MAX
}

/// The walk from the node `id` up through its parents ends within `fuel`
/// steps, and each frame met on the way can be shown.
pub open spec fn walk_ok(nodes: Seq<CpuNode>, id: u64, fuel: nat) -> bool
    decreases fuel,
{
    match last_node(nodes, id) {
        None => true,
        Some(i) => frame_ok(nodes[i].call_frame) && match first_parent(nodes, id) {
            None => true,
            Some(p) => fuel > 0 && walk_ok(nodes, p, (fuel - 1) as nat),
        },
    }
}

/// What the walk up from the node `id` meets, that node first: the frame of
/// each node, and an id that the profile does not hold as `unknown#id`, where
/// the walk stops.
pub open spec fn walk_up(nodes: Seq<CpuNode>, id: u64, fuel: nat) -> Seq<Seq<char>>
    decreases fuel,
{
    match last_node(nodes, id) {
        None => seq![unknown_name(id)],
        Some(i) => seq![spec_display_name(nodes[i].call_frame)] + match first_parent(nodes, id) {
            None => Seq::<Seq<char>>::empty(),
            Some(p) => if fuel > 0 { walk_up(nodes, p, (fuel - 1) as nat) } else { Seq::<Seq<char>>::empty() },
        },
    }
}

/// Every sampled node's walk to the root ends (a node's chain of parents
/// holds each node at most once, so as many steps as there are nodes
/// suffice), and its frames can be shown.
pub open spec fn walks_end(p: CpuProfile) -> bool {
    forall|k: int| 0 <= k < sample_count(p) ==> #[trigger] walk_ok(p.nodes@, p.samples@[k], p.nodes@.len() as nat)
}

/// The call path of the `k`-th sample, from the root down to the sampled
/// node.
pub open spec fn sample_path(p: CpuProfile, k: int) -> Seq<Seq<char>> {
    walk_up(p.nodes@, p.samples@[k], p.nodes@.len() as nat).reverse()
}

/// The parts joined, with `sep` between two neighbours.
pub open spec fn joined(parts: Seq<Seq<char>>, sep: Seq<char>) -> Seq<char>
    decreases parts.len(),
{
    if parts.len() == 0 {
        Seq::empty()
    } else if parts.len() == 1 {
        parts[0]
    } else {
        joined(parts.drop_last(), sep) + sep + parts.last()
    }
}

/// Each sample's call path, written out, with the time before it.
pub open spec fn hot_contributions(p: CpuProfile) -> Seq<(Seq<char>, u64)> {
    Seq::new(sample_count(p) as nat, |k: int| (joined(sample_path(p, k), " -> "@), p.time_deltas@[k]))
}

/// The parts joined, with `sep` between two neighbours.
pub fn join_str(parts: &Vec<String>, sep: &str) -> (r: String)
    ensures
        r@ == joined(strings_seq(parts@), sep@),
{
    let mut r = String::new();
    let mut i: usize = 0;
    while i < parts.len()
        invariant
            i <= parts@.len(),
            r@ == joined(strings_seq(parts@).take(i as int), sep@),
        decreases parts.len() - i,
    {
        let ghost before = strings_seq(parts@).take(i as int);
        assert(strings_seq(parts@).take(i + 1).drop_last() =~= before);
        if i > 0 {
            r.append(sep);
        } else {
            assert(r@ =~= Seq::<char>::empty());
        }
        r.append(parts[i].as_str());
        i = i + 1;
        proof {
            if i == 1 {
                assert(strings_seq(parts@).take(1) =~= seq![parts@[0]@]);
                assert(r@ =~= parts@[0]@);
            } else {
                assert(strings_seq(parts@).take(i as int).last() == parts@[i - 1]@);
            }
        }
    }
    assert(strings_seq(parts@).take(i as int) =~= strings_seq(parts@));
    r
}

fn reversed(v: &Vec<String>) -> (r: Vec<String>)
    ensures
        strings_seq(r@) == strings_seq(v@).reverse(),
{
    let mut r: Vec<String> = Vec::new();
    let mut i: usize = v.len();
    while i > 0
        invariant
            i <= v@.len(),
            strings_seq(r@) == strings_seq(v@).skip(i as int).reverse(),
        decreases i,
    {
        i = i - 1;
        let ghost before = strings_seq(r@);
        r.push(v[i].clone());
        proof {
            assert(strings_seq(r@) =~= before.push(v@[i as int]@));
            assert(strings_seq(v@).skip(i as int).reverse() =~= strings_seq(v@).skip(i + 1).reverse().push(v@[i as int]@));
        }
    }
    assert(strings_seq(v@).skip(0) =~= strings_seq(v@));
    r
}

fn unknown_label(id: u64) -> (s: String)
    ensures
        s@ == unknown_name(id),
{
    let mut s = string_of("unknown#");
    push_decimal_u64(&mut s, id);
    s
}

/// What the walk up from the sampled node `id` meets, that node first.
fn walk_from(nodes: &Vec<CpuNode>, positions: &HashMap<u64, usize>, parent: &HashMap<u64, u64>, id: u64) -> (chain: Vec<String>)
    requires
        forall|x: u64| #[trigger] positions@.contains_key(x) == last_node(nodes@, x) is Some,
        forall|x: u64| positions@.contains_key(x) ==> Some(#[trigger] positions@[x] as int) == last_node(nodes@, x),
        forall|c: u64| #[trigger] parent@.contains_key(c) == first_parent(nodes@, c) is Some,
        forall|c: u64| parent@.contains_key(c) ==> Some(#[trigger] parent@[c]) == first_parent(nodes@, c),
        walk_ok(nodes@, id, nodes@.len() as nat),
    ensures
        strings_seq(chain@) == walk_up(nodes@, id, nodes@.len() as nat),
{
    let ghost full = walk_up(nodes@, id, nodes@.len() as nat);
    let mut chain: Vec<String> = Vec::new();
    let mut current = id;
    let ghost mut fuel: nat = nodes@.len() as nat;
    let mut done = false;
    while !done
        invariant
            forall|x: u64| #[trigger] positions@.contains_key(x) == last_node(nodes@, x) is Some,
            forall|x: u64| positions@.contains_key(x) ==> Some(#[trigger] positions@[x] as int) == last_node(nodes@, x),
            forall|c: u64| #[trigger] parent@.contains_key(c) == first_parent(nodes@, c) is Some,
            forall|c: u64| parent@.contains_key(c) ==> Some(#[trigger] parent@[c]) == first_parent(nodes@, c),
            full == walk_up(nodes@, id, nodes@.len() as nat),
            done ==> strings_seq(chain@) == full,
            !done ==> walk_ok(nodes@, current, fuel),
            !done ==> strings_seq(chain@) + walk_up(nodes@, current, fuel) == full,
        decreases fuel + if done { 0int } else { 1int },
    {
        proof {
            lemma_last_node(nodes@, current);
        }
        let ghost before = strings_seq(chain@);
        match positions.get(&current) {
            None => {
                let u = unknown_label(current);
                chain.push(u);
                assert(strings_seq(chain@) =~= before + walk_up(nodes@, current, fuel));
                done = true;
            },
            Some(i) => {
                let shown = display_name(&nodes[*i].call_frame);
                chain.push(shown);
                assert(strings_seq(chain@) =~= before.push(spec_display_name(nodes@[*i as int].call_frame)));
                match parent.get(&current) {
                    None => {
                        assert(strings_seq(chain@) =~= before + walk_up(nodes@, current, fuel));
                        done = true;
                    },
                    Some(p) => {
                        let ghost rest = walk_up(nodes@, *p, (fuel - 1) as nat);
                        assert(walk_up(nodes@, current, fuel) =~= seq![spec_display_name(nodes@[*i as int].call_frame)] + rest);
                        assert(strings_seq(chain@) + rest =~= before + walk_up(nodes@, current, fuel));
                        current = *p;
                        proof {
                            fuel = (fuel - 1) as nat;
                        }
                    },
                }
            },
        }
    }
    chain
}

fn walk_ok_check(nodes: &Vec<CpuNode>, positions: &HashMap<u64, usize>, parent: &HashMap<u64, u64>, id: u64) -> (b: bool)
    requires
        forall|x: u64| #[trigger] positions@.contains_key(x) == last_node(nodes@, x) is Some,
        forall|x: u64| positions@.contains_key(x) ==> Some(#[trigger] positions@[x] as int) == last_node(nodes@, x),
        forall|c: u64| #[trigger] parent@.contains_key(c) == first_parent(nodes@, c) is Some,
        forall|c: u64| parent@.contains_key(c) ==> Some(#[trigger] parent@[c]) == first_parent(nodes@, c),
    ensures
        b == walk_ok(nodes@, id, nodes@.len() as nat),
{
    let mut current = id;
    let mut fuel: usize = nodes.len();
    loop
        invariant
            forall|x: u64| #[trigger] positions@.contains_key(x) == last_node(nodes@, x) is Some,
            forall|x: u64| positions@.contains_key(x) ==> Some(#[trigger] positions@[x] as int) == last_node(nodes@, x),
            forall|c: u64| #[trigger] parent@.contains_key(c) == first_parent(nodes@, c) is Some,
            forall|c: u64| parent@.contains_key(c) ==> Some(#[trigger] parent@[c]) == first_parent(nodes@, c),
            walk_ok(nodes@, id, nodes@.len() as nat) == walk_ok(nodes@, current, fuel as nat),
        decreases fuel,
    {
        proof {
            lemma_last_node(nodes@, current);
        }
        match positions.get(&current) {
            None => {
                return true;
            },
            Some(i) => {
                let f = &nodes[*i].call_frame;
                if f.line_number == i64::MAX || f.column_number == i64::MAX {
                    return false;
                }
                match parent.get(&current) {
                    None => {
                        return true;
                    },
                    Some(p) => {
                        if fuel == 0 {
                            return false;
                        }
                        current = *p;
                        fuel = fuel - 1;
                    },
                }
            },
        }
    }
}

/// Whether every sampled node's walk to the root ends and shows only frames
/// that can be shown: what the call-path views need.
pub fn walks_end_check(profile: &CpuProfile) -> (b: bool)
    ensures
        b == walks_end(*profile),
{
    let positions = node_positions(&profile.nodes);
    let parent = build_parent_map(profile);
    let n = if profile.samples.len() <= profile.time_deltas.len() { profile.samples.len() } else { profile.time_deltas.len() };
    let mut k: usize = 0;
    while k < n
        invariant
            n == sample_count(*profile),
            k <= n,
            forall|j: int| 0 <= j < k ==> #[trigger] walk_ok(profile.nodes@, profile.samples@[j], profile.nodes@.len() as nat),
            forall|x: u64| #[trigger] positions@.contains_key(x) == last_node(profile.nodes@, x) is Some,
            forall|x: u64| positions@.contains_key(x) ==> Some(#[trigger] positions@[x] as int) == last_node(profile.nodes@, x),
            forall|x: u64| #[trigger] parent@.contains_key(x) == first_parent(profile.nodes@, x) is Some,
            forall|x: u64| parent@.contains_key(x) ==> Some(#[trigger] parent@[x]) == first_parent(profile.nodes@, x),
        decreases n - k,
    {
        if !walk_ok_check(&profile.nodes, &positions, &parent, profile.samples[k]) {
            return false;
        }
        k = k + 1;
    }
    true
}

/// A call path with the time that the samples spent on it.
#[derive(Debug, Clone)]
pub struct HotPathRow {
    pub path: Vec<String>,
    pub time_us: u64,
}

pub open spec fn path_keys(rows: Seq<HotPathRow>) -> Seq<Seq<char>> {
    rows.map_values(|r: HotPathRow| joined(strings_seq(r.path@), " -> "@))
}

pub open spec fn path_times(rows: Seq<HotPathRow>) -> Seq<u64> {
    rows.map_values(|r: HotPathRow| r.time_us)
}

/// The row's path is the call path of the first sample that has it.
pub open spec fn path_of_first_sample(row: HotPathRow, p: CpuProfile) -> bool {
    exists|k: int| 0 <= k < sample_count(p)
        && strings_seq(row.path@) == sample_path(p, k)
        && forall|j: int| 0 <= j < k ==> (#[trigger] hot_contributions(p)[j]).0 != hot_contributions(p)[k].0
}

/// The `top_n` call paths on which the samples spent the most time, from the
/// most, each from the root down to the sampled node.
pub fn get_hot_paths(profile: &CpuProfile, top_n: usize) -> (rows: Vec<HotPathRow>)
    requires
        deltas_sum(profile.time_deltas@) <= u64::MAX,
        walks_end(*profile),
    ensures
        ranks(path_keys(rows@), path_times(rows@), hot_contributions(*profile), top_n as int),
        forall|i: int| 0 <= i < rows@.len() ==> path_of_first_sample(#[trigger] rows@[i], *profile),
{
    let positions = node_positions(&profile.nodes);
    let parent = build_parent_map(profile);
    let n = if profile.samples.len() <= profile.time_deltas.len() { profile.samples.len() } else { profile.time_deltas.len() };
    let ghost c = hot_contributions(*profile);
    let mut keys: Vec<String> = Vec::new();
    let mut times: Vec<u64> = Vec::new();
    let mut paths: Vec<Vec<String>> = Vec::new();
    let ghost mut firsts: Seq<int> = Seq::empty();
    let mut k: usize = 0;
    while k < n
        invariant
            n == sample_count(*profile),
            c == hot_contributions(*profile),
            k <= n,
            tallies(key_views(keys@), times@, c.take(k as int)),
            deltas_sum(profile.time_deltas@) <= u64::MAX,
            walks_end(*profile),
            forall|x: u64| #[trigger] positions@.contains_key(x) == last_node(profile.nodes@, x) is Some,
            forall|x: u64| positions@.contains_key(x) ==> Some(#[trigger] positions@[x] as int) == last_node(profile.nodes@, x),
            forall|x: u64| #[trigger] parent@.contains_key(x) == first_parent(profile.nodes@, x) is Some,
            forall|x: u64| parent@.contains_key(x) ==> Some(#[trigger] parent@[x]) == first_parent(profile.nodes@, x),
            paths@.len() == keys@.len(),
            firsts.len() == keys@.len(),
            forall|i: int| 0 <= i < keys@.len() ==> 0 <= #[trigger] firsts[i] < k
                && c[firsts[i]].0 == key_views(keys@)[i]
                && strings_seq(paths@[i]@) == sample_path(*profile, firsts[i])
                && forall|j: int| 0 <= j < firsts[i] ==> (#[trigger] c[j]).0 != c[firsts[i]].0,
        decreases n - k,
    {
        proof {
            lemma_prefix_sum(c, profile.time_deltas@, k + 1);
            lemma_deltas_sum_prefix(profile.time_deltas@, k + 1);
            lemma_sum_all_push(c.take(k as int), c[k as int]);
            lemma_sum_for_le_all(c.take(k as int), c[k as int].0);
            assert(c.take(k + 1) =~= c.take(k as int).push(c[k as int]));
            assert(walk_ok(profile.nodes@, profile.samples@[k as int], profile.nodes@.len() as nat));
        }
        let chain = walk_from(&profile.nodes, &positions, &parent, profile.samples[k]);
        let path = reversed(&chain);
        let key = join_str(&path, " -> ");
        assert(key@ == c[k as int].0);
        let ghost old_keys = key_views(keys@);
        let ghost ck = c.take(k as int);
        tally_add(&mut keys, &mut times, key, profile.time_deltas[k], Ghost(ck));
        if keys.len() > paths.len() {
            proof {
                // the key is new, so no earlier sample had it
                assert forall|j: int| 0 <= j < k implies (#[trigger] c[j]).0 != c[k as int].0 by {
                    assert(ck[j] == c[j]);
                    assert(old_keys.contains(ck[j].0));
                    let w = choose|w: int| 0 <= w < old_keys.len() && old_keys[w] == ck[j].0;
                    assert(key_views(keys@)[w] == old_keys[w]);
                    assert(key_views(keys@).no_duplicates());
                }
                firsts = firsts.push(k as int);
            }
            paths.push(path);
        }
        proof {
            assert forall|i: int| 0 <= i < old_keys.len() implies key_views(keys@)[i] == old_keys[i] by {}
        }
        k = k + 1;
    }
    assert(c.take(k as int) =~= c);
    let (top, ts) = top_entries(&keys, &times, top_n, Ghost(c));
    let mut rows: Vec<HotPathRow> = Vec::new();
    let mut r: usize = 0;
    while r < ts.len()
        invariant
            r <= ts@.len(),
            top@.len() == ts@.len(),
            rows@.len() == r,
            ranks(key_views(top@), ts@, c, top_n as int),
            tallies(key_views(keys@), times@, c),
            c == hot_contributions(*profile),
            paths@.len() == keys@.len(),
            firsts.len() == keys@.len(),
            forall|i: int| 0 <= i < keys@.len() ==> 0 <= #[trigger] firsts[i] < sample_count(*profile)
                && c[firsts[i]].0 == key_views(keys@)[i]
                && strings_seq(paths@[i]@) == sample_path(*profile, firsts[i])
                && forall|j: int| 0 <= j < firsts[i] ==> (#[trigger] c[j]).0 != c[firsts[i]].0,
            forall|q: int| 0 <= q < r ==> joined(strings_seq((#[trigger] rows@[q]).path@), " -> "@) == key_views(top@)[q]
                && rows@[q].time_us == ts@[q] && path_of_first_sample(rows@[q], *profile),
        decreases ts.len() - r,
    {
        // find the tally entry of this path
        let mut i: usize = 0;
        proof {
            assert(keys_of(c).contains(key_views(top@)[r as int]));
            let w = choose|w: int| 0 <= w < keys_of(c).len() && keys_of(c)[w] == key_views(top@)[r as int];
            assert(key_views(keys@).contains(c[w].0));
        }
        while i < keys.len() && !keys[i].same_key(&top[r])
            invariant
                i <= keys@.len(),
                key_views(keys@).contains(key_views(top@)[r as int]),
                r < top@.len(),
                forall|j: int| 0 <= j < i ==> key_views(keys@)[j] != key_views(top@)[r as int],
            decreases keys.len() - i,
        {
            i = i + 1;
        }
        proof {
            if i == keys.len() {
                let w = choose|w: int| 0 <= w < key_views(keys@).len() && key_views(keys@)[w] == key_views(top@)[r as int];
                assert(false);
            }
        }
        let path = paths[i].clone();
        let ghost f = firsts[i as int];
        assert(strings_seq(path@) == sample_path(*profile, f));
        assert(c[f] == hot_contributions(*profile)[f]);
        assert(c[f].0 == joined(sample_path(*profile, f), " -> "@));
        rows.push(HotPathRow { path, time_us: ts[r] });
        r = r + 1;
    }
    assert(path_keys(rows@) =~= key_views(top@));
    assert(path_times(rows@) =~= ts@);
    rows
}

} // verus!
