use vstd::prelude::*;
use std::collections::HashMap;
use crate::cpuprofile::{CpuNode, CpuProfile};
use crate::tally::{keys_of, ranks, sum_all, sum_for, tallies, key_views, tally_add, top_entries, lemma_sum_all_push, lemma_sum_for_le_all};
use crate::text::string_of;

verus! {

/// The position of the last node with the id `id`: the node that a lookup
/// by id finds.
pub open spec fn last_node(nodes: Seq<CpuNode>, id: u64) -> Option<int>
    decreases nodes.len(),
{
    if nodes.len() == 0 {
        None
    } else if nodes.last().id == id {
        Some(nodes.len() - 1)
    } else {
        last_node(nodes.drop_last(), id)
    }
}

pub proof fn lemma_last_node(nodes: Seq<CpuNode>, id: u64)
    ensures
        match last_node(nodes, id) {
            Some(i) => 0 <= i < nodes.len() && nodes[i].id == id,
            None => forall|i: int| 0 <= i < nodes.len() ==> nodes[i].id != id,
        },
    decreases nodes.len(),
{
    if nodes.len() > 0 {
        lemma_last_node(nodes.drop_last(), id);
        if nodes.last().id != id {
            assert forall|i: int| 0 <= i < nodes.len() - 1 implies nodes[i] == nodes.drop_last()[i] by {}
        }
    }
}

/// Each id of the profile's nodes, with the position of the last node that
/// has it.
pub(crate) fn node_positions(nodes: &Vec<CpuNode>) -> (m: HashMap<u64, usize>)
    ensures
        forall|id: u64| #[trigger] m@.contains_key(id) == last_node(nodes@, id) is Some,
        forall|id: u64| m@.contains_key(id) ==> Some(#[trigger] m@[id] as int) == last_node(nodes@, id),
{
    let mut m: HashMap<u64, usize> = HashMap::new();
    let mut i: usize = 0;
    while i < nodes.len()
        invariant
            i <= nodes@.len(),
            forall|id: u64| #[trigger] m@.contains_key(id) == last_node(nodes@.take(i as int), id) is Some,
            forall|id: u64| m@.contains_key(id) ==> Some(#[trigger] m@[id] as int) == last_node(nodes@.take(i as int), id),
        decreases nodes.len() - i,
    {
        m.insert(nodes[i].id, i);
        proof {
            assert(nodes@.take(i + 1).drop_last() =~= nodes@.take(i as int));
        }
        i = i + 1;
    }
    assert(nodes@.take(i as int) =~= nodes@);
    m
}

/// How many samples the profile pairs with a time.
pub open spec fn sample_count(p: CpuProfile) -> int {
    if p.samples@.len() <= p.time_deltas@.len() { p.samples@.len() as int } else { p.time_deltas@.len() as int }
}

/// The sum of the times.
pub open spec fn deltas_sum(d: Seq<u64>) -> nat
    decreases d.len(),
{
    if d.len() == 0 { 0 } else { deltas_sum(d.drop_last()) + d.last() as nat }
}

pub proof fn lemma_deltas_sum_prefix(d: Seq<u64>, k: int)
    requires
        0 <= k <= d.len(),
    ensures
        deltas_sum(d.take(k)) <= deltas_sum(d),
    decreases d.len(),
{
    if k < d.len() {
        assert(d.drop_last().take(k) =~= d.take(k));
        lemma_deltas_sum_prefix(d.drop_last(), k);
    } else {
        assert(d.take(k) =~= d);
    }
}

/// The time of the samples: the sum of the profile's times.
pub fn total_time_us(deltas: &Vec<u64>) -> (t: u64)
    requires
        deltas_sum(deltas@) <= u64::MAX,
    ensures
        t == deltas_sum(deltas@),
{
    let mut t: u64 = 0;
    let mut i: usize = 0;
    while i < deltas.len()
        invariant
            i <= deltas@.len(),
            t == deltas_sum(deltas@.take(i as int)),
            deltas_sum(deltas@) <= u64::MAX,
        decreases deltas.len() - i,
    {
        proof {
            assert(deltas@.take(i + 1).drop_last() =~= deltas@.take(i as int));
            lemma_deltas_sum_prefix(deltas@, i + 1);
        }
        t = t + deltas[i];
        i = i + 1;
    }
    assert(deltas@.take(i as int) =~= deltas@);
    t
}

/// The sum of the times, or `None` where it exceeds a `u64`.
pub fn deltas_sum_checked(deltas: &Vec<u64>) -> (r: Option<u64>)
    ensures
        r is Some <==> deltas_sum(deltas@) <= u64::MAX,
        match r {
            Some(t) => t == deltas_sum(deltas@),
            None => true,
        },
{
    let mut t: u64 = 0;
    let mut i: usize = 0;
    while i < deltas.len()
        invariant
            i <= deltas@.len(),
            t == deltas_sum(deltas@.take(i as int)),
        decreases deltas.len() - i,
    {
        proof {
            assert(deltas@.take(i + 1).drop_last() =~= deltas@.take(i as int));
            lemma_deltas_sum_prefix(deltas@, i + 1);
        }
        if t > u64::MAX - deltas[i] {
            return None;
        }
        t = t + deltas[i];
        i = i + 1;
    }
    assert(deltas@.take(i as int) =~= deltas@);
    Some(t)
}

/// Whether the frames of the sampled nodes can be counted from one: what the
/// hotspot rows need.
pub fn sampled_frames_check(profile: &CpuProfile) -> (b: bool)
    ensures
        b == sampled_frames_fit(*profile),
{
    let positions = node_positions(&profile.nodes);
    let n = if profile.samples.len() <= profile.time_deltas.len() { profile.samples.len() } else { profile.time_deltas.len() };
    let mut k: usize = 0;
    while k < n
        invariant
            n == sample_count(*profile),
            k <= n,
            forall|j: int| 0 <= j < k ==> #[trigger] frame_fits(profile.nodes@, profile.samples@[j]),
            forall|x: u64| #[trigger] positions@.contains_key(x) == last_node(profile.nodes@, x) is Some,
            forall|x: u64| positions@.contains_key(x) ==> Some(#[trigger] positions@[x] as int) == last_node(profile.nodes@, x),
        decreases n - k,
    {
        proof {
            lemma_last_node(profile.nodes@, profile.samples@[k as int]);
        }
        match positions.get(&profile.samples[k]) {
            Some(i) => {
                let f = &profile.nodes[*i].call_frame;
                if f.line_number == i64::MAX || f.column_number == i64::MAX {
                    assert(!frame_fits(profile.nodes@, profile.samples@[k as int]));
                    return false;
                }
            },
            None => {},
        }
        k = k + 1;
    }
    true
}

/// Each sample's node with the time before it.
pub open spec fn node_contributions(p: CpuProfile) -> Seq<(u64, u64)> {
    Seq::new(sample_count(p) as nat, |k: int| (p.samples@[k], p.time_deltas@[k]))
}

/// Whether the frame's line and column can be counted from one.
pub open spec fn frame_fits(nodes: Seq<CpuNode>, id: u64) -> bool {
    match last_node(nodes, id) {
        Some(i) => nodes[i].call_frame.line_number < i64::MAX && nodes[i].call_frame.column_number < i64::MAX,
        None => true,
    }
}

/// The frames of the sampled nodes can be counted from one.
pub open spec fn sampled_frames_fit(p: CpuProfile) -> bool {
    forall|k: int| 0 <= k < sample_count(p) ==> #[trigger] frame_fits(p.nodes@, p.samples@[k])
}

/// A node with the time that the samples spent in it.
#[derive(Debug, Clone)]
pub struct HotspotRow {
    pub id: u64,
    pub function_name: String,
    pub url: String,
    pub line_number: i64,
    pub column_number: i64,
    pub self_time_us: u64,
}

/// The row shows the node that a lookup of its id finds: the function's name
/// (`(anonymous)` where it has none), its url, its line and column counted
/// from one; an unknown id shows as `(anonymous)` at line 1, column 1.
pub open spec fn hotspot_matches(h: HotspotRow, nodes: Seq<CpuNode>) -> bool {
    match last_node(nodes, h.id) {
        Some(i) => {
            let f = nodes[i].call_frame;
            &&& h.function_name@ == (if f.function_name@.len() == 0 { "(anonymous)"@ } else { f.function_name@ })
            &&& h.url@ == f.url@
            &&& h.line_number == f.line_number + 1
            &&& h.column_number == f.column_number + 1
        },
        None => {
            &&& h.function_name@ == "(anonymous)"@
            &&& h.url@ == Seq::<char>::empty()
            &&& h.line_number == 1
            &&& h.column_number == 1
        },
    }
}

pub open spec fn hotspot_ids(rows: Seq<HotspotRow>) -> Seq<u64> {
    rows.map_values(|h: HotspotRow| h.id)
}

pub open spec fn hotspot_times(rows: Seq<HotspotRow>) -> Seq<u64> {
    rows.map_values(|h: HotspotRow| h.self_time_us)
}

/// The whole time and count of a profile's samples, and its nodes with the
/// most time.
#[derive(Debug)]
pub struct ProfileSummary {
    pub total_time_us: u64,
    pub total_samples: usize,
    pub hotspots: Vec<HotspotRow>,
}

/// Contributions that carry the profile's times, one per sample, sum to
/// the times of those samples.
pub proof fn lemma_prefix_sum<V>(c: Seq<(V, u64)>, d: Seq<u64>, k: int)
    requires
        0 <= k <= c.len(),
        k <= d.len(),
        forall|j: int| 0 <= j < k ==> #[trigger] c[j].1 == d[j],
    ensures
        sum_all(c.take(k)) == deltas_sum(d.take(k)),
    decreases k,
{
    if k > 0 {
        lemma_prefix_sum(c, d, k - 1);
        assert(c.take(k).drop_last() =~= c.take(k - 1));
        assert(d.take(k).drop_last() =~= d.take(k - 1));
    }
}

pub(crate) fn hotspot_row(nodes: &Vec<CpuNode>, positions: &HashMap<u64, usize>, id: u64, t: u64) -> (h: HotspotRow)
    requires
        forall|x: u64| #[trigger] positions@.contains_key(x) == last_node(nodes@, x) is Some,
        forall|x: u64| positions@.contains_key(x) ==> Some(#[trigger] positions@[x] as int) == last_node(nodes@, x),
        frame_fits(nodes@, id),
    ensures
        h.id == id,
        h.self_time_us == t,
        hotspot_matches(h, nodes@),
{
    proof {
        lemma_last_node(nodes@, id);
    }
    match positions.get(&id) {
        Some(i) => {
            let f = &nodes[*i].call_frame;
            let unnamed = crate::text::str_eq(f.function_name.as_str(), "");
            proof {
                reveal_strlit("");
                if f.function_name@.len() == 0 {
                    assert(f.function_name@ =~= ""@);
                }
            }
            let name = if unnamed { string_of("(anonymous)") } else { f.function_name.clone() };
            HotspotRow {
                id,
                function_name: name,
                url: f.url.clone(),
                line_number: f.line_number + 1,
                column_number: f.column_number + 1,
                self_time_us: t,
            }
        },
        None => HotspotRow {
            id,
            function_name: string_of("(anonymous)"),
            url: String::new(),
            line_number: 1,
            column_number: 1,
            self_time_us: t,
        },
    }
}

/// Each sampled node with the time that the samples spent in it.
pub(crate) fn node_tally(profile: &CpuProfile) -> (r: (Vec<u64>, Vec<u64>))
    requires
        deltas_sum(profile.time_deltas@) <= u64::MAX,
    ensures
        tallies(key_views(r.0@), r.1@, node_contributions(*profile)),
{
    let n = if profile.samples.len() <= profile.time_deltas.len() { profile.samples.len() } else { profile.time_deltas.len() };
    let ghost c = node_contributions(*profile);
    let mut keys: Vec<u64> = Vec::new();
    let mut times: Vec<u64> = Vec::new();
    let mut k: usize = 0;
    while k < n
        invariant
            n == sample_count(*profile),
            c == node_contributions(*profile),
            k <= n,
            tallies(key_views(keys@), times@, c.take(k as int)),
            deltas_sum(profile.time_deltas@) <= u64::MAX,
        decreases n - k,
    {
        proof {
            lemma_prefix_sum(c, profile.time_deltas@, k + 1);
            lemma_deltas_sum_prefix(profile.time_deltas@, k + 1);
            lemma_sum_all_push(c.take(k as int), c[k as int]);
            lemma_sum_for_le_all(c.take(k as int), c[k as int].0);
            assert(c.take(k + 1) =~= c.take(k as int).push(c[k as int]));
        }
        tally_add(&mut keys, &mut times, profile.samples[k], profile.time_deltas[k], Ghost(c.take(k as int)));
        k = k + 1;
    }
    assert(c.take(k as int) =~= c);
    (keys, times)
}

/// The profile's whole time and sample count, and the `top_n` nodes in
/// which the samples spent the most time, from the most.
pub fn summarize_profile(profile: &CpuProfile, top_n: usize) -> (r: ProfileSummary)
    requires
        deltas_sum(profile.time_deltas@) <= u64::MAX,
        sampled_frames_fit(*profile),
    ensures
        r.total_time_us == deltas_sum(profile.time_deltas@),
        r.total_samples == profile.samples@.len(),
        ranks(hotspot_ids(r.hotspots@), hotspot_times(r.hotspots@), node_contributions(*profile), top_n as int),
        forall|i: int| 0 <= i < r.hotspots@.len() ==> hotspot_matches(#[trigger] r.hotspots@[i], profile.nodes@),
{
    let total = total_time_us(&profile.time_deltas);
    let positions = node_positions(&profile.nodes);
    let ghost c = node_contributions(*profile);
    let (keys, times) = node_tally(profile);
    let (ids, ts) = top_entries(&keys, &times, top_n, Ghost(c));
    let mut rows: Vec<HotspotRow> = Vec::new();
    let mut i: usize = 0;
    while i < ids.len()
        invariant
            i <= ids@.len(),
            ids@.len() == ts@.len(),
            rows@.len() == i,
            ranks(key_views(ids@), ts@, c, top_n as int),
            c == node_contributions(*profile),
            sampled_frames_fit(*profile),
            forall|x: u64| #[trigger] positions@.contains_key(x) == last_node(profile.nodes@, x) is Some,
            forall|x: u64| positions@.contains_key(x) ==> Some(#[trigger] positions@[x] as int) == last_node(profile.nodes@, x),
            forall|q: int| 0 <= q < i ==> (#[trigger] rows@[q]).id == ids@[q] && rows@[q].self_time_us == ts@[q]
                && hotspot_matches(rows@[q], profile.nodes@),
        decreases ids.len() - i,
    {
        proof {
            assert(key_views(ids@)[i as int] == ids@[i as int]);
            assert(keys_of(c).contains(key_views(ids@)[i as int]));
            let w = choose|w: int| 0 <= w < keys_of(c).len() && keys_of(c)[w] == ids@[i as int];
            assert(c[w].0 == profile.samples@[w]);
            assert(frame_fits(profile.nodes@, profile.samples@[w]));
        }
        let h = hotspot_row(&profile.nodes, &positions, ids[i], ts[i]);
        rows.push(h);
        i = i + 1;
    }
    assert(hotspot_ids(rows@) =~= key_views(ids@));
    assert(hotspot_times(rows@) =~= ts@);
    ProfileSummary { total_time_us: total, total_samples: profile.samples.len(), hotspots: rows }
}

/// The script that a sample is counted to: the url of the node that a
/// lookup of its id finds, or `(internal)` where there is none.
pub open spec fn sample_url(nodes: Seq<CpuNode>, id: u64) -> Seq<char> {
    match last_node(nodes, id) {
        Some(i) => if nodes[i].call_frame.url@.len() > 0 { nodes[i].call_frame.url@ } else { "(internal)"@ },
        None => "(internal)"@,
    }
}

/// Each sample's script with the time before it.
pub open spec fn url_contributions(p: CpuProfile) -> Seq<(Seq<char>, u64)> {
    Seq::new(sample_count(p) as nat, |k: int| (sample_url(p.nodes@, p.samples@[k]), p.time_deltas@[k]))
}

/// A script with the time that the samples spent in it.
#[derive(Debug, Clone)]
pub struct UrlRow {
    pub url: String,
    pub self_time_us: u64,
}

pub open spec fn url_keys(rows: Seq<UrlRow>) -> Seq<Seq<char>> {
    rows.map_values(|r: UrlRow| r.url@)
}

pub open spec fn url_times(rows: Seq<UrlRow>) -> Seq<u64> {
    rows.map_values(|r: UrlRow| r.self_time_us)
}

fn url_of_sample(nodes: &Vec<CpuNode>, positions: &HashMap<u64, usize>, id: u64) -> (u: String)
    requires
        forall|x: u64| #[trigger] positions@.contains_key(x) == last_node(nodes@, x) is Some,
        forall|x: u64| positions@.contains_key(x) ==> Some(#[trigger] positions@[x] as int) == last_node(nodes@, x),
    ensures
        u@ == sample_url(nodes@, id),
{
    proof {
        lemma_last_node(nodes@, id);
    }
    match positions.get(&id) {
        Some(i) => {
            let f = &nodes[*i].call_frame;
            let none = crate::text::str_eq(f.url.as_str(), "");
            proof {
                reveal_strlit("");
                if f.url@.len() == 0 {
                    assert(f.url@ =~= ""@);
                }
            }
            if none { string_of("(internal)") } else { f.url.clone() }
        },
        None => string_of("(internal)"),
    }
}

/// The `top_n` scripts in which the samples spent the most time, from the
/// most.
pub fn summarize_by_url(profile: &CpuProfile, top_n: usize) -> (rows: Vec<UrlRow>)
    requires
        deltas_sum(profile.time_deltas@) <= u64::MAX,
    ensures
        ranks(url_keys(rows@), url_times(rows@), url_contributions(*profile), top_n as int),
{
    let positions = node_positions(&profile.nodes);
    let n = if profile.samples.len() <= profile.time_deltas.len() { profile.samples.len() } else { profile.time_deltas.len() };
    let ghost c = url_contributions(*profile);
    let mut keys: Vec<String> = Vec::new();
    let mut times: Vec<u64> = Vec::new();
    let mut k: usize = 0;
    while k < n
        invariant
            n == sample_count(*profile),
            c == url_contributions(*profile),
            k <= n,
            tallies(key_views(keys@), times@, c.take(k as int)),
            deltas_sum(profile.time_deltas@) <= u64::MAX,
            forall|x: u64| #[trigger] positions@.contains_key(x) == last_node(profile.nodes@, x) is Some,
            forall|x: u64| positions@.contains_key(x) ==> Some(#[trigger] positions@[x] as int) == last_node(profile.nodes@, x),
        decreases n - k,
    {
        proof {
            lemma_prefix_sum(c, profile.time_deltas@, k + 1);
            lemma_deltas_sum_prefix(profile.time_deltas@, k + 1);
            lemma_sum_all_push(c.take(k as int), c[k as int]);
            lemma_sum_for_le_all(c.take(k as int), c[k as int].0);
            assert(c.take(k + 1) =~= c.take(k as int).push(c[k as int]));
        }
        let u = url_of_sample(&profile.nodes, &positions, profile.samples[k]);
        tally_add(&mut keys, &mut times, u, profile.time_deltas[k], Ghost(c.take(k as int)));
        k = k + 1;
    }
    assert(c.take(k as int) =~= c);
    let (urls, ts) = top_entries(&keys, &times, top_n, Ghost(c));
    let mut rows: Vec<UrlRow> = Vec::new();
    let mut i: usize = 0;
    let ghost uv = key_views(urls@);
    while i < ts.len()
        invariant
            i <= ts@.len(),
            uv.len() == ts@.len(),
            rows@.len() == i,
            forall|q: int| 0 <= q < i ==> (#[trigger] rows@[q]).url@ == uv[q] && rows@[q].self_time_us == ts@[q],
            urls@.len() == ts@.len(),
            forall|q: int| 0 <= q < urls@.len() ==> #[trigger] urls@[q]@ == uv[q],
        decreases ts.len() - i,
    {
        let u = urls[i].clone();
        rows.push(UrlRow { url: u, self_time_us: ts[i] });
        i = i + 1;
    }
    assert(url_keys(rows@) =~= uv);
    assert(url_times(rows@) =~= ts@);
    rows
}

} // verus!
