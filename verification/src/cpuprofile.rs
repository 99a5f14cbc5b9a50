use vstd::prelude::*;
use std::collections::HashMap;
use crate::text::{decimal, concat_str, push_decimal_u64, string_of};

verus! {

/// Where a profiled function is: its name, its script and its position
/// (counted from zero).
#[derive(Debug, Clone)]
pub struct CallFrame {
    pub function_name: String,
    pub url: String,
    pub line_number: i64,
    pub column_number: i64,
}

/// A node of a CPU profile's call tree.
#[derive(Debug)]
pub struct CpuNode {
    pub id: u64,
    pub call_frame: CallFrame,
    pub children: Vec<u64>,
    pub hit_count: u64,
}

/// A CPU profile: the call tree, and the sampled nodes with the time
/// before each sample.
#[derive(Debug)]
pub struct CpuProfile {
    pub nodes: Vec<CpuNode>,
    pub samples: Vec<u64>,
    pub time_deltas: Vec<u64>,
}

/// The decimal numeral of an integer, with a minus sign when negative.
pub open spec fn signed_decimal(n: int) -> Seq<char> {
    if n < 0 { "-"@ + decimal((-n) as nat) } else { decimal(n as nat) }
}

pub(crate) fn push_signed_decimal(s: &mut String, n: i64)
    ensures
        final(s)@ == old(s)@ + signed_decimal(n as int),
{
    if n < 0 {
        s.append("-");
        let m: i128 = -(n as i128);
        push_decimal_u64(s, m as u64);
        assert(final(s)@ =~= old(s)@ + signed_decimal(n as int));
    } else {
        push_decimal_u64(s, n as u64);
    }
}

/// How a frame is shown: `name @ url:line:column`, with `(anonymous)` for a
/// function without a name, `(internal)` for a frame without a url, and
/// the line and column counted from one.
pub open spec fn spec_display_name(f: CallFrame) -> Seq<char> {
    (if f.function_name@.len() == 0 { "(anonymous)"@ } else { f.function_name@ })
        + " @ "@
        + (if f.url@.len() == 0 { "(internal)"@ } else { f.url@ })
        + ":"@ + signed_decimal(f.line_number + 1) + ":"@ + signed_decimal(f.column_number + 1)
}

/// How a frame is shown.
pub fn display_name(frame: &CallFrame) -> (r: String)
    requires
        frame.line_number < i64::MAX,
        frame.column_number < i64::MAX,
    ensures
        r@ == spec_display_name(*frame),
{
    let empty_name = crate::text::str_eq(frame.function_name.as_str(), "");
    let empty_url = crate::text::str_eq(frame.url.as_str(), "");
    proof {
        reveal_strlit("");
        if frame.function_name@.len() == 0 { assert(frame.function_name@ =~= ""@); }
        if frame.url@.len() == 0 { assert(frame.url@ =~= ""@); }
    }
    let mut r = if empty_name { string_of("(anonymous)") } else { frame.function_name.clone() };
    r.append(" @ ");
    if empty_url {
        r.append("(internal)");
    } else {
        r.append(frame.url.as_str());
    }
    r.append(":");
    push_signed_decimal(&mut r, frame.line_number + 1);
    r.append(":");
    push_signed_decimal(&mut r, frame.column_number + 1);
    assert(r@ =~= spec_display_name(*frame));
    r
}

/// The parent that the call tree gives a node: the first node, in the
/// profile's order, that lists it as a child.
pub open spec fn first_parent(nodes: Seq<CpuNode>, child: u64) -> Option<u64>
    decreases nodes.len(),
{
    if nodes.len() == 0 {
        None
    } else if nodes[0].children@.contains(child) {
        Some(nodes[0].id)
    } else {
        first_parent(nodes.drop_first(), child)
    }
}

/// Each node's parent in the call tree (the first node that lists it as a
/// child, where several do).
pub fn build_parent_map(profile: &CpuProfile) -> (parent: HashMap<u64, u64>)
    ensures
        forall|c: u64| #[trigger] parent@.contains_key(c) == first_parent(profile.nodes@, c) is Some,
        forall|c: u64| parent@.contains_key(c) ==> Some(#[trigger] parent@[c]) == first_parent(profile.nodes@, c),
{
    let mut parent: HashMap<u64, u64> = HashMap::new();
    let ghost nodes = profile.nodes@;
    let mut i: usize = 0;
    while i < profile.nodes.len()
        invariant
            nodes == profile.nodes@,
            i <= nodes.len(),
            forall|c: u64| #[trigger] parent@.contains_key(c) == first_parent(nodes.take(i as int), c) is Some,
            forall|c: u64| parent@.contains_key(c) ==> Some(#[trigger] parent@[c]) == first_parent(nodes.take(i as int), c),
        decreases profile.nodes.len() - i,
    {
        let node = &profile.nodes[i];
        let mut j: usize = 0;
        while j < node.children.len()
            invariant
                nodes == profile.nodes@,
                i < nodes.len(),
                *node == nodes[i as int],
                j <= node.children@.len(),
                forall|c: u64| #[trigger] parent@.contains_key(c) ==
                    (first_parent(nodes.take(i as int), c) is Some || node.children@.take(j as int).contains(c)),
                forall|c: u64| parent@.contains_key(c) ==> Some(#[trigger] parent@[c]) ==
                    (if first_parent(nodes.take(i as int), c) is Some { first_parent(nodes.take(i as int), c) } else { Some(node.id) }),
            decreases node.children.len() - j,
        {
            let child = node.children[j];
            if !parent.contains_key(&child) {
                parent.insert(child, node.id);
            }
            proof {
                assert(node.children@.take(j + 1) =~= node.children@.take(j as int).push(child));
                assert forall|c: u64| node.children@.take(j + 1).contains(c) == (node.children@.take(j as int).contains(c) || c == child) by {
                    lemma_contains_push(node.children@.take(j as int), child, c);
                }
            }
            j = j + 1;
        }
        proof {
            assert(node.children@.take(j as int) =~= node.children@);
            lemma_first_parent_extend(nodes, i as int);
        }
        i = i + 1;
    }
    assert(nodes.take(i as int) =~= nodes);
    parent
}

proof fn lemma_first_parent_extend(nodes: Seq<CpuNode>, i: int)
    requires
        0 <= i < nodes.len(),
    ensures
        forall|c: u64| #[trigger] first_parent(nodes.take(i + 1), c) == (if first_parent(nodes.take(i), c) is Some {
            first_parent(nodes.take(i), c)
        } else if nodes[i].children@.contains(c) {
            Some(nodes[i].id)
        } else {
            None::<u64>
        }),
    decreases i,
{
    assert forall|c: u64| #[trigger] first_parent(nodes.take(i + 1), c) == (if first_parent(nodes.take(i), c) is Some {
        first_parent(nodes.take(i), c)
    } else if nodes[i].children@.contains(c) {
        Some(nodes[i].id)
    } else {
        None::<u64>
    }) by {
        lemma_first_parent_prefix(nodes.take(i + 1), i, c);
        assert(nodes.take(i + 1).take(i) =~= nodes.take(i));
    }
}

proof fn lemma_first_parent_prefix(s: Seq<CpuNode>, i: int, c: u64)
    requires
        0 <= i,
        i + 1 == s.len(),
    ensures
        first_parent(s, c) == (if first_parent(s.take(i), c) is Some {
            first_parent(s.take(i), c)
        } else if s[i].children@.contains(c) {
            Some(s[i].id)
        } else {
            None::<u64>
        }),
    decreases i,
{
    if i > 0 {
        lemma_first_parent_prefix(s.drop_first(), i - 1, c);
        assert(s.drop_first().take(i - 1) =~= s.take(i).drop_first());
        assert(s.drop_first()[i - 1] == s[i]);
        assert(s.take(i)[0] == s[0]);
    } else {
        assert(s.drop_first() =~= Seq::<CpuNode>::empty());
        assert(s.take(0) =~= Seq::<CpuNode>::empty());
    }
}

proof fn lemma_contains_push(s: Seq<u64>, x: u64, y: u64)
    ensures
        s.push(x).contains(y) == (s.contains(y) || x == y),
{
    if s.contains(y) {
        let k = choose|k: int| 0 <= k < s.len() && s[k] == y;
        assert(s.push(x)[k] == y);
    }
    if x == y {
        assert(s.push(x)[s.len() as int] == y);
    }
    if s.push(x).contains(y) {
        let k = choose|k: int| 0 <= k < s.push(x).len() && s.push(x)[k] == y;
        if k < s.len() {
            assert(s[k] == y);
        }
    }
}

/// The position of the first node with the id `id`.
pub open spec fn first_node(nodes: Seq<CpuNode>, id: u64) -> Option<int>
    decreases nodes.len(),
{
    if nodes.len() == 0 {
        None
    } else if nodes[0].id == id {
        Some(0)
    } else {
        match first_node(nodes.drop_first(), id) {
            Some(i) => Some(i + 1),
            None => None,
        }
    }
}

proof fn lemma_first_node(nodes: Seq<CpuNode>, id: u64)
    ensures
        match first_node(nodes, id) {
            Some(i) => 0 <= i < nodes.len() && nodes[i].id == id && forall|j: int| 0 <= j < i ==> nodes[j].id != id,
            None => forall|j: int| 0 <= j < nodes.len() ==> nodes[j].id != id,
        },
    decreases nodes.len(),
{
    if nodes.len() > 0 {
        lemma_first_node(nodes.drop_first(), id);
        assert forall|j: int| 0 < j < nodes.len() implies nodes[j] == nodes.drop_first()[j - 1] by {}
    }
}

/// An optional id as Rust's debug format shows it.
pub open spec fn debug_option(o: Option<u64>) -> Seq<char> {
    match o {
        Some(p) => "Some("@ + decimal(p as nat) + ")"@,
        None => "None"@,
    }
}

/// The ids, separated by `, `.
pub open spec fn list_items(v: Seq<u64>) -> Seq<char>
    decreases v.len(),
{
    if v.len() == 0 {
        Seq::empty()
    } else if v.len() == 1 {
        decimal(v[0] as nat)
    } else {
        list_items(v.drop_last()) + ", "@ + decimal(v.last() as nat)
    }
}

/// A node's description: its id, its frame, its hit count, its parent and
/// its children.
pub open spec fn inspect_text(n: CpuNode, parent: Option<u64>) -> Seq<char> {
    "Node "@ + decimal(n.id as nat) + ": "@ + spec_display_name(n.call_frame) + " (hitCount="@
        + decimal(n.hit_count as nat) + ", parent="@ + debug_option(parent) + ", children=["@
        + list_items(n.children@) + "])"@
}

/// What is shown of a node.
#[derive(Debug)]
pub struct NodeInfo {
    pub id: u64,
    pub function_name: String,
    pub url: String,
    pub line: i64,
    pub column: i64,
    pub hit_count: u64,
    pub parent_id: Option<u64>,
    pub children: Vec<u64>,
    pub text: String,
}

/// A node's details, or the text that says it is not there.
#[derive(Debug)]
pub enum NodeReport {
    Found(NodeInfo),
    Missing(String),
}

/// The frame of the first node with the id `id` can be counted from one.
pub open spec fn first_frame_fits(nodes: Seq<CpuNode>, id: u64) -> bool {
    match first_node(nodes, id) {
        Some(i) => nodes[i].call_frame.line_number < i64::MAX && nodes[i].call_frame.column_number < i64::MAX,
        None => true,
    }
}

/// Whether the frame of the first node with the id `id` can be counted
/// from one: what `inspect_node` needs.
pub fn first_frame_check(profile: &CpuProfile, id: u64) -> (b: bool)
    ensures
        b == first_frame_fits(profile.nodes@, id),
{
    proof {
        lemma_first_node(profile.nodes@, id);
    }
    let mut i: usize = 0;
    while i < profile.nodes.len() && profile.nodes[i].id != id
        invariant
            i <= profile.nodes@.len(),
            forall|j: int| 0 <= j < i ==> profile.nodes@[j].id != id,
        decreases profile.nodes.len() - i,
    {
        i = i + 1;
    }
    if i == profile.nodes.len() {
        proof {
            if first_node(profile.nodes@, id) is Some {
                let k = first_node(profile.nodes@, id).unwrap();
                assert(profile.nodes@[k].id == id);
            }
        }
        return true;
    }
    proof {
        let k = first_node(profile.nodes@, id).unwrap();
        if k < i {
            assert(profile.nodes@[k].id != id);
        }
        if i < k {
            assert(profile.nodes@[i as int].id != id);
        }
    }
    let f = &profile.nodes[i].call_frame;
    f.line_number < i64::MAX && f.column_number < i64::MAX
}

/// The details of the first node with the id `node_id`: its frame (with
/// `(anonymous)` and `(internal)` for a missing name or url, the line and
/// column counted from one), hit count, parent and children, and a line
/// that describes it; or `Node <id> not found.`.
pub fn inspect_node(profile: &CpuProfile, node_id: u64) -> (r: NodeReport)
    requires
        first_frame_fits(profile.nodes@, node_id),
    ensures
        match r {
            NodeReport::Found(info) => {
                &&& first_node(profile.nodes@, node_id) is Some
                &&& {
                    let n = profile.nodes@[first_node(profile.nodes@, node_id).unwrap()];
                    let f = n.call_frame;
                    &&& info.id == n.id
                    &&& info.function_name@ == (if f.function_name@.len() == 0 { "(anonymous)"@ } else { f.function_name@ })
                    &&& info.url@ == (if f.url@.len() == 0 { "(internal)"@ } else { f.url@ })
                    &&& info.line == f.line_number + 1
                    &&& info.column == f.column_number + 1
                    &&& info.hit_count == n.hit_count
                    &&& info.parent_id == first_parent(profile.nodes@, n.id)
                    &&& info.children@ == n.children@
                    &&& info.text@ == inspect_text(n, first_parent(profile.nodes@, n.id))
                }
            },
            NodeReport::Missing(text) => first_node(profile.nodes@, node_id) is None
                && text@ == "Node "@ + decimal(node_id as nat) + " not found."@,
        },
{
    proof {
        lemma_first_node(profile.nodes@, node_id);
    }
    let mut i: usize = 0;
    while i < profile.nodes.len() && profile.nodes[i].id != node_id
        invariant
            i <= profile.nodes@.len(),
            forall|j: int| 0 <= j < i ==> profile.nodes@[j].id != node_id,
        decreases profile.nodes.len() - i,
    {
        i = i + 1;
    }
    if i == profile.nodes.len() {
        proof {
            if first_node(profile.nodes@, node_id) is Some {
                let k = first_node(profile.nodes@, node_id).unwrap();
                assert(profile.nodes@[k].id == node_id);
            }
        }
        let mut text = string_of("Node ");
        push_decimal_u64(&mut text, node_id);
        text.append(" not found.");
        return NodeReport::Missing(text);
    }
    proof {
        let k = first_node(profile.nodes@, node_id).unwrap();
        if k < i {
            assert(profile.nodes@[k].id != node_id);
        }
        if i < k {
            assert(profile.nodes@[i as int].id != node_id);
        }
    }
    let node = &profile.nodes[i];
    let parent = build_parent_map(profile);
    let parent_id = match parent.get(&node.id) {
        Some(p) => Some(*p),
        None => None,
    };
    let f = &node.call_frame;
    let empty_name = crate::text::str_eq(f.function_name.as_str(), "");
    let empty_url = crate::text::str_eq(f.url.as_str(), "");
    proof {
        reveal_strlit("");
        if f.function_name@.len() == 0 { assert(f.function_name@ =~= ""@); }
        if f.url@.len() == 0 { assert(f.url@ =~= ""@); }
    }
    let name = if empty_name { string_of("(anonymous)") } else { f.function_name.clone() };
    let url = if empty_url { string_of("(internal)") } else { f.url.clone() };
    let mut text = string_of("Node ");
    push_decimal_u64(&mut text, node.id);
    text.append(": ");
    let shown = display_name(f);
    text.append(shown.as_str());
    text.append(" (hitCount=");
    push_decimal_u64(&mut text, node.hit_count);
    text.append(", parent=");
    match parent_id {
        Some(p) => {
            text.append("Some(");
            push_decimal_u64(&mut text, p);
            text.append(")");
        },
        None => {
            text.append("None");
        },
    }
    text.append(", children=[");
    let ghost prefix = text@;
    let mut j: usize = 0;
    while j < node.children.len()
        invariant
            j <= node.children@.len(),
            text@ == prefix + list_items(node.children@.take(j as int)),
        decreases node.children.len() - j,
    {
        if j > 0 {
            text.append(", ");
        }
        push_decimal_u64(&mut text, node.children[j]);
        proof {
            let t = node.children@.take(j + 1);
            assert(t.drop_last() =~= node.children@.take(j as int));
            if j == 0 {
                assert(list_items(node.children@.take(0)) =~= Seq::<char>::empty());
                assert(text@ =~= prefix + list_items(t));
            } else {
                assert(text@ =~= prefix + list_items(t));
            }
        }
        j = j + 1;
    }
    assert(node.children@.take(j as int) =~= node.children@);
    text.append("])");
    let info = NodeInfo {
        id: node.id,
        function_name: name,
        url,
        line: f.line_number + 1,
        column: f.column_number + 1,
        hit_count: node.hit_count,
        parent_id,
        children: node.children.clone(),
        text,
    };
    assert(info.text@ =~= inspect_text(*node, first_parent(profile.nodes@, node.id)));
    NodeReport::Found(info)
}

/// The message with which a profile whose samples and times differ in
/// number is refused.
pub open spec fn mismatch_message(samples: nat, deltas: nat) -> Seq<char> {
    "Invalid .cpuprofile: samples ("@ + decimal(samples) + ") and timeDeltas ("@ + decimal(deltas)
        + ") length mismatch"@
}

/// Accepts a profile that has a time for each sample, and refuses any other.
pub fn check_profile(profile: &CpuProfile) -> (r: Result<(), String>)
    ensures
        r is Ok <==> profile.samples@.len() == profile.time_deltas@.len(),
        match r {
            Err(m) => m@ == mismatch_message(profile.samples@.len(), profile.time_deltas@.len()),
            Ok(_) => true,
        },
{
    let s = profile.samples.len();
    let t = profile.time_deltas.len();
    if s == t {
        return Ok(());
    }
    let mut m = string_of("Invalid .cpuprofile: samples (");
    crate::text::push_decimal(&mut m, s);
    m.append(") and timeDeltas (");
    crate::text::push_decimal(&mut m, t);
    m.append(") length mismatch");
    Err(m)
}

} // verus!
