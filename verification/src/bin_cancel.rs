use vstd::prelude::*;
use crate::dom::{HtmlKind, HtmlNode, spec_has_class, spec_check_partial_group, check_partial_group};
use crate::text::{strings_seq, string_of, str_eq};

verus! {

/// The first class of a node: the one that names its math class.
pub open spec fn first_class(n: HtmlNode) -> Option<Seq<char>> {
    if n.classes@.len() > 0 { Some(n.classes@[0]@) } else { None }
}

/// The classes before which a binary operator is read as an ordinary
/// symbol.
pub open spec fn left_cancellers() -> Seq<Seq<char>> {
    seq!["leftmost"@, "mbin"@, "mopen"@, "mrel"@, "mop"@, "mpunct"@]
}

/// Bin cancellation, left side: a binary operator (`mbin`) right after a
/// node whose class is a left canceller becomes ordinary (`mord`).
pub open spec fn becomes_ord(prev: Option<Seq<char>>, t: Option<Seq<char>>) -> bool {
    match (prev, t) {
        (Some(p), Some(t)) => t == "mbin"@ && left_cancellers().contains(p),
        _ => false,
    }
}

/// The class the traversal remembers after the node `o`, starting from
/// `prev`: through a partial group, what its children leave; for another
/// node that is not a space, its (cancelled) first class; a root-level
/// `newline` space starts a line (`leftmost`); any other space leaves `prev`.
pub open spec fn prev_node(o: HtmlNode, prev: Option<Seq<char>>, is_root: bool) -> Option<Seq<char>>
    decreases o, 1nat, 0nat,
{
    if spec_check_partial_group(o) {
        prev_list(o, 0, prev, is_root)
    } else if !spec_has_class(o, "mspace"@) {
        if becomes_ord(prev, first_class(o)) { Some("mord"@) } else { first_class(o) }
    } else if is_root && spec_has_class(o, "newline"@) {
        Some("leftmost"@)
    } else {
        prev
    }
}

/// The class the traversal remembers after the children of `o` from the
/// `i`-th on.
pub open spec fn prev_list(o: HtmlNode, i: nat, prev: Option<Seq<char>>, is_root: bool) -> Option<Seq<char>>
    decreases o, 0nat, if i < o.children@.len() { (o.children@.len() - i) as nat } else { 0nat },
{
    if i < o.children@.len() {
        proof {
            assert(decreases_to!(o => o.children));
            assert(decreases_to!(o.children => o.children@));
            assert(decreases_to!(o.children@ => o.children@[i as int]));
        }
        prev_list(o, i + 1, prev_node(o.children@[i as int], prev, is_root), is_root)
    } else {
        prev
    }
}

/// `n` is `o` after bin cancellation, starting from the remembered class
/// `prev`: the same node but for the first class of a binary operator that
/// becomes ordinary, searched through partial groups.
pub open spec fn cancelled_node(o: HtmlNode, n: HtmlNode, prev: Option<Seq<char>>, is_root: bool) -> bool
    decreases o, 1nat, 0nat,
{
    &&& n.kind == o.kind
    &&& n.attributes == o.attributes
    &&& if spec_check_partial_group(o) {
        &&& n.classes == o.classes
        &&& n.children@.len() == o.children@.len()
        &&& cancelled_list(o, n, 0, prev, is_root)
    } else if !spec_has_class(o, "mspace"@) {
        &&& n.children == o.children
        &&& if becomes_ord(prev, first_class(o)) {
            strings_seq(n.classes@) == strings_seq(o.classes@).update(0, "mord"@)
        } else {
            n.classes == o.classes
        }
    } else {
        &&& n.classes == o.classes
        &&& n.children == o.children
    }
}

/// The children of `n` from the `i`-th on are those of `o` after bin
/// cancellation.
pub open spec fn cancelled_list(o: HtmlNode, n: HtmlNode, i: nat, prev: Option<Seq<char>>, is_root: bool) -> bool
    decreases o, 0nat, if i < o.children@.len() { (o.children@.len() - i) as nat } else { 0nat },
{
    if i < o.children@.len() {
        proof {
            assert(decreases_to!(o => o.children));
            assert(decreases_to!(o.children => o.children@));
            assert(decreases_to!(o.children@ => o.children@[i as int]));
        }
        &&& cancelled_node(o.children@[i as int], n.children@[i as int], prev, is_root)
        &&& cancelled_list(o, n, i + 1, prev_node(o.children@[i as int], prev, is_root), is_root)
    } else {
        true
    }
}

/// A fragment that holds the nodes.
pub open spec fn holder(v: Vec<HtmlNode>) -> HtmlNode {
    HtmlNode { kind: HtmlKind::Fragment, classes: arbitrary(), children: v, attributes: arbitrary() }
}

pub open spec fn opt_view(o: Option<String>) -> Option<Seq<char>> {
    match o {
        Some(s) => Some(s@),
        None => None,
    }
}

/// Per-element facts about a list, tied together: the list relation and
/// the remembered class after it.
proof fn lemma_list_from_elements(
    o: HtmlNode, n: HtmlNode, prevs: Seq<Option<Seq<char>>>, k: nat, is_root: bool,
)
    requires
        k <= o.children@.len(),
        prevs.len() == o.children@.len() + 1,
        forall|j: int| 0 <= j < o.children@.len() ==> #[trigger] prevs[j + 1] == prev_node(o.children@[j], prevs[j], is_root),
        forall|j: int| 0 <= j < o.children@.len() ==> cancelled_node(o.children@[j], n.children@[j], #[trigger] prevs[j], is_root),
    ensures
        cancelled_list(o, n, k, prevs[k as int], is_root),
        prev_list(o, k, prevs[k as int], is_root) == prevs[o.children@.len() as int],
    decreases o.children@.len() - k,
{
    if k < o.children@.len() {
        lemma_list_from_elements(o, n, prevs, k + 1, is_root);
        assert(prevs[k + 1int] == prev_node(o.children@[k as int], prevs[k as int], is_root));
        assert(cancelled_node(o.children@[k as int], n.children@[k as int], prevs[k as int], is_root));
    }
}

/// The left side of bin cancellation over `nodes`, depth first through
/// partial groups and past spaces: a binary operator right after a node
/// whose class is a left canceller becomes ordinary. `prev` is the class
/// remembered before the first node, and after the last one.
fn cancel_after_left(nodes: &mut Vec<HtmlNode>, prev: &mut Option<String>, is_root: bool)
    ensures
        final(nodes)@.len() == old(nodes)@.len(),
        cancelled_list(holder(*old(nodes)), holder(*final(nodes)), 0, opt_view(*old(prev)), is_root),
        opt_view(*final(prev)) == prev_list(holder(*old(nodes)), 0, opt_view(*old(prev)), is_root),
    decreases *old(nodes),
{
    let ghost o = holder(*nodes);
    let ghost oc = nodes@;
    let ghost mut prevs: Seq<Option<Seq<char>>> = seq![opt_view(*prev)];
    let n = nodes.len();
    let mut i: usize = 0;
    while i < n
        invariant
            n == oc.len(),
            o == holder(*old(nodes)),
            oc == old(nodes)@,
            nodes@.len() == n,
            i <= n,
            prevs.len() == i + 1,
            prevs[0] == opt_view(*old(prev)),
            prevs[i as int] == opt_view(*prev),
            forall|j: int| i <= j < n ==> nodes@[j] == oc[j],
            forall|j: int| 0 <= j < i ==> #[trigger] prevs[j + 1] == prev_node(oc[j], prevs[j], is_root),
            forall|j: int| 0 <= j < i ==> cancelled_node(oc[j], nodes@[j], #[trigger] prevs[j], is_root),
        decreases n - i,
    {
        let ghost before = nodes@;
        let ghost p0 = opt_view(*prev);
        let partial = check_partial_group(&nodes[i]);
        if partial {
            let mut node = nodes.remove(i);
            assert(node == oc[i as int]);
            proof {
                assert(decreases_to!(*old(nodes) => old(nodes)@));
                assert(decreases_to!(old(nodes)@ => old(nodes)@[i as int]));
                assert(decreases_to!(old(nodes)@[i as int] => old(nodes)@[i as int].children));
            }
            cancel_after_left(&mut node.children, prev, is_root);
            proof {
                let on = oc[i as int];
                assert(holder(on.children) == HtmlNode { kind: HtmlKind::Fragment, classes: arbitrary(), children: on.children, attributes: arbitrary() });
                lemma_holder_list(on, node, p0, is_root);
            }
            nodes.insert(i, node);
        } else {
            let space = nodes[i].has_class("mspace");
            if !space {
                let mut node = nodes.remove(i);
                assert(node == oc[i as int]);
                let cancels = match &*prev {
                    Some(p) => node.classes.len() > 0 && str_eq(node.classes[0].as_str(), "mbin") && is_left_canceller(p.as_str()),
                    None => false,
                };
                proof {
                    reveal_strlit("mbin");
                    reveal_strlit("mord");
                }
                if cancels {
                    node.classes.set(0, string_of("mord"));
                    assert(strings_seq(node.classes@) =~= strings_seq(oc[i as int].classes@).update(0, "mord"@));
                }
                *prev = if node.classes.len() > 0 { Some(node.classes[0].clone()) } else { None };
                nodes.insert(i, node);
            } else if is_root && nodes[i].has_class("newline") {
                *prev = Some(string_of("leftmost"));
            }
        }
        proof {
            prevs = prevs.push(opt_view(*prev));
            assert forall|j: int| i + 1 <= j < n implies nodes@[j] == oc[j] by {
                assert(nodes@[j] == before[j]);
            }
            assert forall|j: int| 0 <= j < i implies cancelled_node(oc[j], nodes@[j], #[trigger] prevs[j], is_root) by {
                assert(nodes@[j] == before[j]);
            }
        }
        i = i + 1;
    }
    proof {
        assert(o.children@ == oc);
        lemma_list_from_elements(o, holder(*nodes), prevs, 0, is_root);
    }
}

/// The node `n`, whose children were cancelled as a list, is `o` cancelled.
proof fn lemma_holder_list(o: HtmlNode, n: HtmlNode, p: Option<Seq<char>>, is_root: bool)
    requires
        spec_check_partial_group(o),
        n.kind == o.kind,
        n.classes == o.classes,
        n.attributes == o.attributes,
        n.children@.len() == o.children@.len(),
        cancelled_list(holder(o.children), holder(n.children), 0, p, is_root),
    ensures
        cancelled_node(o, n, p, is_root),
        prev_node(o, p, is_root) == prev_list(holder(o.children), 0, p, is_root),
{
    lemma_lists_agree(o, n, holder(o.children), holder(n.children), 0, p, is_root);
}

proof fn lemma_lists_agree(o: HtmlNode, n: HtmlNode, ho: HtmlNode, hn: HtmlNode, i: nat, p: Option<Seq<char>>, is_root: bool)
    requires
        ho.children == o.children,
        hn.children == n.children,
        i <= o.children@.len(),
        cancelled_list(ho, hn, i, p, is_root),
    ensures
        cancelled_list(o, n, i, p, is_root),
        prev_list(o, i, p, is_root) == prev_list(ho, i, p, is_root),
    decreases o.children@.len() - i,
{
    if i < o.children@.len() {
        lemma_lists_agree(o, n, ho, hn, i + 1, prev_node(o.children@[i as int], p, is_root), is_root);
    }
}

fn is_left_canceller(c: &str) -> (b: bool)
    ensures
        b == left_cancellers().contains(c@),
{
    proof {
        reveal_strlit("leftmost");
        reveal_strlit("mbin");
        reveal_strlit("mopen");
        reveal_strlit("mrel");
        reveal_strlit("mop");
        reveal_strlit("mpunct");
    }
    let r = str_eq(c, "leftmost") || str_eq(c, "mbin") || str_eq(c, "mopen") || str_eq(c, "mrel")
        || str_eq(c, "mop") || str_eq(c, "mpunct");
    proof {
        let l = left_cancellers();
        if r {
            if c@ == "leftmost"@ { assert(l[0] == c@); }
            else if c@ == "mbin"@ { assert(l[1] == c@); }
            else if c@ == "mopen"@ { assert(l[2] == c@); }
            else if c@ == "mrel"@ { assert(l[3] == c@); }
            else if c@ == "mop"@ { assert(l[4] == c@); }
            else { assert(l[5] == c@); }
        } else {
            assert forall|k: int| 0 <= k < l.len() implies l[k] != c@ by {}
        }
    }
    r
}

/// The classes after which a binary operator is read as an ordinary symbol.
pub open spec fn right_cancellers() -> Seq<Seq<char>> {
    seq!["rightmost"@, "mrel"@, "mclose"@, "mpunct"@]
}

/// Bin cancellation, right side: a binary operator before a node whose
/// class is a right canceller becomes ordinary.
pub open spec fn right_cancels(t: Option<Seq<char>>, follow: Option<Seq<char>>) -> bool {
    match (t, follow) {
        (Some(t), Some(f)) => t == "mbin"@ && right_cancellers().contains(f),
        _ => false,
    }
}

/// The class of the node that follows, as seen before the node `o`, given
/// `follow` after it: through a partial group, what its children give from
/// the last one back; for a node that is not a space, its first class; a
/// root-level `newline` space starts a new line, so nothing follows across
/// it; any other space leaves `follow`.
pub open spec fn follow_node(o: HtmlNode, follow: Option<Seq<char>>, is_root: bool) -> Option<Seq<char>>
    decreases o, 1nat, 0nat,
{
    if spec_check_partial_group(o) {
        follow_list(o, o.children@.len(), follow, is_root)
    } else if !spec_has_class(o, "mspace"@) {
        first_class(o)
    } else if is_root && spec_has_class(o, "newline"@) {
        None
    } else {
        follow
    }
}

/// The class that follows, as seen before the children of `o` from the
/// `i`-th back to the first, given `follow` after the `i`-th.
pub open spec fn follow_list(o: HtmlNode, i: nat, follow: Option<Seq<char>>, is_root: bool) -> Option<Seq<char>>
    decreases o, 0nat, i,
{
    if 0 < i <= o.children@.len() {
        proof {
            assert(decreases_to!(o => o.children));
            assert(decreases_to!(o.children => o.children@));
            assert(decreases_to!(o.children@ => o.children@[i - 1]));
        }
        follow_list(o, (i - 1) as nat, follow_node(o.children@[i - 1], follow, is_root), is_root)
    } else {
        follow
    }
}

/// `n` is `o` after the right side of bin cancellation, given the class
/// `follow` of what comes after it.
pub open spec fn rcancelled_node(o: HtmlNode, n: HtmlNode, follow: Option<Seq<char>>, is_root: bool) -> bool
    decreases o, 1nat, 0nat,
{
    &&& n.kind == o.kind
    &&& n.attributes == o.attributes
    &&& if spec_check_partial_group(o) {
        &&& n.classes == o.classes
        &&& n.children@.len() == o.children@.len()
        &&& rcancelled_list(o, n, o.children@.len(), follow, is_root)
    } else if !spec_has_class(o, "mspace"@) {
        &&& n.children == o.children
        &&& if right_cancels(first_class(o), follow) {
            strings_seq(n.classes@) == strings_seq(o.classes@).update(0, "mord"@)
        } else {
            n.classes == o.classes
        }
    } else {
        &&& n.classes == o.classes
        &&& n.children == o.children
    }
}

/// The children of `n` before the `i`-th are those of `o` after the right
/// side of bin cancellation, given `follow` after the `i`-th.
pub open spec fn rcancelled_list(o: HtmlNode, n: HtmlNode, i: nat, follow: Option<Seq<char>>, is_root: bool) -> bool
    decreases o, 0nat, i,
{
    if 0 < i <= o.children@.len() {
        proof {
            assert(decreases_to!(o => o.children));
            assert(decreases_to!(o.children => o.children@));
            assert(decreases_to!(o.children@ => o.children@[i - 1]));
        }
        &&& rcancelled_node(o.children@[i - 1], n.children@[i - 1], follow, is_root)
        &&& rcancelled_list(o, n, (i - 1) as nat, follow_node(o.children@[i - 1], follow, is_root), is_root)
    } else {
        true
    }
}

proof fn lemma_rlist_from_elements(o: HtmlNode, n: HtmlNode, follows: Seq<Option<Seq<char>>>, k: nat, is_root: bool)
    requires
        k <= o.children@.len(),
        follows.len() == o.children@.len() + 1,
        forall|j: int| 0 <= j < o.children@.len() ==> #[trigger] follows[j] == follow_node(o.children@[j], follows[j + 1], is_root),
        forall|j: int| 0 <= j < o.children@.len() ==> rcancelled_node(o.children@[j], n.children@[j], #[trigger] follows[j + 1], is_root),
    ensures
        rcancelled_list(o, n, k, follows[k as int], is_root),
        follow_list(o, k, follows[k as int], is_root) == follows[0],
    decreases k,
{
    if k > 0 {
        assert(follows[k - 1] == follow_node(o.children@[k - 1], follows[k as int], is_root));
        assert(rcancelled_node(o.children@[k - 1], n.children@[k - 1], follows[(k - 1) + 1], is_root));
        lemma_rlist_from_elements(o, n, follows, (k - 1) as nat, is_root);
    }
}

proof fn lemma_rlists_agree(o: HtmlNode, n: HtmlNode, ho: HtmlNode, hn: HtmlNode, i: nat, f: Option<Seq<char>>, is_root: bool)
    requires
        ho.children == o.children,
        hn.children == n.children,
        i <= o.children@.len(),
        rcancelled_list(ho, hn, i, f, is_root),
    ensures
        rcancelled_list(o, n, i, f, is_root),
        follow_list(o, i, f, is_root) == follow_list(ho, i, f, is_root),
    decreases i,
{
    if i > 0 {
        lemma_rlists_agree(o, n, ho, hn, (i - 1) as nat, follow_node(o.children@[i - 1], f, is_root), is_root);
    }
}

fn is_right_canceller(c: &str) -> (b: bool)
    ensures
        b == right_cancellers().contains(c@),
{
    proof {
        reveal_strlit("rightmost");
        reveal_strlit("mrel");
        reveal_strlit("mclose");
        reveal_strlit("mpunct");
    }
    let r = str_eq(c, "rightmost") || str_eq(c, "mrel") || str_eq(c, "mclose") || str_eq(c, "mpunct");
    proof {
        let l = right_cancellers();
        if r {
            if c@ == "rightmost"@ { assert(l[0] == c@); }
            else if c@ == "mrel"@ { assert(l[1] == c@); }
            else if c@ == "mclose"@ { assert(l[2] == c@); }
            else { assert(l[3] == c@); }
        } else {
            assert forall|k: int| 0 <= k < l.len() implies l[k] != c@ by {}
        }
    }
    r
}

/// One node of the right side of bin cancellation (see `cancel_before_right`).
fn cancel_node_before_right(node: HtmlNode, follow: &mut Option<String>, is_root: bool) -> (r: HtmlNode)
    ensures
        rcancelled_node(node, r, opt_view(*old(follow)), is_root),
        opt_view(*final(follow)) == follow_node(node, opt_view(*old(follow)), is_root),
    decreases node, 1nat,
{
    let ghost on = node;
    let ghost f0 = opt_view(*follow);
    let mut node = node;
    if check_partial_group(&node) {
        proof {
            assert(decreases_to!(on => on.children));
        }
        cancel_before_right(&mut node.children, follow, is_root);
        proof {
            lemma_rlists_agree(on, node, holder(on.children), holder(node.children), on.children@.len(), f0, is_root);
        }
        node
    } else if !node.has_class("mspace") {
        let cancels = match &*follow {
            Some(f) => node.classes.len() > 0 && str_eq(node.classes[0].as_str(), "mbin") && is_right_canceller(f.as_str()),
            None => false,
        };
        proof {
            reveal_strlit("mbin");
            reveal_strlit("mord");
        }
        *follow = if node.classes.len() > 0 { Some(node.classes[0].clone()) } else { None };
        if cancels {
            node.classes.set(0, string_of("mord"));
            assert(strings_seq(node.classes@) =~= strings_seq(on.classes@).update(0, "mord"@));
        }
        node
    } else {
        if is_root && node.has_class("newline") {
            *follow = None;
        }
        node
    }
}

/// The right side of bin cancellation over `nodes`, from the last node back
/// to the first, through partial groups and past spaces: a binary operator
/// before a node whose class is a right canceller becomes ordinary.
/// `follow` is the class of what comes after the last node, and becomes the
/// class that follows, as seen before the first.
fn cancel_before_right(nodes: &mut Vec<HtmlNode>, follow: &mut Option<String>, is_root: bool)
    ensures
        final(nodes)@.len() == old(nodes)@.len(),
        rcancelled_list(holder(*old(nodes)), holder(*final(nodes)), old(nodes)@.len(), opt_view(*old(follow)), is_root),
        opt_view(*final(follow)) == follow_list(holder(*old(nodes)), old(nodes)@.len(), opt_view(*old(follow)), is_root),
    decreases *old(nodes), 0nat,
{
    let ghost o = holder(*nodes);
    let ghost oc = nodes@;
    let n = nodes.len();
    let ghost mut follows: Seq<Option<Seq<char>>> = Seq::new((n + 1) as nat, |j: int| opt_view(*follow));
    let mut i: usize = n;
    while i > 0
        invariant
            n == oc.len(),
            o == holder(*old(nodes)),
            oc == old(nodes)@,
            nodes@.len() == n,
            i <= n,
            follows.len() == n + 1,
            follows[n as int] == opt_view(*old(follow)),
            follows[i as int] == opt_view(*follow),
            forall|j: int| 0 <= j < i ==> nodes@[j] == oc[j],
            forall|j: int| i <= j < n ==> #[trigger] follows[j] == follow_node(oc[j], follows[j + 1], is_root),
            forall|j: int| i <= j < n ==> rcancelled_node(oc[j], nodes@[j], #[trigger] follows[j + 1], is_root),
        decreases i,
    {
        i = i - 1;
        let ghost before = nodes@;
        let node = nodes.remove(i);
        assert(node == oc[i as int]);
        proof {
            assert(decreases_to!(*old(nodes) => old(nodes)@));
            assert(decreases_to!(old(nodes)@ => old(nodes)@[i as int]));
        }
        let done = cancel_node_before_right(node, follow, is_root);
        nodes.insert(i, done);
        proof {
            follows = follows.update(i as int, opt_view(*follow));
            assert forall|j: int| 0 <= j < i implies nodes@[j] == oc[j] by {
                assert(nodes@[j] == before[j]);
            }
            assert forall|j: int| i + 1 <= j < n implies rcancelled_node(oc[j], nodes@[j], #[trigger] follows[j + 1], is_root) by {
                assert(nodes@[j] == before[j]);
            }
        }
    }
    proof {
        assert(o.children@ == oc);
        lemma_rlist_from_elements(o, holder(*nodes), follows, n as nat, is_root);
    }
}

/// Bin cancellation over `nodes`, depth first through partial groups and
/// past spaces, as one pass from the first node to the last would make it:
/// a binary operator right after a left canceller, or right before a right
/// canceller, becomes ordinary. `prev` is the class before the first node
/// (and becomes the one after the last), `next` the class of what comes
/// after the last node. The two sides are applied one after the other: a
/// node that cancels on the right is never itself a binary operator, so the
/// order does not matter.
pub fn traverse_non_space_nodes(nodes: &mut Vec<HtmlNode>, prev: &mut Option<String>, next: Option<String>, is_root: bool)
    ensures
        final(nodes)@.len() == old(nodes)@.len(),
        exists|mid: Vec<HtmlNode>| mid@.len() == old(nodes)@.len()
            && #[trigger] cancelled_list(holder(*old(nodes)), holder(mid), 0, opt_view(*old(prev)), is_root)
            && rcancelled_list(holder(mid), holder(*final(nodes)), mid@.len(), opt_view(next), is_root),
        opt_view(*final(prev)) == prev_list(holder(*old(nodes)), 0, opt_view(*old(prev)), is_root),
{
    cancel_after_left(nodes, prev, is_root);
    let ghost mid = *nodes;
    let mut follow = next;
    cancel_before_right(nodes, &mut follow, is_root);
    assert(cancelled_list(holder(*old(nodes)), holder(mid), 0, opt_view(*old(prev)), is_root));
}


proof fn lemma_left_cancellers(p: Seq<char>)
    ensures
        left_cancellers().contains(p) <==> (p == "leftmost"@ || p == "mbin"@ || p == "mopen"@
            || p == "mrel"@ || p == "mop"@ || p == "mpunct"@),
{
    let l = left_cancellers();
    if p == "leftmost"@ { assert(l[0] == p); }
    else if p == "mbin"@ { assert(l[1] == p); }
    else if p == "mopen"@ { assert(l[2] == p); }
    else if p == "mrel"@ { assert(l[3] == p); }
    else if p == "mop"@ { assert(l[4] == p); }
    else if p == "mpunct"@ { assert(l[5] == p); }
    else {
        assert forall|k: int| 0 <= k < l.len() implies l[k] != p by {}
    }
}

proof fn lemma_right_cancellers(f: Seq<char>)
    ensures
        right_cancellers().contains(f) <==> (f == "rightmost"@ || f == "mrel"@ || f == "mclose"@ || f == "mpunct"@),
{
    let l = right_cancellers();
    if f == "rightmost"@ { assert(l[0] == f); }
    else if f == "mrel"@ { assert(l[1] == f); }
    else if f == "mclose"@ { assert(l[2] == f); }
    else if f == "mpunct"@ { assert(l[3] == f); }
    else {
        assert forall|k: int| 0 <= k < l.len() implies l[k] != f by {}
    }
}

/// Left side of bin cancellation: a binary operator (a node that is no
/// space and no partial group, of first class `mbin`) whose previous
/// class is `leftmost` (the start of a line), `mbin`, `mopen`, `mrel`,
/// `mop` or `mpunct` becomes ordinary (`mord`); after any other class it
/// stays binary.
pub proof fn law_binary_after_left_canceller_is_ordinary(o: HtmlNode, n: HtmlNode, p: Seq<char>, is_root: bool)
    requires
        !spec_check_partial_group(o),
        !spec_has_class(o, "mspace"@),
        first_class(o) == Some("mbin"@),
        cancelled_node(o, n, Some(p), is_root),
    ensures
        first_class(n) == (if p == "leftmost"@ || p == "mbin"@ || p == "mopen"@ || p == "mrel"@
            || p == "mop"@ || p == "mpunct"@ { Some("mord"@) } else { Some("mbin"@) }),
        n.classes@.len() == o.classes@.len(),
{
    lemma_left_cancellers(p);
    if becomes_ord(Some(p), first_class(o)) {
        assert(strings_seq(n.classes@).len() == n.classes@.len());
        assert(strings_seq(n.classes@)[0] == n.classes@[0]@);
    }
}

/// Right side of bin cancellation: a binary operator whose next class is
/// `rightmost` (the end of a line), `mrel`, `mclose` or `mpunct` becomes
/// ordinary; before any other class it stays binary.
pub proof fn law_binary_before_right_canceller_is_ordinary(o: HtmlNode, n: HtmlNode, f: Seq<char>, is_root: bool)
    requires
        !spec_check_partial_group(o),
        !spec_has_class(o, "mspace"@),
        first_class(o) == Some("mbin"@),
        rcancelled_node(o, n, Some(f), is_root),
    ensures
        first_class(n) == (if f == "rightmost"@ || f == "mrel"@ || f == "mclose"@ || f == "mpunct"@ {
            Some("mord"@) } else { Some("mbin"@) }),
        n.classes@.len() == o.classes@.len(),
{
    lemma_right_cancellers(f);
    if right_cancels(first_class(o), Some(f)) {
        assert(strings_seq(n.classes@).len() == n.classes@.len());
        assert(strings_seq(n.classes@)[0] == n.classes@[0]@);
    }
}

/// Only binary operators change: a node whose first class is not `mbin`
/// keeps its classes on both sides of bin cancellation, and a binary
/// operator only ever becomes `mord`, the rest of its classes kept.
pub proof fn law_only_binary_operators_change(o: HtmlNode, n: HtmlNode, m: HtmlNode, p: Option<Seq<char>>, f: Option<Seq<char>>, is_root: bool)
    requires
        !spec_check_partial_group(o),
        !spec_has_class(o, "mspace"@),
        cancelled_node(o, n, p, is_root),
        rcancelled_node(o, m, f, is_root),
    ensures
        first_class(o) != Some("mbin"@) ==> n.classes == o.classes && m.classes == o.classes,
        n.children == o.children && m.children == o.children,
        n.classes@.len() == o.classes@.len(),
        forall|k: int| 1 <= k < o.classes@.len() ==> n.classes@[k]@ == o.classes@[k]@,
        first_class(n) == first_class(o) || first_class(n) == Some("mord"@),
{
    if becomes_ord(p, first_class(o)) {
        assert(strings_seq(n.classes@).len() == n.classes@.len());
        assert(strings_seq(n.classes@)[0] == n.classes@[0]@);
        assert forall|k: int| 1 <= k < o.classes@.len() implies n.classes@[k]@ == o.classes@[k]@ by {
            assert(strings_seq(n.classes@)[k] == n.classes@[k]@);
            assert(strings_seq(o.classes@)[k] == o.classes@[k]@);
        }
    }
}


/// What the traversal remembers after a node that is no partial group: after
/// a node that is not a space, the class it is left with (so `mord` after a
/// binary operator that became ordinary); after a new line at the root,
/// `leftmost`, a line's start; after any other space, what it remembered
/// before. Seen from the right, a node that is not a space shows its own
/// first class, and nothing follows across a new line at the root.
pub proof fn law_remembered_class_is_the_one_left(o: HtmlNode, n: HtmlNode, p: Option<Seq<char>>, f: Option<Seq<char>>, is_root: bool)
    requires
        !spec_check_partial_group(o),
        cancelled_node(o, n, p, is_root),
    ensures
        !spec_has_class(o, "mspace"@) ==> prev_node(o, p, is_root) == first_class(n),
        spec_has_class(o, "mspace"@) && is_root && spec_has_class(o, "newline"@) ==> prev_node(o, p, is_root) == Some("leftmost"@),
        spec_has_class(o, "mspace"@) && !(is_root && spec_has_class(o, "newline"@)) ==> prev_node(o, p, is_root) == p,
        !spec_has_class(o, "mspace"@) ==> follow_node(o, f, is_root) == first_class(o),
        spec_has_class(o, "mspace"@) && is_root && spec_has_class(o, "newline"@) ==> follow_node(o, f, is_root) is None,
        spec_has_class(o, "mspace"@) && !(is_root && spec_has_class(o, "newline"@)) ==> follow_node(o, f, is_root) == f,
{
    if !spec_has_class(o, "mspace"@) && becomes_ord(p, first_class(o)) {
        assert(strings_seq(n.classes@).len() == n.classes@.len());
        assert(strings_seq(n.classes@)[0] == n.classes@[0]@);
    }
}

} // verus!
