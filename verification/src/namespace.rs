use vstd::prelude::*;
use crate::macros::{MacroDefinition, MacroDef, opt_def_view, duplicate_opt};
use crate::str_map::{StrMap, keys_unique, pairs_map, has_key, key_index};
use crate::text::string_of;

verus! {

/// A namespace as plain values: the current definitions, the built-in ones,
/// and one undo map per open group (innermost last). An undo map gives for
/// each name the definition to restore when the group ends (`None`: remove).
pub struct NamespaceModel {
    pub current: Map<Seq<char>, MacroDef>,
    pub builtins: Map<Seq<char>, MacroDef>,
    pub stack: Seq<Map<Seq<char>, Option<MacroDef>>>,
}

pub open spec fn defs_view(m: Map<Seq<char>, MacroDefinition>) -> Map<Seq<char>, MacroDef> {
    m.map_values(|d: MacroDefinition| d@)
}

pub open spec fn undo_view(m: Map<Seq<char>, Option<MacroDefinition>>) -> Map<Seq<char>, Option<MacroDef>> {
    m.map_values(|d: Option<MacroDefinition>| opt_def_view(d))
}

/// `cur` with the names of `undo` put back as `undo` records them.
pub open spec fn restore(cur: Map<Seq<char>, MacroDef>, undo: Map<Seq<char>, Option<MacroDef>>) -> Map<Seq<char>, MacroDef> {
    Map::new(
        |k: Seq<char>| if undo.contains_key(k) { undo[k] is Some } else { cur.contains_key(k) },
        |k: Seq<char>| if undo.contains_key(k) { undo[k]->0 } else { cur[k] },
    )
}

/// `m` with `name` set to `v`, or removed when `v` is `None`.
pub open spec fn assign<V>(m: Map<Seq<char>, V>, name: Seq<char>, v: Option<V>) -> Map<Seq<char>, V> {
    match v {
        Some(x) => m.insert(name, x),
        None => m.remove(name),
    }
}

/// The current definition of `name`, if any.
pub open spec fn lookup_current(m: Map<Seq<char>, MacroDef>, name: Seq<char>) -> Option<MacroDef> {
    if m.contains_key(name) { Some(m[name]) } else { None }
}

pub open spec fn spec_begin_group(n: NamespaceModel) -> NamespaceModel {
    NamespaceModel { stack: n.stack.push(Map::empty()), ..n }
}

pub open spec fn spec_end_group(n: NamespaceModel) -> NamespaceModel {
    if n.stack.len() == 0 {
        n
    } else {
        NamespaceModel {
            current: restore(n.current, n.stack.last()),
            stack: n.stack.drop_last(),
            ..n
        }
    }
}

/// The definition `name` has: the current one, else the built-in one.
pub open spec fn spec_get(n: NamespaceModel, name: Seq<char>) -> Option<MacroDef> {
    if n.current.contains_key(name) {
        Some(n.current[name])
    } else if n.builtins.contains_key(name) {
        Some(n.builtins[name])
    } else {
        None
    }
}

/// Setting `name` to `v`. A local set records, in the innermost group, the
/// definition to restore unless one is recorded already. A global set acts
/// in every group: it drops the recorded undos for the name and records the
/// new value in the innermost group.
pub open spec fn spec_set(n: NamespaceModel, name: Seq<char>, v: Option<MacroDef>, global: bool) -> NamespaceModel {
    let stack = if global {
        let cleared = n.stack.map_values(|u: Map<Seq<char>, Option<MacroDef>>| u.remove(name));
        if cleared.len() > 0 {
            cleared.update(cleared.len() - 1, cleared.last().insert(name, v))
        } else {
            cleared
        }
    } else if n.stack.len() > 0 && !n.stack.last().contains_key(name) {
        n.stack.update(n.stack.len() - 1, n.stack.last().insert(name, lookup_current(n.current, name)))
    } else {
        n.stack
    };
    NamespaceModel { current: assign(n.current, name, v), stack, ..n }
}

pub open spec fn stack_view(v: Seq<StrMap<Option<MacroDefinition>>>) -> Seq<Map<Seq<char>, Option<MacroDef>>> {
    v.map_values(|u: StrMap<Option<MacroDefinition>>| undo_view(u@))
}

/// A space of names (macros) that can be set globally or local to a nested
/// group, with an undo stack as TeX keeps one.
#[derive(Debug)]
pub struct Namespace {
    current: StrMap<MacroDefinition>,
    builtins: StrMap<MacroDefinition>,
    undef_stack: Vec<StrMap<Option<MacroDefinition>>>,
}

impl View for Namespace {
    type V = NamespaceModel;

    closed spec fn view(&self) -> NamespaceModel {
        NamespaceModel {
            current: defs_view(self.current@),
            builtins: defs_view(self.builtins@),
            stack: stack_view(self.undef_stack@),
        }
    }
}

proof fn lemma_prepend_pair<V>(t: Seq<(String, V)>, j: int)
    requires
        keys_unique(t),
        0 < j <= t.len(),
    ensures
        !pairs_map(t.skip(j)).contains_key(t[j - 1].0@),
        pairs_map(t.skip(j - 1)) == pairs_map(t.skip(j)).insert(t[j - 1].0@, t[j - 1].1),
        keys_unique(t.skip(j)),
        keys_unique(t.skip(j - 1)),
{
    let a = t.skip(j - 1);
    let b = t.skip(j);
    let k = t[j - 1].0@;
    assert(keys_unique(b));
    assert(keys_unique(a));
    if has_key(b, k) {
        let i = choose|i: int| 0 <= i < b.len() && b[i].0@ == k;
        assert(t[j + i].0@ == k);
    }
    assert forall|key: Seq<char>| #![auto] has_key(a, key) == (has_key(b, key) || key == k) by {
        if has_key(b, key) {
            let i = choose|i: int| 0 <= i < b.len() && b[i].0@ == key;
            assert(a[i + 1] == b[i]);
        }
        if key == k {
            assert(a[0].0@ == key);
        }
        if has_key(a, key) {
            let i = choose|i: int| 0 <= i < a.len() && a[i].0@ == key;
            if i > 0 {
                assert(b[i - 1] == a[i]);
            }
        }
    }
    assert forall|key: Seq<char>| #![auto] has_key(a, key) implies pairs_map(a)[key] == pairs_map(b).insert(k, t[j - 1].1)[key] by {
        let i = key_index(a, key);
        assert(0 <= i < a.len() && a[i].0@ == key);
        if i > 0 {
            assert(b[i - 1] == a[i]);
            let i2 = key_index(b, key);
            assert(0 <= i2 < b.len() && b[i2].0@ == key);
            assert(a[i2 + 1] == b[i2]);
        }
    }
    assert(pairs_map(a) =~= pairs_map(b).insert(k, t[j - 1].1));
}

impl Namespace {
    pub closed spec fn wf(&self) -> bool {
        &&& self.current.wf()
        &&& self.builtins.wf()
        &&& forall|i: int| 0 <= i < self.undef_stack@.len() ==> #[trigger] self.undef_stack@[i].wf()
    }

    /// A namespace over fixed built-in definitions and initial global ones.
    pub fn new(builtins: StrMap<MacroDefinition>, global_macros: StrMap<MacroDefinition>) -> (ns: Namespace)
        requires
            builtins.wf(),
            global_macros.wf(),
        ensures
            ns.wf(),
            ns@ == (NamespaceModel {
                current: defs_view(global_macros@),
                builtins: defs_view(builtins@),
                stack: Seq::empty(),
            }),
    {
        let ns = Namespace { current: global_macros, builtins, undef_stack: Vec::new() };
        assert(ns@.stack =~= Seq::<Map<Seq<char>, Option<MacroDef>>>::empty());
        ns
    }

    /// The number of open groups.
    pub fn depth(&self) -> (n: usize)
        ensures
            n == self@.stack.len(),
    {
        self.undef_stack.len()
    }

    /// Starts a nested group.
    pub fn begin_group(&mut self)
        requires
            old(self).wf(),
        ensures
            final(self).wf(),
            final(self)@ == spec_begin_group(old(self)@),
    {
        let m: StrMap<Option<MacroDefinition>> = StrMap::new();
        self.undef_stack.push(m);
        proof {
            assert(undo_view(Map::<Seq<char>, Option<MacroDefinition>>::empty()) =~= Map::<Seq<char>, Option<MacroDef>>::empty());
            assert(self@.stack =~= old(self)@.stack.push(Map::empty()));
        }
    }

    /// Ends the innermost group, restoring what it changed locally; with no
    /// group open, nothing changes.
    pub fn end_group(&mut self)
        requires
            old(self).wf(),
        ensures
            final(self).wf(),
            final(self)@ == spec_end_group(old(self)@),
    {
        if self.undef_stack.len() == 0 {
            return;
        }
        let ghost n0 = self@;
        let top = self.undef_stack.pop().unwrap();
        proof {
            assert(self@.stack =~= n0.stack.drop_last());
        }
        let ghost u = top@;
        let mut pv = top.into_pairs();
        let ghost s = pv@;
        let ghost cur0 = n0.current;
        proof {
            assert(s.skip(s.len() as int) =~= Seq::<(String, Option<MacroDefinition>)>::empty());
            assert(pairs_map(s.skip(s.len() as int)) =~= Map::<Seq<char>, Option<MacroDefinition>>::empty());
            assert(restore(cur0, undo_view(Map::<Seq<char>, Option<MacroDefinition>>::empty())) =~= cur0);
        }
        while pv.len() > 0
            invariant
                self.wf(),
                keys_unique(s),
                pairs_map(s) == u,
                pv@ == s.take(pv@.len() as int),
                pv@.len() <= s.len(),
                self@.stack == n0.stack.drop_last(),
                self@.builtins == n0.builtins,
                defs_view(self.current@) == restore(cur0, undo_view(pairs_map(s.skip(pv@.len() as int)))),
            decreases pv.len(),
        {
            let ghost r = pv@.len() as int;
            let (k, v) = pv.pop().unwrap();
            proof {
                assert(s[r - 1] == (k, v));
                assert(pv@ =~= s.take(r - 1));
                lemma_prepend_pair(s, r);
            }
            let ghost before = defs_view(self.current@);
            let ghost vg = opt_def_view(v);
            match v {
                None => {
                    self.current.remove(k.as_str());
                },
                Some(d) => {
                    self.current.insert(k, d);
                },
            }
            proof {
                let um = undo_view(pairs_map(s.skip(r)));
                let um2 = undo_view(pairs_map(s.skip(r - 1)));
                assert(um2 =~= um.insert(k@, vg));
                assert(defs_view(self.current@) =~= assign(before, k@, vg));
                assert(restore(cur0, um2) =~= assign(restore(cur0, um), k@, vg));
            }
        }
        proof {
            assert(s.skip(0) =~= s);
            assert(self@.current =~= restore(n0.current, n0.stack.last()));
        }
    }

    /// Ends every open group, restoring what they changed locally.
    pub fn end_all_groups(&mut self)
        requires
            old(self).wf(),
        ensures
            final(self).wf(),
            final(self)@.stack.len() == 0,
            final(self)@.builtins == old(self)@.builtins,
    {
        while self.depth() > 0
            invariant
                self.wf(),
                self@.builtins == old(self)@.builtins,
            decreases self@.stack.len(),
        {
            self.end_group();
        }
    }

    /// Whether `name` has a definition, current or built in.
    pub fn has(&self, name: &str) -> (b: bool)
        requires
            self.wf(),
        ensures
            b == spec_get(self@, name@) is Some,
    {
        self.current.contains_key(name) || self.builtins.contains_key(name)
    }

    /// The definition of `name`: the current one, else the built-in one.
    pub fn get(&self, name: &str) -> (r: Option<MacroDefinition>)
        requires
            self.wf(),
        ensures
            opt_def_view(r) == spec_get(self@, name@),
    {
        match self.current.get(name) {
            Some(d) => Some(d.duplicate()),
            None => match self.builtins.get(name) {
                Some(d) => Some(d.duplicate()),
                None => None,
            },
        }
    }

    /// Sets `name` to `value` (`None` removes it), in the innermost group or,
    /// with `global`, in all groups.
    pub fn set(&mut self, name: &String, value: Option<MacroDefinition>, global: bool)
        requires
            old(self).wf(),
        ensures
            final(self).wf(),
            final(self)@ == spec_set(old(self)@, name@, opt_def_view(value), global),
    {
        let ghost n0 = self@;
        let ghost vv = opt_def_view(value);
        if global {
            let n = self.undef_stack.len();
            let mut rebuilt: Vec<StrMap<Option<MacroDefinition>>> = Vec::new();
            let mut i: usize = 0;
            let ghost cleared = n0.stack.map_values(|u: Map<Seq<char>, Option<MacroDef>>| u.remove(name@));
            while i < n
                invariant
                    self.wf(),
                    self@.current == n0.current,
                    self@.builtins == n0.builtins,
                    n == n0.stack.len(),
                    cleared == n0.stack.map_values(|u: Map<Seq<char>, Option<MacroDef>>| u.remove(name@)),
                    cleared.len() == n,
                    i <= n,
                    self.undef_stack@.len() == n - i,
                    forall|j: int| 0 <= j < n - i ==> #[trigger] undo_view(self.undef_stack@[j]@) == n0.stack[i + j],
                    rebuilt@.len() == i,
                    forall|j: int| 0 <= j < i ==> (#[trigger] rebuilt@[j]).wf(),
                    forall|j: int| 0 <= j < i ==> #[trigger] undo_view(rebuilt@[j]@) == cleared[j],
                decreases n - i,
            {
                let ghost prev = self.undef_stack@;
                let mut m = self.undef_stack.remove(0);
                proof {
                    assert(prev[0] == m);
                    assert(undo_view(prev[0]@) == n0.stack[i + 0]);
                    assert forall|j: int| 0 <= j < n - i - 1 implies #[trigger] undo_view(self.undef_stack@[j]@) == n0.stack[i + 1 + j] by {
                        assert(self.undef_stack@[j] == prev[j + 1]);
                        assert(undo_view(prev[j + 1]@) == n0.stack[i + (j + 1)]);
                    }
                    assert(prev[0].wf());
                }
                m.remove(name.as_str());
                proof {
                    assert(cleared[i as int] == n0.stack[i as int].remove(name@));
                    assert(undo_view(m@) =~= n0.stack[i as int].remove(name@));
                }
                rebuilt.push(m);
                i = i + 1;
            }
            if rebuilt.len() > 0 {
                let ghost before_top = rebuilt@;
                let mut top = rebuilt.pop().unwrap();
                let ghost top0 = top@;
                assert(undo_view(top0) == cleared[n - 1]);
                let copy = duplicate_opt(&value);
                top.insert(name.clone(), copy);
                proof {
                    assert(undo_view(top@) =~= cleared[n - 1].insert(name@, vv));
                }
                rebuilt.push(top);
                proof {
                    assert forall|j: int| 0 <= j < n - 1 implies #[trigger] rebuilt@[j] == before_top[j] by {}
                    assert(undo_view(rebuilt@[n - 1]@) == cleared[n - 1].insert(name@, vv));
                }
            }
            self.undef_stack = rebuilt;
            proof {
                let target = spec_set(n0, name@, vv, global).stack;
                assert(target.len() == n);
                assert forall|j: int| 0 <= j < n implies #[trigger] self@.stack[j] == target[j] by {
                    if j == n - 1 {
                        assert(undo_view(self.undef_stack@[j]@) =~= cleared[j].insert(name@, vv));
                    } else {
                        assert(undo_view(self.undef_stack@[j]@) == cleared[j]);
                    }
                }
                assert(self@.stack =~= target);
            }
        } else {
            if self.undef_stack.len() > 0 {
                let ghost st0 = self.undef_stack@;
                let mut top = self.undef_stack.pop().unwrap();
                let ghost had = top@.contains_key(name@);
                if !top.contains_key(name.as_str()) {
                    let prev = match self.current.get(name.as_str()) {
                        Some(d) => Some(d.duplicate()),
                        None => None,
                    };
                    top.insert(name.clone(), prev);
                }
                self.undef_stack.push(top);
                proof {
                    let target = spec_set(n0, name@, vv, global).stack;
                    let last = st0.len() - 1;
                    assert(n0.stack[last] == undo_view(st0[last]@));
                    assert(had == n0.stack.last().contains_key(name@));
                    assert forall|j: int| 0 <= j < st0.len() implies #[trigger] self@.stack[j] == target[j] by {
                        if j == last {
                            if !had {
                                assert(undo_view(self.undef_stack@[j]@) =~= n0.stack[last].insert(name@, lookup_current(n0.current, name@)));
                            } else {
                                assert(self.undef_stack@[j] == st0[j]);
                            }
                        } else {
                            assert(self.undef_stack@[j] == st0[j]);
                        }
                    }
                    assert(self@.stack =~= target);
                }
            }
        }
        match value {
            Some(d) => {
                self.current.insert(name.clone(), d);
            },
            None => {
                self.current.remove(name.as_str());
            },
        }
        proof {
            assert(self@.current =~= assign(n0.current, name@, vv));
        }
    }
}


/// Applies local sets of names to definitions, in order.
pub open spec fn apply_local_sets(n: NamespaceModel, ops: Seq<(Seq<char>, Option<MacroDef>)>) -> NamespaceModel
    decreases ops.len(),
{
    if ops.len() == 0 {
        n
    } else {
        spec_set(apply_local_sets(n, ops.drop_last()), ops.last().0, ops.last().1, false)
    }
}

/// After setting a name, the name has the value set (or, when removed, only
/// its built-in definition, if any).
pub proof fn law_get_after_set(n: NamespaceModel, name: Seq<char>, v: Option<MacroDef>, global: bool)
    ensures
        spec_get(spec_set(n, name, v, global), name) == (match v {
            Some(x) => Some(x),
            None => if n.builtins.contains_key(name) { Some(n.builtins[name]) } else { None },
        }),
        forall|other: Seq<char>| other != name ==> spec_get(spec_set(n, name, v, global), other) == spec_get(n, other),
{
}

/// Ending a group that was just begun changes nothing.
pub proof fn law_empty_group_changes_nothing(n: NamespaceModel)
    ensures
        spec_end_group(spec_begin_group(n)) == n,
{
    assert(restore(n.current, Map::empty()) =~= n.current);
    assert(n.stack.push(Map::empty()).drop_last() =~= n.stack);
}

/// Ending a group with no group open changes nothing.
pub proof fn law_end_group_at_top_level(n: NamespaceModel)
    requires
        n.stack.len() == 0,
    ensures
        spec_end_group(n) == n,
{
}

proof fn lemma_local_sets_recorded(n: NamespaceModel, ops: Seq<(Seq<char>, Option<MacroDef>)>)
    ensures
        ({
            let m = apply_local_sets(spec_begin_group(n), ops);
            &&& m.builtins == n.builtins
            &&& m.stack.len() == n.stack.len() + 1
            &&& m.stack.drop_last() == n.stack
            &&& forall|k: Seq<char>| #[trigger] m.stack.last().contains_key(k)
                ==> m.stack.last()[k] == lookup_current(n.current, k)
            &&& forall|k: Seq<char>| !m.stack.last().contains_key(k)
                ==> lookup_current(#[trigger] m.current, k) == lookup_current(n.current, k)
        }),
    decreases ops.len(),
{
    if ops.len() > 0 {
        lemma_local_sets_recorded(n, ops.drop_last());
        let m0 = apply_local_sets(spec_begin_group(n), ops.drop_last());
        let m = apply_local_sets(spec_begin_group(n), ops);
        let (name, v) = ops.last();
        assert(m == spec_set(m0, name, v, false));
        assert(m.stack.drop_last() =~= m0.stack.drop_last());
        assert forall|k: Seq<char>| #[trigger] m.stack.last().contains_key(k)
            implies m.stack.last()[k] == lookup_current(n.current, k) by {
            if k != name || m0.stack.last().contains_key(name) {
            } else {
                assert(lookup_current(m0.current, k) == lookup_current(n.current, k));
            }
        }
        assert forall|k: Seq<char>| !m.stack.last().contains_key(k)
            implies lookup_current(#[trigger] m.current, k) == lookup_current(n.current, k) by {
            assert(k != name);
            assert(lookup_current(m0.current, k) == lookup_current(n.current, k));
        }
    } else {
        let m = spec_begin_group(n);
        assert(m.stack.drop_last() =~= n.stack);
    }
}

/// Local sets made inside a group are undone when the group ends: the
/// definitions and the enclosing groups are as before the group began. This
/// holds of any number of local sets, of any names, the same name set
/// several times included; so every name reads as it did before the group.
pub proof fn law_local_sets_undone_at_end_of_group(n: NamespaceModel, ops: Seq<(Seq<char>, Option<MacroDef>)>)
    ensures
        spec_end_group(apply_local_sets(spec_begin_group(n), ops)) == n,
{
    lemma_local_sets_recorded(n, ops);
    let m = apply_local_sets(spec_begin_group(n), ops);
    let r = spec_end_group(m);
    assert forall|k: Seq<char>| #![auto] r.current.contains_key(k) == n.current.contains_key(k)
        && (r.current.contains_key(k) ==> r.current[k] == n.current[k]) by {
        if m.stack.last().contains_key(k) {
        } else {
            assert(lookup_current(m.current, k) == lookup_current(n.current, k));
        }
    }
    assert(r.current =~= n.current);
}

/// A global set made inside a group survives the end of the group, and the
/// enclosing groups no longer restore the name when they end.
pub proof fn law_global_set_survives_end_of_group(n: NamespaceModel, name: Seq<char>, v: Option<MacroDef>)
    ensures
        spec_end_group(spec_set(spec_begin_group(n), name, v, true)).current == assign(n.current, name, v),
        spec_end_group(spec_set(spec_begin_group(n), name, v, true)).stack
            == n.stack.map_values(|u: Map<Seq<char>, Option<MacroDef>>| u.remove(name)),
{
    let b = spec_begin_group(n);
    let m = spec_set(b, name, v, true);
    let cleared = b.stack.map_values(|u: Map<Seq<char>, Option<MacroDef>>| u.remove(name));
    assert(cleared.last() =~= Map::<Seq<char>, Option<MacroDef>>::empty());
    assert(m.stack.last() =~= Map::<Seq<char>, Option<MacroDef>>::empty().insert(name, v));
    assert(restore(m.current, m.stack.last()) =~= assign(n.current, name, v));
    let expect = n.stack.map_values(|u: Map<Seq<char>, Option<MacroDef>>| u.remove(name));
    assert forall|j: int| 0 <= j < n.stack.len() implies #[trigger] m.stack.drop_last()[j] == expect[j] by {
        assert(cleared[j] == b.stack[j].remove(name));
        assert(b.stack[j] == n.stack[j]);
    }
    assert(m.stack.drop_last() =~= expect);
}

} // verus!
