//! Class slot flattening.
//!
//! Each class's full slot list is its parent's list (when the parent is
//! known) followed by its own slots, all lower-cased.  Resolve uses it
//! to register constructor and accessor names, effect seeding sizes
//! them, and emit renders the `TUPLE:` and accessor words.
use vstd::prelude::*;
use crate::text;
use super::ast::{ClassDef, Item};
use super::error::Span;
use super::names::NameMap;

verus! {

/// The model of a list of names.
pub open spec fn names_view(v: Seq<String>) -> Seq<Seq<char>> {
    v.map_values(|s: String| s@)
}

/// The model of a slot table: class name → slot-name list.
pub open spec fn slot_table_view(m: Map<Seq<char>, Vec<String>>) -> Map<Seq<char>, Seq<Seq<char>>> {
    Map::new(|k: Seq<char>| m.contains_key(k), |k: Seq<char>| names_view(m[k]@))
}

/// The flattened slot list of one class, given the table built so far.
pub open spec fn class_slots_of(m: Map<Seq<char>, Seq<Seq<char>>>, c: ClassDef) -> Seq<Seq<char>> {
    let inherited = match c.extends {
        Some(p) => if m.contains_key(text::ascii_lower(p@)) { m[text::ascii_lower(p@)] } else { Seq::empty() },
        None => Seq::empty(),
    };
    inherited + c.slots@.map_values(|s: super::ast::SlotDef| text::ascii_lower(s.name@))
}

/// The slot table after visiting `items` in order.
pub open spec fn class_fold(m: Map<Seq<char>, Seq<Seq<char>>>, items: Seq<Item>) -> Map<Seq<char>, Seq<Seq<char>>>
    decreases items.len(),
{
    if items.len() == 0 {
        m
    } else {
        let prev = class_fold(m, items.drop_last());
        match items.last() {
            Item::Class(c) => prev.insert(text::ascii_lower(c.name@), class_slots_of(prev, c)),
            _ => prev,
        }
    }
}

proof fn lemma_slot_view_insert(
    a: Map<Seq<char>, Vec<String>>,
    b: Map<Seq<char>, Vec<String>>,
    k: Seq<char>,
    v1: Vec<String>,
    v2: Vec<String>,
)
    requires
        slot_table_view(a) == slot_table_view(b),
        names_view(v1@) == names_view(v2@),
    ensures
        slot_table_view(a.insert(k, v1)) == slot_table_view(b.insert(k, v2)),
{
    assert forall|x: Seq<char>| #[trigger] a.contains_key(x) == b.contains_key(x) by {
        assert(slot_table_view(a).dom().contains(x) == a.dom().contains(x));
        assert(slot_table_view(b).dom().contains(x) == b.dom().contains(x));
    }
    assert forall|x: Seq<char>| a.contains_key(x) implies names_view(#[trigger] a[x]@) == names_view(b[x]@) by {
        assert(slot_table_view(a)[x] == slot_table_view(b)[x]);
    }
    assert(slot_table_view(a.insert(k, v1)) =~= slot_table_view(b.insert(k, v2)));
}

/// Copy a list of names.
pub fn copy_names(v: &Vec<String>) -> (r: Vec<String>)
    ensures
        names_view(r@) == names_view(v@),
{
    let mut r: Vec<String> = Vec::new();
    let mut i: usize = 0;
    while i < v.len()
        invariant
            i <= v@.len(),
            names_view(r@) == names_view(v@.take(i as int)),
        decreases v@.len() - i,
    {
        r.push(v[i].clone());
        proof {
            assert(names_view(v@.take(i + 1)) =~= names_view(v@.take(i as int)).push(v@[i as int]@));
        }
        i = i + 1;
        assert(names_view(r@) =~= names_view(v@.take(i as int)));
    }
    assert(v@.take(i as int) =~= v@);
    r
}

/// Copy a slot table.
pub fn copy_slot_table(m: &NameMap<Vec<String>>) -> (r: NameMap<Vec<String>>)
    ensures
        slot_table_view(r@) == slot_table_view(m@),
{
    let mut r: NameMap<Vec<String>> = NameMap::new();
    let mut i: usize = 0;
    while i < m.entries.len()
        invariant
            i <= m.entries@.len(),
            slot_table_view(r@) == slot_table_view(super::names::log_map(m.entries@.take(i as int))),
        decreases m.entries@.len() - i,
    {
        let k = m.entries[i].0.clone();
        let v = copy_names(&m.entries[i].1);
        let ghost old_r = r@;
        let ghost vv = v;
        r.insert(k, v);
        proof {
            let t = m.entries@.take(i + 1);
            assert(t.drop_last() =~= m.entries@.take(i as int));
            assert(t.last() == m.entries@[i as int]);
            lemma_slot_view_insert(old_r, super::names::log_map(m.entries@.take(i as int)), m.entries@[i as int].0@, vv, m.entries@[i as int].1);
        }
        i = i + 1;
    }
    assert(m.entries@.take(i as int) =~= m.entries@);
    r
}

/// Walk the items in order, combining each class's own slots with its
/// parent's flattened list (from earlier compiles or earlier in this
/// one).  A parent that is not known contributes nothing.
pub fn compute_class_slots(items: &Vec<Item>, prior_classes: &NameMap<Vec<String>>) -> (r: NameMap<Vec<String>>)
    ensures
        slot_table_view(r@) == class_fold(slot_table_view(prior_classes@), items@),
{
    let mut out = copy_slot_table(prior_classes);
    let mut i: usize = 0;
    assert(items@.take(0) =~= Seq::<Item>::empty());
    while i < items.len()
        invariant
            i <= items@.len(),
            slot_table_view(out@) == class_fold(slot_table_view(prior_classes@), items@.take(i as int)),
        decreases items@.len() - i,
    {
        proof {
            let t = items@.take(i + 1);
            assert(t.drop_last() =~= items@.take(i as int));
            assert(t.last() == items@[i as int]);
        }
        match &items[i] {
            Item::Class(c) => {
                let ghost prev = slot_table_view(out@);
                let mut slots: Vec<String> = Vec::new();
                match &c.extends {
                    Some(parent) => {
                        let parent_lc = text::to_lower(parent.as_str());
                        match out.get(parent_lc.as_str()) {
                            Some(ps) => {
                                slots = copy_names(ps);
                            },
                            None => {},
                        }
                    },
                    None => {},
                }
                let ghost inherited = names_view(slots@);
                let mut j: usize = 0;
                while j < c.slots.len()
                    invariant
                        j <= c.slots@.len(),
                        names_view(slots@) == inherited + c.slots@.take(j as int).map_values(
                            |s: super::ast::SlotDef| text::ascii_lower(s.name@)),
                    decreases c.slots@.len() - j,
                {
                    let ghost before = slots@;
                    slots.push(text::to_lower(c.slots[j].name.as_str()));
                    proof {
                        assert(names_view(slots@) =~= names_view(before).push(text::ascii_lower(c.slots@[j as int].name@)));
                        assert(c.slots@.take(j + 1).map_values(|s: super::ast::SlotDef| text::ascii_lower(s.name@))
                            =~= c.slots@.take(j as int).map_values(|s: super::ast::SlotDef| text::ascii_lower(s.name@))
                                .push(text::ascii_lower(c.slots@[j as int].name@)));
                    }
                    j = j + 1;
                    assert(names_view(slots@) =~= inherited + c.slots@.take(j as int).map_values(
                        |s: super::ast::SlotDef| text::ascii_lower(s.name@)));
                }
                assert(c.slots@.take(j as int) =~= c.slots@);
                assert(names_view(slots@) == class_slots_of(prev, *c));
                out.insert(text::to_lower(c.name.as_str()), slots);
                assert(slot_table_view(out@) =~= prev.insert(text::ascii_lower(c.name@), class_slots_of(prev, *c)));
            },
            _ => {},
        }
        i = i + 1;
    }
    assert(items@.take(i as int) =~= items@);
    out
}

/// The names a class contributes to the dictionary: the class itself,
/// the constructor `<c>`, and per slot `s` the getter `c>s`, the
/// chainable setter `s>>c` and the store `c.s!`.
pub open spec fn synth_names(c: Seq<char>, slots: Seq<Seq<char>>) -> Seq<Seq<char>>
    decreases slots.len(),
{
    if slots.len() == 0 {
        seq![c, "<"@ + c + ">"@]
    } else {
        let s = slots.last();
        synth_names(c, slots.drop_last()).add(seq![c + ">"@ + s, s + ">>"@ + c, c + "."@ + s + "!"@])
    }
}

/// Names (and the class name's span) a class declaration contributes
/// to the user dictionary, given its flattened slot list.
pub fn class_synthesised_names(c: &ClassDef, all_slots: &Vec<String>) -> (r: Vec<(String, Span)>)
    ensures
        r@.map_values(|p: (String, Span)| p.0@) == synth_names(text::ascii_lower(c.name@), names_view(all_slots@)),
        forall|i: int| 0 <= i < r@.len() ==> (#[trigger] r@[i]).1 == c.name_span,
{
    let class_lc = text::to_lower(c.name.as_str());
    let mut names: Vec<(String, Span)> = Vec::new();
    names.push((class_lc.clone(), c.name_span));
    let mut ctor = String::new();
    ctor.push_str("<");
    ctor.push_str(class_lc.as_str());
    ctor.push_str(">");
    names.push((ctor, c.name_span));
    let ghost cl = class_lc@;
    assert(names@.map_values(|p: (String, Span)| p.0@) =~= synth_names(cl, names_view(all_slots@.take(0))));
    let mut i: usize = 0;
    while i < all_slots.len()
        invariant
            i <= all_slots@.len(),
            cl == class_lc@,
            cl == text::ascii_lower(c.name@),
            names@.map_values(|p: (String, Span)| p.0@) == synth_names(cl, names_view(all_slots@.take(i as int))),
            forall|k: int| 0 <= k < names@.len() ==> (#[trigger] names@[k]).1 == c.name_span,
        decreases all_slots@.len() - i,
    {
        let s = &all_slots[i];
        let mut g = class_lc.clone();
        g.push_str(">");
        g.push_str(s.as_str());
        let mut cs = s.clone();
        cs.push_str(">>");
        cs.push_str(class_lc.as_str());
        let mut st = class_lc.clone();
        st.push_str(".");
        st.push_str(s.as_str());
        st.push_str("!");
        names.push((g, c.name_span));
        names.push((cs, c.name_span));
        names.push((st, c.name_span));
        proof {
            let t = names_view(all_slots@.take(i + 1));
            assert(t.drop_last() =~= names_view(all_slots@.take(i as int)));
            assert(t.last() == all_slots@[i as int]@);
        }
        i = i + 1;
        assert(names@.map_values(|p: (String, Span)| p.0@) =~= synth_names(cl, names_view(all_slots@.take(i as int))));
    }
    assert(all_slots@.take(i as int) =~= all_slots@);
    names
}

} // verus!
