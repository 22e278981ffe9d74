//! `RECURSE` binding.
//!
//! Every `RECURSE` inside a `:` body becomes a reference to the
//! definition's own name, which resolve then handles as an ordinary
//! self-call.  A recursive definition without a stack-effect
//! annotation is reported: Factor cannot compile a recursive word
//! whose effect it has to guess.
use vstd::prelude::*;
use crate::text;
use super::ast::{ArmV, CaseArm, Definition, Expr, ExprV, Item, Program, copy_expr, ev, evs, avs, lemma_evs, lemma_avs};
use super::error::Span;

verus! {

/// A definition that uses `RECURSE` but declares no stack effect.
#[derive(Clone, Debug)]
pub struct MissingRecurseEffect {
    pub word_name: String,
    pub at: Span,
}

/// Whether a name is `RECURSE`, in any case.
pub open spec fn is_recurse(name: Seq<char>) -> bool {
    text::ascii_lower(name) == "recurse"@
}

/// Whether an expression refers to `RECURSE` anywhere inside it.
pub open spec fn expr_mentions(e: Expr) -> bool
    decreases e,
{
    match e {
        Expr::WordRef { name, .. } => is_recurse(name@),
        Expr::If { then_body, else_body, .. } =>
            block_mentions(then_body@) || (else_body matches Some(b) && block_mentions(b@)),
        Expr::BeginUntil { body, .. } => block_mentions(body@),
        Expr::BeginAgain { body, .. } => block_mentions(body@),
        Expr::DoLoop { body, .. } => block_mentions(body@),
        Expr::BeginWhileRepeat { pred, body, .. } => block_mentions(pred@) || block_mentions(body@),
        Expr::Case { arms, default, .. } => arms_mention(arms@) || (default matches Some(d) && block_mentions(d@)),
        _ => false,
    }
}

pub open spec fn block_mentions(s: Seq<Expr>) -> bool
    decreases s,
{
    if s.len() == 0 { false } else { block_mentions(s.drop_last()) || expr_mentions(s.last()) }
}

pub open spec fn arms_mention(s: Seq<CaseArm>) -> bool
    decreases s,
{
    if s.len() == 0 {
        false
    } else {
        arms_mention(s.drop_last()) || block_mentions(s.last().match_expr@) || block_mentions(s.last().body@)
    }
}

/// The tree with every `RECURSE` reference renamed to `target`.
pub open spec fn rc_expr(e: ExprV, target: Seq<char>) -> ExprV
    decreases e,
{
    match e {
        ExprV::WordRef { name, span } => ExprV::WordRef { name: if is_recurse(name) { target } else { name }, span },
        ExprV::If { then_body, else_body, span } => ExprV::If {
            then_body: rc_seq(then_body, target),
            else_body: match else_body { Some(b) => Some(rc_seq(b, target)), None => None },
            span,
        },
        ExprV::BeginUntil { body, span } => ExprV::BeginUntil { body: rc_seq(body, target), span },
        ExprV::BeginAgain { body, span } => ExprV::BeginAgain { body: rc_seq(body, target), span },
        ExprV::DoLoop { is_qdo, body, loop_kind, span } => ExprV::DoLoop { is_qdo, body: rc_seq(body, target), loop_kind, span },
        ExprV::BeginWhileRepeat { pred, body, span } => ExprV::BeginWhileRepeat {
            pred: rc_seq(pred, target),
            body: rc_seq(body, target),
            span,
        },
        ExprV::Case { arms, default, span } => ExprV::Case {
            arms: rc_arms(arms, target),
            default: match default { Some(d) => Some(rc_seq(d, target)), None => None },
            span,
        },
        _ => e,
    }
}

pub open spec fn rc_seq(s: Seq<ExprV>, target: Seq<char>) -> Seq<ExprV>
    decreases s,
{
    if s.len() == 0 { Seq::empty() } else { rc_seq(s.drop_last(), target).push(rc_expr(s.last(), target)) }
}

pub open spec fn rc_arms(a: Seq<ArmV>, target: Seq<char>) -> Seq<ArmV>
    decreases a,
{
    if a.len() == 0 {
        Seq::empty()
    } else {
        rc_arms(a.drop_last(), target).push(ArmV {
            match_expr: rc_seq(a.last().match_expr, target),
            body: rc_seq(a.last().body, target),
            span: a.last().span,
        })
    }
}

fn rewrite_expr(e: &Expr, target: &String) -> (r: (Expr, bool))
    ensures
        r.1 == expr_mentions(*e),
        ev(r.0) == rc_expr(ev(*e), target@),
        !is_recurse(target@) ==> !expr_mentions(r.0),
    decreases e,
{
    match e {
        Expr::WordRef { name, span } => {
            proof {
                reveal_strlit("recurse");
                assert(text::ascii_lower("recurse"@) =~= "recurse"@);
            }
            if text::eq_ignore_case(name.as_str(), "recurse") {
                (Expr::WordRef { name: target.clone(), span: *span }, true)
            } else {
                (Expr::WordRef { name: name.clone(), span: *span }, false)
            }
        },
        Expr::If { then_body, else_body, span } => {
            let (t, s1) = rewrite_seq(then_body, target);
            let (eb, s2) = match else_body {
                Some(b) => {
                    let (x, s) = rewrite_seq(b, target);
                    (Some(x), s)
                },
                None => (None, false),
            };
            (Expr::If { then_body: t, else_body: eb, span: *span }, s1 || s2)
        },
        Expr::BeginUntil { body, span } => {
            let (b, s) = rewrite_seq(body, target);
            (Expr::BeginUntil { body: b, span: *span }, s)
        },
        Expr::BeginAgain { body, span } => {
            let (b, s) = rewrite_seq(body, target);
            (Expr::BeginAgain { body: b, span: *span }, s)
        },
        Expr::DoLoop { is_qdo, body, loop_kind, span } => {
            let (b, s) = rewrite_seq(body, target);
            (Expr::DoLoop { is_qdo: *is_qdo, body: b, loop_kind: *loop_kind, span: *span }, s)
        },
        Expr::BeginWhileRepeat { pred, body, span } => {
            let (p, s1) = rewrite_seq(pred, target);
            let (b, s2) = rewrite_seq(body, target);
            (Expr::BeginWhileRepeat { pred: p, body: b, span: *span }, s1 || s2)
        },
        Expr::Case { arms, default, span } => {
            let (a, s1) = rewrite_arms(arms, target);
            let (d, s2) = match default {
                Some(b) => {
                    let (x, s) = rewrite_seq(b, target);
                    (Some(x), s)
                },
                None => (None, false),
            };
            (Expr::Case { arms: a, default: d, span: *span }, s1 || s2)
        },
        _ => (copy_expr(e), false),
    }
}

fn rewrite_seq(seq: &Vec<Expr>, target: &String) -> (r: (Vec<Expr>, bool))
    ensures
        r.1 == block_mentions(seq@),
        evs(r.0@) == rc_seq(evs(seq@), target@),
        !is_recurse(target@) ==> !block_mentions(r.0@),
    decreases seq,
{
    let mut out: Vec<Expr> = Vec::new();
    let mut saw = false;
    let mut i: usize = 0;
    assert(seq@.take(0) =~= Seq::<Expr>::empty());
    while i < seq.len()
        invariant
            i <= seq@.len(),
            out@.len() == i,
            saw == block_mentions(seq@.take(i as int)),
            !is_recurse(target@) ==> !block_mentions(out@),
            evs(out@) == rc_seq(evs(seq@.take(i as int)), target@),
        decreases seq@.len() - i,
    {
        let (e, s) = rewrite_expr(&seq[i], target);
        let ghost before = out@;
        out.push(e);
        proof {
            let t = seq@.take(i + 1);
            assert(t.drop_last() =~= seq@.take(i as int));
            assert(t.last() == seq@[i as int]);
            assert(out@.drop_last() =~= before);
            assert(evs(t).drop_last() =~= evs(t.drop_last()));
            assert(evs(t).last() == ev(t.last()));
        }
        saw = saw || s;
        i = i + 1;
    }
    assert(seq@.take(i as int) =~= seq@);
    (out, saw)
}

fn rewrite_arms(arms: &Vec<CaseArm>, target: &String) -> (r: (Vec<CaseArm>, bool))
    ensures
        r.1 == arms_mention(arms@),
        avs(r.0@) == rc_arms(avs(arms@), target@),
        !is_recurse(target@) ==> !arms_mention(r.0@),
    decreases arms,
{
    let mut out: Vec<CaseArm> = Vec::new();
    let mut saw = false;
    let mut i: usize = 0;
    assert(arms@.take(0) =~= Seq::<CaseArm>::empty());
    while i < arms.len()
        invariant
            i <= arms@.len(),
            saw == arms_mention(arms@.take(i as int)),
            !is_recurse(target@) ==> !arms_mention(out@),
            avs(out@) == rc_arms(avs(arms@.take(i as int)), target@),
        decreases arms@.len() - i,
    {
        let a = &arms[i];
        let (m, s1) = rewrite_seq(&a.match_expr, target);
        let (b, s2) = rewrite_seq(&a.body, target);
        let ghost before = out@;
        out.push(CaseArm { match_expr: m, body: b, span: a.span });
        proof {
            let t = arms@.take(i + 1);
            assert(t.drop_last() =~= arms@.take(i as int));
            assert(t.last() == arms@[i as int]);
            assert(out@.drop_last() =~= before);
            assert(avs(t).drop_last() =~= avs(t.drop_last()));
        }
        saw = saw || s1 || s2;
        i = i + 1;
    }
    assert(arms@.take(i as int) =~= arms@);
    (out, saw)
}

/// `new` is item `old` with `RECURSE` bound: a definition's body
/// refers to the definition's own name in its place; any other item is
/// unchanged.
pub open spec fn rc_item(old: Item, new: Item) -> bool {
    match old {
        Item::Definition(d) => new matches Item::Definition(d2) && d2.name == d.name && d2.name_span == d.name_span
            && d2.effect == d.effect && d2.locals == d.locals && d2.span == d.span
            && evs(d2.body@) == rc_seq(evs(d.body@), d.name@),
        _ => new == old,
    }
}

/// The definitions, in order, that use `RECURSE` without a declared
/// stack effect.
pub open spec fn missing_effects(items: Seq<Item>) -> Seq<(Seq<char>, Span)>
    decreases items.len(),
{
    if items.len() == 0 {
        Seq::empty()
    } else {
        let prev = missing_effects(items.drop_last());
        match items.last() {
            Item::Definition(d) =>
                if block_mentions(d.body@) && d.effect is None { prev.push((d.name@, d.name_span)) } else { prev },
            _ => prev,
        }
    }
}

/// Bind `RECURSE` in every definition.  Returns the rewritten program
/// and the recursive definitions that lack a stack effect.  Afterwards
/// no definition (other than one itself named `RECURSE`) mentions
/// `RECURSE`, and the items keep their kinds, names and order.
pub fn lower_program(prog: Program) -> (r: (Program, Vec<MissingRecurseEffect>))
    ensures
        r.0.items@.len() == prog.items@.len(),
        r.1@.map_values(|m: MissingRecurseEffect| (m.word_name@, m.at)) == missing_effects(prog.items@),
        forall|k: int| 0 <= k < r.0.items@.len() ==> (#[trigger] r.0.items@[k] matches Item::Definition(d)
            ==> (!is_recurse(d.name@) ==> !block_mentions(d.body@))),
        forall|k: int| 0 <= k < r.0.items@.len() ==> (#[trigger] r.0.items@[k] is Definition
            <==> prog.items@[k] is Definition),
        forall|k: int| 0 <= k < prog.items@.len() ==> rc_item(prog.items@[k], #[trigger] r.0.items@[k]),
{
    let ghost orig = prog.items@;
    let mut items = prog.items;
    let mut missing: Vec<MissingRecurseEffect> = Vec::new();
    let n = items.len();
    let mut i: usize = 0;
    assert(orig.take(0) =~= Seq::<Item>::empty());
    while i < n
        invariant
            n == items@.len(),
            n == orig.len(),
            i <= n,
            forall|k: int| i <= k < n ==> items@[k] == orig[k],
            missing@.map_values(|m: MissingRecurseEffect| (m.word_name@, m.at)) == missing_effects(orig.take(i as int)),
            forall|k: int| 0 <= k < i ==> (#[trigger] items@[k] matches Item::Definition(d)
                ==> (!is_recurse(d.name@) ==> !block_mentions(d.body@))),
            forall|k: int| 0 <= k < n ==> (#[trigger] items@[k] is Definition <==> orig[k] is Definition),
            forall|k: int| 0 <= k < i ==> rc_item(orig[k], #[trigger] items@[k]),
        decreases n - i,
    {
        proof {
            let t = orig.take(i + 1);
            assert(t.drop_last() =~= orig.take(i as int));
            assert(t.last() == orig[i as int]);
        }
        let item = items.remove(i);
        let ghost before_missing = missing@;
        let new_item = match item {
            Item::Definition(d) => {
                let (body, saw) = rewrite_seq(&d.body, &d.name);
                if saw && d.effect.is_none() {
                    missing.push(MissingRecurseEffect { word_name: d.name.clone(), at: d.name_span });
                    assert(missing@.map_values(|m: MissingRecurseEffect| (m.word_name@, m.at)) =~=
                        before_missing.map_values(|m: MissingRecurseEffect| (m.word_name@, m.at)).push((d.name@, d.name_span)));
                }
                Item::Definition(Definition {
                    name: d.name,
                    name_span: d.name_span,
                    effect: d.effect,
                    locals: d.locals,
                    body,
                    span: d.span,
                })
            },
            other => other,
        };
        items.insert(i, new_item);
        i = i + 1;
    }
    assert(orig.take(i as int) =~= orig);
    (Program { items }, missing)
}

} // verus!
