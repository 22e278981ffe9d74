//! `?DUP IF` desugaring.
//!
//! `?DUP` leaves one or two items depending on its input, a shape
//! Factor's compiler rejects.  Written just before `IF` it can be
//! rewritten into balanced branches:
//!
//! ```text
//!   ?DUP IF t THEN          →  DUP IF t ELSE DROP THEN
//!   ?DUP IF t ELSE e THEN   →  DUP IF t ELSE DROP e THEN
//! ```
//!
//! A `?DUP` not followed by `IF` is left alone (resolve then reports
//! it as an unknown word).  The synthesised `DUP` and `DROP` get spans
//! of their own, numbered down from `SYNTH_BASE`, so the per-span
//! target table keeps them apart.
use vstd::prelude::*;
use crate::text;
use super::ast::{ArmV, CaseArm, ConstValue, Expr, ExprV, Item, Program, copy_expr, copy_exprs, ev, evs, avs, oevs, lemma_evs, lemma_evs_skip, lemma_avs};
use super::error::{Pos, Span};

verus! {

/// The byte offset the synthesised spans count down from.
pub const SYNTH_BASE: u32 = 0xFFFF_0000;

/// A fresh span for a synthesised word, carrying the line and column
/// of `orig`; `next` counts down.
pub fn synth_span(orig: Span, next: &mut u32) -> (s: Span)
    ensures
        s.start.byte_offset == *old(next),
        s.end.byte_offset == *old(next),
        s.start.line == orig.start.line,
        s.start.col == orig.start.col,
        s.end.line == orig.end.line,
        s.end.col == orig.end.col,
        *final(next) == (if *old(next) == 0 { u32::MAX as int } else { *old(next) - 1 }),
{
    let n = *next;
    *next = if n == 0 { u32::MAX } else { n - 1 };
    Span {
        start: Pos { line: orig.start.line, col: orig.start.col, byte_offset: n },
        end: Pos { line: orig.end.line, col: orig.end.col, byte_offset: n },
    }
}

/// The counter after handing out one synthesised span.
pub open spec fn dec(n: u32) -> u32 {
    if n == 0 { u32::MAX } else { (n - 1) as u32 }
}

/// The span a synthesised word gets: `orig`'s lines and columns at
/// byte offset `n`.
pub open spec fn synth(orig: Span, n: u32) -> Span {
    Span {
        start: Pos { line: orig.start.line, col: orig.start.col, byte_offset: n },
        end: Pos { line: orig.end.line, col: orig.end.col, byte_offset: n },
    }
}

/// Whether `e` is a reference to `?DUP`, in any case.
pub open spec fn is_qdup(e: ExprV) -> bool {
    e matches ExprV::WordRef { name, .. } && text::ascii_lower(name) == text::ascii_lower("?dup"@)
}

/// The desugared sequence, and the counter after it.
pub open spec fn qd_seq(s: Seq<ExprV>, n: u32) -> (Seq<ExprV>, u32)
    decreases s,
{
    if s.len() == 0 {
        (Seq::empty(), n)
    } else if s.len() > 1 && is_qdup(s[0]) && s[1] is If {
        let qs = s[0]->WordRef_span;
        let (t, n3) = qd_seq(s[1]->then_body, dec(dec(n)));
        let (ei, n4) = match s[1]->else_body {
            Some(b) => qd_seq(b, n3),
            None => (Seq::empty(), n3),
        };
        let (rest, n5) = qd_seq(s.subrange(2, s.len() as int), n4);
        (seq![
            ExprV::WordRef { name: "dup"@, span: synth(qs, n) },
            ExprV::If {
                then_body: t,
                else_body: Some(seq![ExprV::WordRef { name: "drop"@, span: synth(qs, dec(n)) }] + ei),
                span: s[1]->If_span,
            },
        ] + rest, n5)
    } else {
        let (x, n2) = qd_expr(s[0], n);
        let (rest, n3) = qd_seq(s.subrange(1, s.len() as int), n2);
        (seq![x] + rest, n3)
    }
}

/// The desugared optional sequence.
pub open spec fn qd_opt(o: Option<Seq<ExprV>>, n: u32) -> (Option<Seq<ExprV>>, u32)
    decreases o,
{
    match o {
        Some(b) => {
            let (x, n2) = qd_seq(b, n);
            (Some(x), n2)
        },
        None => (None, n),
    }
}

/// The desugared CASE arms: match expressions, then body, arm by arm.
pub open spec fn qd_arms(a: Seq<ArmV>, n: u32) -> (Seq<ArmV>, u32)
    decreases a,
{
    if a.len() == 0 {
        (Seq::empty(), n)
    } else {
        let (m, n2) = qd_seq(a[0].match_expr, n);
        let (b, n3) = qd_seq(a[0].body, n2);
        let (rest, n4) = qd_arms(a.subrange(1, a.len() as int), n3);
        (seq![ArmV { match_expr: m, body: b, span: a[0].span }] + rest, n4)
    }
}

/// The desugared expression: control flow rebuilt over desugared
/// bodies, anything else unchanged.
pub open spec fn qd_expr(e: ExprV, n: u32) -> (ExprV, u32)
    decreases e,
{
    match e {
        ExprV::If { then_body, else_body, span } => {
            let (t, n2) = qd_seq(then_body, n);
            let (o, n3) = qd_opt(else_body, n2);
            (ExprV::If { then_body: t, else_body: o, span }, n3)
        },
        ExprV::BeginUntil { body, span } => {
            let (b, n2) = qd_seq(body, n);
            (ExprV::BeginUntil { body: b, span }, n2)
        },
        ExprV::BeginAgain { body, span } => {
            let (b, n2) = qd_seq(body, n);
            (ExprV::BeginAgain { body: b, span }, n2)
        },
        ExprV::BeginWhileRepeat { pred, body, span } => {
            let (p, n2) = qd_seq(pred, n);
            let (b, n3) = qd_seq(body, n2);
            (ExprV::BeginWhileRepeat { pred: p, body: b, span }, n3)
        },
        ExprV::DoLoop { is_qdo, body, loop_kind, span } => {
            let (b, n2) = qd_seq(body, n);
            (ExprV::DoLoop { is_qdo, body: b, loop_kind, span }, n2)
        },
        ExprV::Case { arms, default, span } => {
            let (a, n2) = qd_arms(arms, n);
            let (d, n3) = qd_opt(default, n2);
            (ExprV::Case { arms: a, default: d, span }, n3)
        },
        _ => (e, n),
    }
}

fn is_qdup_word(e: &Expr) -> (r: bool)
    ensures
        r == (e matches Expr::WordRef { name, .. } && text::ascii_lower(name@) == text::ascii_lower("?dup"@)),
{
    match e {
        Expr::WordRef { name, .. } => text::eq_ignore_case(name.as_str(), "?dup"),
        _ => false,
    }
}

/// Rewrite every `?DUP IF` pair in a sequence, recursing into nested
/// control flow.
pub fn lower_seq(seq: &Vec<Expr>, next: &mut u32) -> (out: Vec<Expr>)
    ensures
        (evs(out@), *final(next)) == qd_seq(evs(seq@), *old(next)),
    decreases seq,
{
    let ghost sv = evs(seq@);
    let ghost n0 = *next;
    proof { lemma_evs(seq@); }
    let mut out: Vec<Expr> = Vec::new();
    let mut i: usize = 0;
    assert(sv.subrange(0, sv.len() as int) =~= sv);
    assert(evs(out@) + qd_seq(sv.subrange(0, sv.len() as int), *next).0 =~= qd_seq(sv, n0).0);
    while i < seq.len()
        invariant
            i <= seq@.len(),
            sv == evs(seq@),
            sv.len() == seq@.len(),
            forall|k: int| 0 <= k < seq@.len() ==> #[trigger] sv[k] == ev(seq@[k]),
            qd_seq(sv, n0).0 == evs(out@) + qd_seq(sv.subrange(i as int, sv.len() as int), *next).0,
            qd_seq(sv, n0).1 == qd_seq(sv.subrange(i as int, sv.len() as int), *next).1,
        decreases seq@.len() - i,
    {
        let ghost si = sv.subrange(i as int, sv.len() as int);
        let ghost nb = *next;
        let ghost ob = out@;
        let e = &seq[i];
        if is_qdup_word(e) && i + 1 < seq.len() {
            match &seq[i + 1] {
                Expr::If { then_body, else_body, span: if_span } => {
                    assert(si[0] == sv[i as int] && si[1] == sv[i + 1]);
                    let qdup_span = e.span();
                    let dup_span = synth_span(qdup_span, next);
                    let drop_span = synth_span(qdup_span, next);
                    let then_l = lower_seq(then_body, next);
                    let ghost n3 = *next;
                    let mut new_else: Vec<Expr> = Vec::new();
                    new_else.push(Expr::WordRef { name: text::owned("drop"), span: drop_span });
                    let ghost drop_v = ev(new_else@[0]);
                    match else_body {
                        Some(b) => {
                            let mut inner = lower_seq(b, next);
                            let ghost iv = inner@;
                            new_else.append(&mut inner);
                            proof {
                                assert(new_else@ =~= seq![new_else@[0]] + iv);
                                lemma_evs(new_else@);
                                lemma_evs(iv);
                                assert(evs(new_else@) =~= seq![drop_v] + evs(iv));
                            }
                        },
                        None => {
                            proof {
                                lemma_evs(new_else@);
                                assert(evs(new_else@) =~= seq![drop_v] + Seq::<ExprV>::empty());
                            }
                        },
                    }
                    let dup_e = Expr::WordRef { name: text::owned("dup"), span: dup_span };
                    let if_e = Expr::If { then_body: then_l, else_body: Some(new_else), span: *if_span };
                    out.push(dup_e);
                    out.push(if_e);
                    proof {
                        let rest_s = si.subrange(2, si.len() as int);
                        assert(rest_s =~= sv.subrange(i + 2, sv.len() as int));
                        lemma_evs(out@);
                        lemma_evs(ob);
                        assert(evs(out@) =~= evs(ob) + seq![ev(dup_e), ev(if_e)]);
                        let q = qd_seq(si, nb);
                        assert(q.0 =~= seq![ev(dup_e), ev(if_e)] + qd_seq(rest_s, *next).0);
                        assert(evs(ob) + q.0 =~= evs(out@) + qd_seq(rest_s, *next).0);
                    }
                    i = i + 2;
                    continue;
                },
                _ => {},
            }
        }
        let x = rewrite_nested(e, next);
        out.push(x);
        proof {
            assert(si[0] == sv[i as int]);
            let rest_s = si.subrange(1, si.len() as int);
            assert(rest_s =~= sv.subrange(i + 1, sv.len() as int));
            lemma_evs(out@);
            lemma_evs(ob);
            assert(evs(out@) =~= evs(ob) + seq![ev(x)]);
            let q = qd_seq(si, nb);
            assert(q.0 =~= seq![ev(x)] + qd_seq(rest_s, *next).0);
            assert(evs(ob) + q.0 =~= evs(out@) + qd_seq(rest_s, *next).0);
        }
        i = i + 1;
    }
    proof {
        let e = sv.subrange(i as int, sv.len() as int);
        assert(e =~= Seq::<ExprV>::empty());
        assert(evs(out@) + Seq::<ExprV>::empty() =~= evs(out@));
    }
    out
}

fn lower_opt(v: &Option<Vec<Expr>>, next: &mut u32) -> (r: Option<Vec<Expr>>)
    ensures
        (oevs(r), *final(next)) == qd_opt(oevs(*v), *old(next)),
    decreases v,
{
    match v {
        Some(b) => Some(lower_seq(b, next)),
        None => None,
    }
}

fn lower_arms(arms: &Vec<CaseArm>, next: &mut u32) -> (r: Vec<CaseArm>)
    ensures
        (avs(r@), *final(next)) == qd_arms(avs(arms@), *old(next)),
    decreases arms,
{
    let ghost av = avs(arms@);
    let ghost n0 = *next;
    proof { lemma_avs(arms@); }
    let mut out: Vec<CaseArm> = Vec::new();
    let mut k: usize = 0;
    assert(av.subrange(0, av.len() as int) =~= av);
    assert(avs(out@) + qd_arms(av.subrange(0, av.len() as int), *next).0 =~= qd_arms(av, n0).0);
    while k < arms.len()
        invariant
            k <= arms@.len(),
            av == avs(arms@),
            av.len() == arms@.len(),
            forall|j: int| 0 <= j < arms@.len() ==> #[trigger] av[j]
                == (ArmV { match_expr: evs(arms@[j].match_expr@), body: evs(arms@[j].body@), span: arms@[j].span }),
            qd_arms(av, n0).0 == avs(out@) + qd_arms(av.subrange(k as int, av.len() as int), *next).0,
            qd_arms(av, n0).1 == qd_arms(av.subrange(k as int, av.len() as int), *next).1,
        decreases arms@.len() - k,
    {
        let ghost ak = av.subrange(k as int, av.len() as int);
        let ghost nb = *next;
        let ghost ob = out@;
        let a = &arms[k];
        let m = lower_seq(&a.match_expr, next);
        let b = lower_seq(&a.body, next);
        let arm = CaseArm { match_expr: m, body: b, span: a.span };
        out.push(arm);
        proof {
            assert(ak[0] == av[k as int]);
            let rest_a = ak.subrange(1, ak.len() as int);
            assert(rest_a =~= av.subrange(k + 1, av.len() as int));
            lemma_avs(out@);
            lemma_avs(ob);
            let armv = ArmV { match_expr: evs(m@), body: evs(b@), span: a.span };
            assert(avs(out@) =~= avs(ob) + seq![armv]);
            let q = qd_arms(ak, nb);
            assert(q.0 =~= seq![armv] + qd_arms(rest_a, *next).0);
            assert(avs(ob) + q.0 =~= avs(out@) + qd_arms(rest_a, *next).0);
        }
        k = k + 1;
    }
    proof {
        let e = av.subrange(k as int, av.len() as int);
        assert(e =~= Seq::<ArmV>::empty());
        assert(avs(out@) + Seq::<ArmV>::empty() =~= avs(out@));
    }
    out
}

/// Apply the desugar to every sequence held inside a control-flow node.
fn rewrite_nested(e: &Expr, next: &mut u32) -> (r: Expr)
    ensures
        (ev(r), *final(next)) == qd_expr(ev(*e), *old(next)),
    decreases e,
{
    match e {
        Expr::If { then_body, else_body, span } => {
            let t = lower_seq(then_body, next);
            let o = lower_opt(else_body, next);
            Expr::If { then_body: t, else_body: o, span: *span }
        },
        Expr::BeginUntil { body, span } => Expr::BeginUntil { body: lower_seq(body, next), span: *span },
        Expr::BeginAgain { body, span } => Expr::BeginAgain { body: lower_seq(body, next), span: *span },
        Expr::BeginWhileRepeat { pred, body, span } => {
            let p = lower_seq(pred, next);
            let b = lower_seq(body, next);
            Expr::BeginWhileRepeat { pred: p, body: b, span: *span }
        },
        Expr::DoLoop { is_qdo, body, loop_kind, span } => Expr::DoLoop {
            is_qdo: *is_qdo,
            body: lower_seq(body, next),
            loop_kind: *loop_kind,
            span: *span,
        },
        Expr::Case { arms, default, span } => {
            let a = lower_arms(arms, next);
            let d = lower_opt(default, next);
            Expr::Case { arms: a, default: d, span: *span }
        },
        _ => copy_expr(e),
    }
}

/// The counter after desugaring one item from counter `n`.
pub open spec fn qd_item_next(it: Item, n: u32) -> u32 {
    match it {
        Item::Definition(d) => qd_seq(evs(d.body@), n).1,
        Item::TopLevel { exprs, .. } => qd_seq(evs(exprs@), n).1,
        Item::Constant(c) => match c.value {
            ConstValue::Computed(ex) => qd_seq(evs(ex@), n).1,
            _ => n,
        },
        Item::Template(t) => qd_seq(evs(t.does_body@), qd_seq(evs(t.constructor@), n).1).1,
        Item::Value(v) => qd_seq(evs(v.initial@), n).1,
        Item::Method(m) => qd_seq(evs(m.body@), n).1,
        Item::TemplateInstance(t) => qd_seq(evs(t.does_body@), n).1,
        _ => n,
    }
}

/// `new` is item `old` with every body desugared, from counter `n`;
/// everything else about it is unchanged.
pub open spec fn qd_item(old: Item, new: Item, n: u32) -> bool {
    match old {
        Item::Definition(d) => new matches Item::Definition(d2) && d2.name == d.name && d2.name_span == d.name_span
            && d2.effect == d.effect && d2.locals == d.locals && d2.span == d.span
            && evs(d2.body@) == qd_seq(evs(d.body@), n).0,
        Item::TopLevel { exprs, span } => new matches Item::TopLevel { exprs: e2, span: s2 } && s2 == span
            && evs(e2@) == qd_seq(evs(exprs@), n).0,
        Item::Constant(c) => new matches Item::Constant(c2) && c2.name == c.name && c2.name_span == c.name_span
            && c2.span == c.span && c2.flavour == c.flavour && match c.value {
                ConstValue::Computed(ex) => c2.value matches ConstValue::Computed(ex2)
                    && evs(ex2@) == qd_seq(evs(ex@), n).0,
                _ => c2.value == c.value,
            },
        Item::Template(t) => new matches Item::Template(t2) && t2.name == t.name && t2.name_span == t.name_span
            && t2.effect == t.effect && t2.span == t.span
            && evs(t2.constructor@) == qd_seq(evs(t.constructor@), n).0
            && evs(t2.does_body@) == qd_seq(evs(t.does_body@), qd_seq(evs(t.constructor@), n).1).0,
        Item::Value(v) => new matches Item::Value(v2) && v2.name == v.name && v2.name_span == v.name_span
            && v2.span == v.span && evs(v2.initial@) == qd_seq(evs(v.initial@), n).0,
        Item::Method(m) => new matches Item::Method(m2) && m2.generic_name == m.generic_name
            && m2.generic_name_span == m.generic_name_span && m2.specializers == m.specializers
            && m2.effect == m.effect && m2.span == m.span && m2.kind == m.kind
            && evs(m2.body@) == qd_seq(evs(m.body@), n).0,
        Item::TemplateInstance(t) => new matches Item::TemplateInstance(t2) && t2.name == t.name
            && t2.name_span == t.name_span && t2.template_name == t.template_name
            && t2.allocated_bytes == t.allocated_bytes && t2.span == t.span
            && evs(t2.does_body@) == qd_seq(evs(t.does_body@), n).0,
        _ => new == old,
    }
}

/// The counter after desugaring `items` in order from counter `n`.
pub open spec fn qd_count(items: Seq<Item>, n: u32) -> u32
    decreases items.len(),
{
    if items.len() == 0 { n } else { qd_item_next(items.last(), qd_count(items.drop_last(), n)) }
}

/// Desugar one item.
fn lower_item(item: Item, next: &mut u32) -> (r: Item)
    ensures
        qd_item(item, r, *old(next)),
        *final(next) == qd_item_next(item, *old(next)),
{
    match item {
        Item::Definition(mut d) => {
            d.body = lower_seq(&d.body, next);
            Item::Definition(d)
        },
        Item::TopLevel { exprs, span } => Item::TopLevel { exprs: lower_seq(&exprs, next), span },
        Item::Constant(mut c) => {
            let v = match c.value {
                ConstValue::Computed(ex) => ConstValue::Computed(lower_seq(&ex, next)),
                other => other,
            };
            c.value = v;
            Item::Constant(c)
        },
        Item::Template(mut t) => {
            t.constructor = lower_seq(&t.constructor, next);
            t.does_body = lower_seq(&t.does_body, next);
            Item::Template(t)
        },
        Item::Value(mut v) => {
            v.initial = lower_seq(&v.initial, next);
            Item::Value(v)
        },
        Item::Method(mut m) => {
            m.body = lower_seq(&m.body, next);
            Item::Method(m)
        },
        Item::TemplateInstance(mut t) => {
            t.does_body = lower_seq(&t.does_body, next);
            Item::TemplateInstance(t)
        },
        other => other,
    }
}

/// Run the desugar over every body of a program, item by item in
/// order.  The items keep their kinds, order and everything but their
/// bodies.
pub fn lower_program(prog: Program, next: &mut u32) -> (r: Program)
    ensures
        r.items@.len() == prog.items@.len(),
        forall|k: int| 0 <= k < prog.items@.len()
            ==> qd_item(prog.items@[k], #[trigger] r.items@[k], qd_count(prog.items@.take(k), *old(next))),
        forall|k: int| 0 <= k < r.items@.len() ==> item_qif_free(#[trigger] r.items@[k]),
        *final(next) == qd_count(prog.items@, *old(next)),
{
    let ghost orig = prog.items@;
    let ghost n0 = *next;
    let mut items = prog.items;
    let n = items.len();
    let mut i: usize = 0;
    assert(orig.take(0) =~= Seq::<Item>::empty());
    while i < n
        invariant
            n == items@.len(),
            n == orig.len(),
            i <= n,
            *next == qd_count(orig.take(i as int), n0),
            forall|k: int| 0 <= k < i ==> qd_item(orig[k], #[trigger] items@[k], qd_count(orig.take(k), n0)),
            forall|k: int| i <= k < n ==> #[trigger] items@[k] == orig[k],
        decreases n - i,
    {
        let ghost before = items@;
        let item = items.remove(i);
        let new_item = lower_item(item, next);
        items.insert(i, new_item);
        proof {
            assert(items@ =~= before.update(i as int, new_item));
            let t = orig.take(i + 1);
            assert(t.drop_last() =~= orig.take(i as int));
            assert(t.last() == orig[i as int]);
        }
        i = i + 1;
    }
    assert(orig.take(n as int) =~= orig);
    assert forall|k: int| 0 <= k < items@.len() implies item_qif_free(#[trigger] items@[k]) by {
        lemma_item_qdup_if_gone(orig[k], items@[k], qd_count(orig.take(k), n0));
    }
    Program { items }
}


/// No `?DUP` occurs anywhere in the sequence.
pub open spec fn qfree_seq(s: Seq<ExprV>) -> bool
    decreases s,
{
    s.len() == 0 || (!is_qdup(s[0]) && qfree_expr(s[0]) && qfree_seq(s.subrange(1, s.len() as int)))
}

/// No `?DUP` occurs anywhere in the expression.
pub open spec fn qfree_expr(e: ExprV) -> bool
    decreases e,
{
    match e {
        ExprV::If { then_body, else_body, .. } => qfree_seq(then_body) && qfree_opt(else_body),
        ExprV::BeginUntil { body, .. } => qfree_seq(body),
        ExprV::BeginAgain { body, .. } => qfree_seq(body),
        ExprV::BeginWhileRepeat { pred, body, .. } => qfree_seq(pred) && qfree_seq(body),
        ExprV::DoLoop { body, .. } => qfree_seq(body),
        ExprV::Case { arms, default, .. } => qfree_arms(arms) && qfree_opt(default),
        _ => true,
    }
}

pub open spec fn qfree_opt(o: Option<Seq<ExprV>>) -> bool
    decreases o,
{
    match o {
        Some(b) => qfree_seq(b),
        None => true,
    }
}

pub open spec fn qfree_arms(a: Seq<ArmV>) -> bool
    decreases a,
{
    a.len() == 0 || (qfree_seq(a[0].match_expr) && qfree_seq(a[0].body) && qfree_arms(a.subrange(1, a.len() as int)))
}

/// The desugar leaves a sequence without `?DUP` unchanged, and hands
/// out no spans for it.
pub proof fn lemma_qdup_free_unchanged(s: Seq<ExprV>, n: u32)
    requires
        qfree_seq(s),
    ensures
        qd_seq(s, n) == (s, n),
    decreases s,
{
    if s.len() > 0 {
        lemma_qdup_free_expr(s[0], n);
        lemma_qdup_free_unchanged(s.subrange(1, s.len() as int), n);
        assert(seq![s[0]] + s.subrange(1, s.len() as int) =~= s);
    }
}

/// The desugar leaves an expression without `?DUP` unchanged.
pub proof fn lemma_qdup_free_expr(e: ExprV, n: u32)
    requires
        qfree_expr(e),
    ensures
        qd_expr(e, n) == (e, n),
    decreases e,
{
    match e {
        ExprV::If { then_body, else_body, .. } => {
            lemma_qdup_free_unchanged(then_body, n);
            lemma_qdup_free_opt(else_body, n);
        },
        ExprV::BeginUntil { body, .. } => lemma_qdup_free_unchanged(body, n),
        ExprV::BeginAgain { body, .. } => lemma_qdup_free_unchanged(body, n),
        ExprV::BeginWhileRepeat { pred, body, .. } => {
            lemma_qdup_free_unchanged(pred, n);
            lemma_qdup_free_unchanged(body, n);
        },
        ExprV::DoLoop { body, .. } => lemma_qdup_free_unchanged(body, n),
        ExprV::Case { arms, default, .. } => {
            lemma_qdup_free_arms(arms, n);
            lemma_qdup_free_opt(default, n);
        },
        _ => {},
    }
}

/// The desugar leaves an optional sequence without `?DUP` unchanged.
pub proof fn lemma_qdup_free_opt(o: Option<Seq<ExprV>>, n: u32)
    requires
        qfree_opt(o),
    ensures
        qd_opt(o, n) == (o, n),
    decreases o,
{
    match o {
        Some(b) => lemma_qdup_free_unchanged(b, n),
        None => {},
    }
}

/// The desugar leaves CASE arms without `?DUP` unchanged.
pub proof fn lemma_qdup_free_arms(a: Seq<ArmV>, n: u32)
    requires
        qfree_arms(a),
    ensures
        qd_arms(a, n) == (a, n),
    decreases a,
{
    if a.len() > 0 {
        lemma_qdup_free_unchanged(a[0].match_expr, n);
        lemma_qdup_free_unchanged(a[0].body, n);
        lemma_qdup_free_arms(a.subrange(1, a.len() as int), n);
        assert(seq![a[0]] + a.subrange(1, a.len() as int) =~= a);
    }
}

/// No `?DUP` stands directly before an `IF` anywhere in the sequence,
/// at any depth of nesting.
pub open spec fn qif_free_seq(s: Seq<ExprV>) -> bool
    decreases s,
{
    s.len() == 0 || (!(s.len() > 1 && is_qdup(s[0]) && s[1] is If) && qif_free_expr(s[0]) && qif_free_seq(
        s.subrange(1, s.len() as int),
    ))
}

/// No `?DUP IF` pair inside any body of the expression.
pub open spec fn qif_free_expr(e: ExprV) -> bool
    decreases e,
{
    match e {
        ExprV::If { then_body, else_body, .. } => qif_free_seq(then_body) && qif_free_opt(else_body),
        ExprV::BeginUntil { body, .. } => qif_free_seq(body),
        ExprV::BeginAgain { body, .. } => qif_free_seq(body),
        ExprV::BeginWhileRepeat { pred, body, .. } => qif_free_seq(pred) && qif_free_seq(body),
        ExprV::DoLoop { body, .. } => qif_free_seq(body),
        ExprV::Case { arms, default, .. } => qif_free_arms(arms) && qif_free_opt(default),
        _ => true,
    }
}

pub open spec fn qif_free_opt(o: Option<Seq<ExprV>>) -> bool
    decreases o,
{
    match o {
        Some(b) => qif_free_seq(b),
        None => true,
    }
}

pub open spec fn qif_free_arms(a: Seq<ArmV>) -> bool
    decreases a,
{
    a.len() == 0 || (qif_free_seq(a[0].match_expr) && qif_free_seq(a[0].body) && qif_free_arms(
        a.subrange(1, a.len() as int),
    ))
}

/// The words the rewrite puts in place of `?DUP` are no `?DUP`.
proof fn lemma_synth_words_not_qdup(sp1: Span, sp2: Span)
    ensures
        !is_qdup(ExprV::WordRef { name: "dup"@, span: sp1 }),
        !is_qdup(ExprV::WordRef { name: "drop"@, span: sp2 }),
{
    reveal_strlit("dup");
    reveal_strlit("drop");
    reveal_strlit("?dup");
    assert(text::ascii_lower("dup"@).len() != text::ascii_lower("?dup"@).len());
    assert(text::ascii_lower("drop"@)[0] != text::ascii_lower("?dup"@)[0]);
}

/// Rebuilding an expression keeps its kind: an `IF` stays an `IF`, and
/// a `?DUP` comes only from itself.
proof fn lemma_qd_expr_shape(e: ExprV, n: u32)
    ensures
        (qd_expr(e, n).0 is If) == (e is If),
        is_qdup(qd_expr(e, n).0) ==> qd_expr(e, n).0 == e,
{
}

/// The first piece of a desugared sequence is an `IF` only where the
/// sequence began with one.
proof fn lemma_qd_seq_head(t: Seq<ExprV>, n: u32)
    requires
        t.len() > 0,
    ensures
        qd_seq(t, n).0.len() > 0,
        qd_seq(t, n).0[0] is If ==> t[0] is If,
{
    lemma_qd_expr_shape(t[0], n);
}

/// A sequence built from a head and a tail is free of `?DUP IF` pairs
/// when both are and the seam holds none.
proof fn lemma_qif_free_cons(x: ExprV, r: Seq<ExprV>)
    requires
        qif_free_expr(x),
        qif_free_seq(r),
        !(is_qdup(x) && r.len() > 0 && r[0] is If),
    ensures
        qif_free_seq(seq![x] + r),
{
    let s = seq![x] + r;
    assert(s.subrange(1, s.len() as int) =~= r);
    assert(s[0] == x);
}

/// After the desugar no `?DUP` stands directly before an `IF` anywhere
/// in the sequence, however deep the pair was nested.
pub proof fn lemma_qdup_if_gone(s: Seq<ExprV>, n: u32)
    ensures
        qif_free_seq(qd_seq(s, n).0),
    decreases s,
{
    if s.len() == 0 {
    } else if s.len() > 1 && is_qdup(s[0]) && s[1] is If {
        let qs = s[0]->WordRef_span;
        let (t, n3) = qd_seq(s[1]->then_body, dec(dec(n)));
        let (ei, n4) = match s[1]->else_body {
            Some(b) => qd_seq(b, n3),
            None => (Seq::empty(), n3),
        };
        let (rest, n5) = qd_seq(s.subrange(2, s.len() as int), n4);
        lemma_qdup_if_gone(s[1]->then_body, dec(dec(n)));
        match s[1]->else_body {
            Some(b) => lemma_qdup_if_gone(b, n3),
            None => {},
        }
        lemma_qdup_if_gone(s.subrange(2, s.len() as int), n4);
        let dup_w = ExprV::WordRef { name: "dup"@, span: synth(qs, n) };
        let drop_w = ExprV::WordRef { name: "drop"@, span: synth(qs, dec(n)) };
        lemma_synth_words_not_qdup(synth(qs, n), synth(qs, dec(n)));
        lemma_qif_free_cons(drop_w, ei);
        let if_e = ExprV::If { then_body: t, else_body: Some(seq![drop_w] + ei), span: s[1]->If_span };
        lemma_qif_free_cons(if_e, rest);
        lemma_qif_free_cons(dup_w, seq![if_e] + rest);
        assert(qd_seq(s, n).0 =~= seq![dup_w] + (seq![if_e] + rest));
    } else {
        let (x, n2) = qd_expr(s[0], n);
        let tail = s.subrange(1, s.len() as int);
        let (rest, n3) = qd_seq(tail, n2);
        lemma_qdup_if_gone_expr(s[0], n);
        lemma_qdup_if_gone(tail, n2);
        lemma_qd_expr_shape(s[0], n);
        if tail.len() > 0 {
            lemma_qd_seq_head(tail, n2);
            assert(tail[0] == s[1]);
        }
        lemma_qif_free_cons(x, rest);
    }
}

/// The desugared expression holds no `?DUP IF` pair in any body.
pub proof fn lemma_qdup_if_gone_expr(e: ExprV, n: u32)
    ensures
        qif_free_expr(qd_expr(e, n).0),
    decreases e,
{
    match e {
        ExprV::If { then_body, else_body, .. } => {
            let (t, n2) = qd_seq(then_body, n);
            lemma_qdup_if_gone(then_body, n);
            lemma_qdup_if_gone_opt(else_body, n2);
        },
        ExprV::BeginUntil { body, .. } => lemma_qdup_if_gone(body, n),
        ExprV::BeginAgain { body, .. } => lemma_qdup_if_gone(body, n),
        ExprV::BeginWhileRepeat { pred, body, .. } => {
            let (p, n2) = qd_seq(pred, n);
            lemma_qdup_if_gone(pred, n);
            lemma_qdup_if_gone(body, n2);
        },
        ExprV::DoLoop { body, .. } => lemma_qdup_if_gone(body, n),
        ExprV::Case { arms, default, .. } => {
            let (a, n2) = qd_arms(arms, n);
            lemma_qdup_if_gone_arms(arms, n);
            lemma_qdup_if_gone_opt(default, n2);
        },
        _ => {},
    }
}

/// The desugared optional sequence holds no `?DUP IF` pair.
pub proof fn lemma_qdup_if_gone_opt(o: Option<Seq<ExprV>>, n: u32)
    ensures
        qif_free_opt(qd_opt(o, n).0),
    decreases o,
{
    match o {
        Some(b) => lemma_qdup_if_gone(b, n),
        None => {},
    }
}

/// The desugared CASE arms hold no `?DUP IF` pair.
pub proof fn lemma_qdup_if_gone_arms(a: Seq<ArmV>, n: u32)
    ensures
        qif_free_arms(qd_arms(a, n).0),
    decreases a,
{
    if a.len() > 0 {
        let (m, n2) = qd_seq(a[0].match_expr, n);
        let (b, n3) = qd_seq(a[0].body, n2);
        let tail = a.subrange(1, a.len() as int);
        let (rest, n4) = qd_arms(tail, n3);
        lemma_qdup_if_gone(a[0].match_expr, n);
        lemma_qdup_if_gone(a[0].body, n2);
        lemma_qdup_if_gone_arms(tail, n3);
        let out = qd_arms(a, n).0;
        assert(out.subrange(1, out.len() as int) =~= rest);
    }
}

/// No body of the item holds a `?DUP IF` pair.
pub open spec fn item_qif_free(it: Item) -> bool {
    match it {
        Item::Definition(d) => qif_free_seq(evs(d.body@)),
        Item::TopLevel { exprs, .. } => qif_free_seq(evs(exprs@)),
        Item::Constant(c) => match c.value {
            ConstValue::Computed(ex) => qif_free_seq(evs(ex@)),
            _ => true,
        },
        Item::Template(t) => qif_free_seq(evs(t.constructor@)) && qif_free_seq(evs(t.does_body@)),
        Item::Value(v) => qif_free_seq(evs(v.initial@)),
        Item::Method(m) => qif_free_seq(evs(m.body@)),
        Item::TemplateInstance(t) => qif_free_seq(evs(t.does_body@)),
        _ => true,
    }
}

/// An item desugared from any counter holds no `?DUP IF` pair in any
/// body, whatever the original held.
pub proof fn lemma_item_qdup_if_gone(old: Item, new: Item, n: u32)
    requires
        qd_item(old, new, n),
    ensures
        item_qif_free(new),
{
    match old {
        Item::Definition(d) => lemma_qdup_if_gone(evs(d.body@), n),
        Item::TopLevel { exprs, .. } => lemma_qdup_if_gone(evs(exprs@), n),
        Item::Constant(c) => match c.value {
            ConstValue::Computed(ex) => lemma_qdup_if_gone(evs(ex@), n),
            _ => {},
        },
        Item::Template(t) => {
            lemma_qdup_if_gone(evs(t.constructor@), n);
            lemma_qdup_if_gone(evs(t.does_body@), qd_seq(evs(t.constructor@), n).1);
        },
        Item::Value(v) => lemma_qdup_if_gone(evs(v.initial@), n),
        Item::Method(m) => lemma_qdup_if_gone(evs(m.body@), n),
        Item::TemplateInstance(t) => lemma_qdup_if_gone(evs(t.does_body@), n),
        _ => {},
    }
}

} // verus!
