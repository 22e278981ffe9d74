//! `EXIT` lowering by tail-inlining.
//!
//! At every `IF` or `CASE` whose branches hold `EXIT`, the rest of the
//! enclosing sequence is appended to each branch, and each branch is
//! lowered again; inside a branch an `EXIT` then drops whatever follows
//! it.  The result holds no `EXIT` outside loop bodies, so emit only
//! wraps a definition in `with-return` when an `EXIT` sits inside a
//! loop (where inlining the tail would change the meaning).
//!
//! ```text
//!   : f  A IF B EXIT THEN C ;   →   : f  A IF B ELSE C THEN ;
//! ```
use vstd::prelude::*;
use crate::text;
use super::ast::{ArmV, CaseArm, Expr, ExprV, bsize, esize, asize, copy_expr, copy_exprs, lemma_bsize_append, lemma_bsize_split, ev, evs, avs, oevs, lemma_evs, lemma_evs_add, lemma_evs_skip, lemma_avs};
use super::error::Span;
use super::resolve::{Target, Targets, span_target};

verus! {

/// Whether a resolved target is Factor's `continuations:return`, the
/// lowering of ANS `EXIT`.
pub open spec fn is_return(t: Option<Target>) -> bool {
    t matches Some(Target::QualifiedBuiltin { vocab, factor_name }) && vocab@ == "continuations"@
        && factor_name@ == "return"@
}

/// Whether an expression is a reference to `EXIT`.
pub open spec fn is_exit(e: Expr, targets: Seq<(Span, Target)>) -> bool {
    e matches Expr::WordRef { span, .. } && is_return(span_target(targets, span))
}

/// Whether `EXIT` occurs in an expression, loops and CASE arm bodies
/// included (CASE match expressions are not looked at).
pub open spec fn expr_uses_exit(e: Expr, t: Seq<(Span, Target)>) -> bool
    decreases e,
{
    is_exit(e, t) || match e {
        Expr::If { then_body, else_body, .. } =>
            block_uses_exit(then_body@, t) || (else_body matches Some(b) && block_uses_exit(b@, t)),
        Expr::BeginUntil { body, .. } => block_uses_exit(body@, t),
        Expr::BeginAgain { body, .. } => block_uses_exit(body@, t),
        Expr::DoLoop { body, .. } => block_uses_exit(body@, t),
        Expr::BeginWhileRepeat { pred, body, .. } => block_uses_exit(pred@, t) || block_uses_exit(body@, t),
        Expr::Case { arms, default, .. } =>
            arms_use_exit(arms@, t) || (default matches Some(d) && block_uses_exit(d@, t)),
        _ => false,
    }
}

pub open spec fn block_uses_exit(s: Seq<Expr>, t: Seq<(Span, Target)>) -> bool
    decreases s,
{
    if s.len() == 0 { false } else { block_uses_exit(s.drop_last(), t) || expr_uses_exit(s.last(), t) }
}

pub open spec fn arms_use_exit(s: Seq<CaseArm>, t: Seq<(Span, Target)>) -> bool
    decreases s,
{
    if s.len() == 0 { false } else { arms_use_exit(s.drop_last(), t) || block_uses_exit(s.last().body@, t) }
}

/// Whether `EXIT` occurs outside every loop body: directly in the
/// sequence, in an `IF` branch, or in a `CASE` arm body or default.
pub open spec fn expr_stray(e: Expr, t: Seq<(Span, Target)>) -> bool
    decreases e,
{
    is_exit(e, t) || match e {
        Expr::If { then_body, else_body, .. } =>
            block_stray(then_body@, t) || (else_body matches Some(b) && block_stray(b@, t)),
        Expr::Case { arms, default, .. } =>
            arms_stray(arms@, t) || (default matches Some(d) && block_stray(d@, t)),
        _ => false,
    }
}

pub open spec fn block_stray(s: Seq<Expr>, t: Seq<(Span, Target)>) -> bool
    decreases s,
{
    if s.len() == 0 { false } else { block_stray(s.drop_last(), t) || expr_stray(s.last(), t) }
}

pub open spec fn arms_stray(s: Seq<CaseArm>, t: Seq<(Span, Target)>) -> bool
    decreases s,
{
    if s.len() == 0 { false } else { arms_stray(s.drop_last(), t) || block_stray(s.last().body@, t) }
}

// ─── The lowering, on values ───────────────────────────────────────────────

/// Whether a tree is a reference to `EXIT`.
pub open spec fn exit_v(e: ExprV, t: Seq<(Span, Target)>) -> bool {
    e matches ExprV::WordRef { span, .. } && is_return(span_target(t, span))
}

/// Whether `EXIT` occurs in a tree (see [`expr_uses_exit`]).
pub open spec fn uses_v(e: ExprV, t: Seq<(Span, Target)>) -> bool
    decreases e,
{
    exit_v(e, t) || match e {
        ExprV::If { then_body, else_body, .. } =>
            buses_v(then_body, t) || (else_body matches Some(b) && buses_v(b, t)),
        ExprV::BeginUntil { body, .. } => buses_v(body, t),
        ExprV::BeginAgain { body, .. } => buses_v(body, t),
        ExprV::DoLoop { body, .. } => buses_v(body, t),
        ExprV::BeginWhileRepeat { pred, body, .. } => buses_v(pred, t) || buses_v(body, t),
        ExprV::Case { arms, default, .. } => auses_v(arms, t) || (default matches Some(d) && buses_v(d, t)),
        _ => false,
    }
}

pub open spec fn buses_v(s: Seq<ExprV>, t: Seq<(Span, Target)>) -> bool
    decreases s,
{
    if s.len() == 0 { false } else { buses_v(s.drop_last(), t) || uses_v(s.last(), t) }
}

pub open spec fn auses_v(s: Seq<ArmV>, t: Seq<(Span, Target)>) -> bool
    decreases s,
{
    if s.len() == 0 { false } else { auses_v(s.drop_last(), t) || buses_v(s.last().body, t) }
}

/// Node count of a tree, each CASE arm counting one besides its parts.
pub open spec fn vsize(e: ExprV) -> nat
    decreases e,
{
    1 + match e {
        ExprV::If { then_body, else_body, .. } =>
            vbsize(then_body) + match else_body { Some(b) => vbsize(b), None => 0 },
        ExprV::BeginUntil { body, .. } => vbsize(body),
        ExprV::BeginAgain { body, .. } => vbsize(body),
        ExprV::DoLoop { body, .. } => vbsize(body),
        ExprV::BeginWhileRepeat { pred, body, .. } => vbsize(pred) + vbsize(body),
        ExprV::Case { arms, default, .. } => vasize(arms) + match default { Some(d) => vbsize(d), None => 0 },
        _ => 0,
    }
}

pub open spec fn vbsize(s: Seq<ExprV>) -> nat
    decreases s,
{
    if s.len() == 0 { 0 } else { vbsize(s.drop_last()) + vsize(s.last()) }
}

pub open spec fn vasize(s: Seq<ArmV>) -> nat
    decreases s,
{
    if s.len() == 0 { 0 } else { vasize(s.drop_last()) + 1 + vbsize(s.last().match_expr) + vbsize(s.last().body) }
}

pub proof fn lemma_vbsize_append(a: Seq<ExprV>, b: Seq<ExprV>)
    ensures
        vbsize(a + b) == vbsize(a) + vbsize(b),
    decreases b.len(),
{
    if b.len() == 0 {
        assert(a + b =~= a);
    } else {
        assert((a + b).drop_last() =~= a + b.drop_last());
        lemma_vbsize_append(a, b.drop_last());
    }
}

pub proof fn lemma_vasize_append(a: Seq<ArmV>, b: Seq<ArmV>)
    ensures
        vasize(a + b) == vasize(a) + vasize(b),
    decreases b.len(),
{
    if b.len() == 0 {
        assert(a + b =~= a);
    } else {
        assert((a + b).drop_last() =~= a + b.drop_last());
        lemma_vasize_append(a, b.drop_last());
    }
}

/// A sequence's size is its head's plus its tail's.
pub proof fn lemma_vbsize_front(s: Seq<ExprV>)
    requires
        s.len() > 0,
    ensures
        vbsize(s) == vsize(s[0]) + vbsize(s.subrange(1, s.len() as int)),
{
    assert(s =~= seq![s[0]] + s.subrange(1, s.len() as int));
    lemma_vbsize_append(seq![s[0]], s.subrange(1, s.len() as int));
    let one = seq![s[0]];
    assert(one.drop_last() =~= Seq::<ExprV>::empty());
    assert(one.last() == s[0]);
    assert(vbsize(one) == vbsize(one.drop_last()) + vsize(one.last()));
    assert(vbsize(Seq::<ExprV>::empty()) == 0);
}

/// Arms' size is the first arm's plus the rest's.
pub proof fn lemma_vasize_front(a: Seq<ArmV>)
    requires
        a.len() > 0,
    ensures
        vasize(a) == 1 + vbsize(a[0].match_expr) + vbsize(a[0].body) + vasize(a.subrange(1, a.len() as int)),
{
    assert(a =~= seq![a[0]] + a.subrange(1, a.len() as int));
    lemma_vasize_append(seq![a[0]], a.subrange(1, a.len() as int));
    let one = seq![a[0]];
    assert(one.drop_last() =~= Seq::<ArmV>::empty());
    assert(one.last() == a[0]);
    assert(vasize(one) == vasize(one.drop_last()) + 1 + vbsize(one.last().match_expr) + vbsize(one.last().body));
    assert(vasize(Seq::<ArmV>::empty()) == 0);
}

/// An optional body, or nothing.
pub open spec fn or_empty(o: Option<Seq<ExprV>>) -> Seq<ExprV> {
    match o {
        Some(b) => b,
        None => Seq::empty(),
    }
}

/// The lowered sequence, and whether every path through it ends in
/// `EXIT`.
pub open spec fn lx_seq(s: Seq<ExprV>, t: Seq<(Span, Target)>) -> (Seq<ExprV>, bool)
    decreases vbsize(s), 0int,
{
    if s.len() == 0 {
        (Seq::empty(), false)
    } else if exit_v(s[0], t) {
        (Seq::empty(), true)
    } else {
        let tail = s.subrange(1, s.len() as int);
        proof { lemma_vbsize_front(s); }
        match s[0] {
            ExprV::If { then_body, else_body, span } => {
                if !(buses_v(then_body, t) || (else_body matches Some(b) && buses_v(b, t))) {
                    let tl = lx_seq(then_body, t).0;
                    let el = match else_body { Some(b) => Some(lx_seq(b, t).0), None => None };
                    let (rest, term) = lx_seq(tail, t);
                    (seq![ExprV::If { then_body: tl, else_body: el, span }] + rest, term)
                } else {
                    proof {
                        lemma_vbsize_append(then_body, tail);
                        lemma_vbsize_append(or_empty(else_body), tail);
                    }
                    let (tl, tt) = lx_seq(then_body + tail, t);
                    let (el, et) = lx_seq(or_empty(else_body) + tail, t);
                    (seq![ExprV::If { then_body: tl, else_body: Some(el), span }], tt && et)
                }
            },
            ExprV::Case { arms, default, span } => {
                if !(auses_v(arms, t) || (default matches Some(d) && buses_v(d, t))) {
                    let al = lx_arms(arms, t);
                    let dl = match default { Some(d) => Some(lx_seq(d, t).0), None => None };
                    let (rest, term) = lx_seq(tail, t);
                    (seq![ExprV::Case { arms: al, default: dl, span }] + rest, term)
                } else {
                    proof { lemma_vbsize_append(or_empty(default), tail); }
                    let (al, at) = lx_arms_tail(arms, tail, t);
                    let ds = or_empty(default) + tail;
                    let (dl, dt) = if ds.len() == 0 { (Seq::<ExprV>::empty(), false) } else { lx_seq(ds, t) };
                    (seq![ExprV::Case { arms: al, default: if dl.len() == 0 { None } else { Some(dl) }, span }], at && dt)
                }
            },
            _ => {
                let (rest, term) = lx_seq(tail, t);
                (seq![s[0]] + rest, term)
            },
        }
    }
}

/// CASE arms with no `EXIT`: bodies lowered, match expressions kept.
pub open spec fn lx_arms(a: Seq<ArmV>, t: Seq<(Span, Target)>) -> Seq<ArmV>
    decreases vasize(a), 0int,
{
    if a.len() == 0 {
        Seq::empty()
    } else {
        proof { lemma_vasize_front(a); }
        seq![ArmV { match_expr: a[0].match_expr, body: lx_seq(a[0].body, t).0, span: a[0].span }]
            + lx_arms(a.subrange(1, a.len() as int), t)
    }
}

/// CASE arms with the tail after the CASE appended to each body before
/// lowering; and whether every lowered arm ends in `EXIT`.
pub open spec fn lx_arms_tail(a: Seq<ArmV>, tail: Seq<ExprV>, t: Seq<(Span, Target)>) -> (Seq<ArmV>, bool)
    decreases vasize(a) + vbsize(tail), 0int,
{
    if a.len() == 0 {
        (Seq::empty(), true)
    } else {
        proof {
            lemma_vasize_front(a);
            lemma_vbsize_append(a[0].body, tail);
        }
        let (bl, bt) = lx_seq(a[0].body + tail, t);
        let (rest, rt) = lx_arms_tail(a.subrange(1, a.len() as int), tail, t);
        (seq![ArmV { match_expr: a[0].match_expr, body: bl, span: a[0].span }] + rest, bt && rt)
    }
}

/// The EXIT tests agree on trees and their values.
proof fn lemma_uses_v(e: Expr, t: Seq<(Span, Target)>)
    ensures
        expr_uses_exit(e, t) == uses_v(ev(e), t),
        is_exit(e, t) == exit_v(ev(e), t),
    decreases e,
{
    match e {
        Expr::If { then_body, else_body, .. } => {
            lemma_buses_v(then_body@, t);
            match else_body {
                Some(b) => lemma_buses_v(b@, t),
                None => {},
            }
        },
        Expr::BeginUntil { body, .. } => lemma_buses_v(body@, t),
        Expr::BeginAgain { body, .. } => lemma_buses_v(body@, t),
        Expr::DoLoop { body, .. } => lemma_buses_v(body@, t),
        Expr::BeginWhileRepeat { pred, body, .. } => {
            lemma_buses_v(pred@, t);
            lemma_buses_v(body@, t);
        },
        Expr::Case { arms, default, .. } => {
            lemma_auses_v(arms@, t);
            match default {
                Some(d) => lemma_buses_v(d@, t),
                None => {},
            }
        },
        _ => {},
    }
}

proof fn lemma_buses_v(s: Seq<Expr>, t: Seq<(Span, Target)>)
    ensures
        block_uses_exit(s, t) == buses_v(evs(s), t),
    decreases s,
{
    if s.len() > 0 {
        lemma_buses_v(s.drop_last(), t);
        lemma_uses_v(s.last(), t);
        let v = evs(s);
        assert(v.drop_last() =~= evs(s.drop_last()));
        assert(v.last() == ev(s.last()));
    }
}

proof fn lemma_auses_v(a: Seq<CaseArm>, t: Seq<(Span, Target)>)
    ensures
        arms_use_exit(a, t) == auses_v(avs(a), t),
    decreases a,
{
    if a.len() > 0 {
        lemma_auses_v(a.drop_last(), t);
        lemma_buses_v(a.last().body@, t);
        let v = avs(a);
        assert(v.drop_last() =~= avs(a.drop_last()));
        assert(v.last().body == evs(a.last().body@));
    }
}

fn is_exit_word(e: &Expr, targets: &Targets) -> (r: bool)
    ensures
        r == is_exit(*e, targets.entries@),
{
    match e {
        Expr::WordRef { span, .. } => match targets.get(*span) {
            Some(Target::QualifiedBuiltin { vocab, factor_name }) =>
                text::str_eq(vocab, "continuations") && text::str_eq(factor_name, "return"),
            _ => false,
        },
        _ => false,
    }
}

fn expr_uses_exit_exec(e: &Expr, r: &Targets) -> (b: bool)
    ensures
        b == expr_uses_exit(*e, r.entries@),
    decreases e,
{
    if is_exit_word(e, r) {
        return true;
    }
    match e {
        Expr::If { then_body, else_body, .. } => {
            body_uses_exit(then_body, r) || match else_body {
                Some(b) => body_uses_exit(b, r),
                None => false,
            }
        },
        Expr::BeginUntil { body, .. } => body_uses_exit(body, r),
        Expr::BeginAgain { body, .. } => body_uses_exit(body, r),
        Expr::DoLoop { body, .. } => body_uses_exit(body, r),
        Expr::BeginWhileRepeat { pred, body, .. } => body_uses_exit(pred, r) || body_uses_exit(body, r),
        Expr::Case { arms, default, .. } => {
            arms_uses_exit(arms, r) || match default {
                Some(d) => body_uses_exit(d, r),
                None => false,
            }
        },
        _ => false,
    }
}

fn arms_uses_exit(arms: &Vec<CaseArm>, r: &Targets) -> (b: bool)
    ensures
        b == arms_use_exit(arms@, r.entries@),
    decreases arms,
{
    let mut i: usize = 0;
    let mut found = false;
    assert(arms@.take(0) =~= Seq::<CaseArm>::empty());
    while i < arms.len()
        invariant
            i <= arms@.len(),
            found == arms_use_exit(arms@.take(i as int), r.entries@),
        decreases arms@.len() - i,
    {
        let b = body_uses_exit(&arms[i].body, r);
        proof {
            let t = arms@.take(i + 1);
            assert(t.drop_last() =~= arms@.take(i as int));
            assert(t.last() == arms@[i as int]);
        }
        found = found || b;
        i = i + 1;
    }
    assert(arms@.take(i as int) =~= arms@);
    found
}

/// True when some reference in `body` is `EXIT` (see [`block_uses_exit`]).
pub fn body_uses_exit(body: &Vec<Expr>, r: &Targets) -> (b: bool)
    ensures
        b == block_uses_exit(body@, r.entries@),
    decreases body,
{
    let mut i: usize = 0;
    let mut found = false;
    assert(body@.take(0) =~= Seq::<Expr>::empty());
    while i < body.len()
        invariant
            i <= body@.len(),
            found == block_uses_exit(body@.take(i as int), r.entries@),
        decreases body@.len() - i,
    {
        let b = expr_uses_exit_exec(&body[i], r);
        proof {
            let t = body@.take(i + 1);
            assert(t.drop_last() =~= body@.take(i as int));
            assert(t.last() == body@[i as int]);
        }
        found = found || b;
        i = i + 1;
    }
    assert(body@.take(i as int) =~= body@);
    found
}

/// A copy of `seq[from..]`.
fn copy_tail(seq: &Vec<Expr>, from: usize) -> (r: Vec<Expr>)
    requires
        from <= seq@.len(),
    ensures
        bsize(r@) == bsize(seq@.skip(from as int)),
        evs(r@) == evs(seq@.skip(from as int)),
{
    let mut r: Vec<Expr> = Vec::new();
    let mut k = from;
    assert(seq@.subrange(from as int, from as int) =~= Seq::<Expr>::empty());
    while k < seq.len()
        invariant
            from <= k <= seq@.len(),
            bsize(r@) == bsize(seq@.subrange(from as int, k as int)),
            evs(r@) == evs(seq@.subrange(from as int, k as int)),
        decreases seq@.len() - k,
    {
        let ghost before = r@;
        r.push(copy_expr(&seq[k]));
        proof {
            assert(r@.drop_last() =~= before);
            let t = seq@.subrange(from as int, k + 1);
            assert(t.drop_last() =~= seq@.subrange(from as int, k as int));
            assert(t.last() == seq@[k as int]);
        }
        k = k + 1;
    }
    assert(seq@.subrange(from as int, k as int) =~= seq@.skip(from as int));
    r
}

proof fn lemma_asize_ge(s: Seq<CaseArm>, k: int)
    requires
        0 <= k < s.len(),
    ensures
        asize(s) >= bsize(s[k].body@),
    decreases s.len(),
{
    if k < s.len() - 1 {
        lemma_asize_ge(s.drop_last(), k);
    }
}

proof fn lemma_block_stray_push(s: Seq<Expr>, e: Expr, t: Seq<(Span, Target)>)
    requires
        !block_stray(s, t),
        !expr_stray(e, t),
    ensures
        !block_stray(s.push(e), t),
{
    assert(s.push(e).drop_last() =~= s);
}

proof fn lemma_arms_stray_push(s: Seq<CaseArm>, a: CaseArm, t: Seq<(Span, Target)>)
    requires
        !arms_stray(s, t),
        !block_stray(a.body@, t),
    ensures
        !arms_stray(s.push(a), t),
{
    assert(s.push(a).drop_last() =~= s);
}

/// The lowered plain IF / CASE (no `EXIT` beneath it): bodies lowered
/// in place, nothing inlined.
pub open spec fn lx_plain(e: ExprV, t: Seq<(Span, Target)>) -> ExprV {
    match e {
        ExprV::If { then_body, else_body, span } => ExprV::If {
            then_body: lx_seq(then_body, t).0,
            else_body: match else_body { Some(b) => Some(lx_seq(b, t).0), None => None },
            span,
        },
        ExprV::Case { arms, default, span } => ExprV::Case {
            arms: lx_arms(arms, t),
            default: match default { Some(d) => Some(lx_seq(d, t).0), None => None },
            span,
        },
        _ => e,
    }
}

/// The IF / CASE at the head of `s`, with the rest of `s` inlined into
/// its branches; and whether every branch ends in `EXIT`.
pub open spec fn lx_inline(s: Seq<ExprV>, t: Seq<(Span, Target)>) -> (ExprV, bool) {
    let tail = s.subrange(1, s.len() as int);
    match s[0] {
        ExprV::If { then_body, else_body, span } => {
            let (tl, tt) = lx_seq(then_body + tail, t);
            let (el, et) = lx_seq(or_empty(else_body) + tail, t);
            (ExprV::If { then_body: tl, else_body: Some(el), span }, tt && et)
        },
        ExprV::Case { arms, default, span } => {
            let (al, at) = lx_arms_tail(arms, tail, t);
            let ds = or_empty(default) + tail;
            let (dl, dt) = if ds.len() == 0 { (Seq::<ExprV>::empty(), false) } else { lx_seq(ds, t) };
            (ExprV::Case { arms: al, default: if dl.len() == 0 { None } else { Some(dl) }, span }, at && dt)
        },
        _ => (s[0], false),
    }
}

/// Whether an IF / CASE holds `EXIT` beneath it (see [`uses_v`], which
/// also counts the node itself).
pub open spec fn branch_exit(e: ExprV, t: Seq<(Span, Target)>) -> bool {
    match e {
        ExprV::If { then_body, else_body, .. } => buses_v(then_body, t) || (else_body matches Some(b) && buses_v(b, t)),
        ExprV::Case { arms, default, .. } => auses_v(arms, t) || (default matches Some(d) && buses_v(d, t)),
        _ => false,
    }
}

/// One step of [`lx_seq`]: the head is not `EXIT`.
proof fn lemma_lx_step(s: Seq<ExprV>, t: Seq<(Span, Target)>)
    requires
        s.len() > 0,
        !exit_v(s[0], t),
    ensures
        (s[0] is If || s[0] is Case) && branch_exit(s[0], t) ==> lx_seq(s, t) == ({
            let (x, term) = lx_inline(s, t);
            (seq![x], term)
        }),
        (s[0] is If || s[0] is Case) && !branch_exit(s[0], t) ==> lx_seq(s, t) == ({
            let (rest, term) = lx_seq(s.subrange(1, s.len() as int), t);
            (seq![lx_plain(s[0], t)] + rest, term)
        }),
        !(s[0] is If || s[0] is Case) ==> lx_seq(s, t) == ({
            let (rest, term) = lx_seq(s.subrange(1, s.len() as int), t);
            (seq![s[0]] + rest, term)
        }),
{
}

/// Lower a plain IF / CASE whose branches hold no `EXIT`.
fn lower_plain(e: &Expr, r: &Targets, Ghost(outer): Ghost<Seq<Expr>>) -> (x: Expr)
    requires
        e is If || e is Case,
        esize(*e) <= bsize(outer),
    ensures
        ev(x) == lx_plain(ev(*e), r.entries@),
        !expr_stray(x, r.entries@),
    decreases bsize(outer), 0int,
{
    let ghost t = r.entries@;
    match e {
        Expr::If { then_body, else_body, span } => {
            let (then_l, _) = lower_seq(then_body, r);
            let else_l = match else_body {
                Some(b) => Some(lower_seq(b, r).0),
                None => None,
            };
            Expr::If { then_body: then_l, else_body: else_l, span: *span }
        },
        Expr::Case { arms, default, span } => {
            let ghost av = avs(arms@);
            proof { lemma_avs(arms@); }
            let mut new_arms: Vec<CaseArm> = Vec::new();
            let mut k: usize = 0;
            assert(av.subrange(0, av.len() as int) =~= av);
            assert(avs(new_arms@) + lx_arms(av.subrange(0, av.len() as int), t) =~= lx_arms(av, t));
            while k < arms.len()
                invariant
                    k <= arms@.len(),
                    t == r.entries@,
                    av == avs(arms@),
                    av.len() == arms@.len(),
                    forall|j: int| 0 <= j < arms@.len() ==> #[trigger] av[j]
                        == (ArmV { match_expr: evs(arms@[j].match_expr@), body: evs(arms@[j].body@), span: arms@[j].span }),
                    !arms_stray(new_arms@, t),
                    lx_arms(av, t) == avs(new_arms@) + lx_arms(av.subrange(k as int, av.len() as int), t),
                    esize(*e) <= bsize(outer),
                    *e == (Expr::Case { arms: *arms, default: *default, span: *span }),
                decreases arms@.len() - k,
            {
                proof { lemma_asize_ge(arms@, k as int); }
                let a = &arms[k];
                let body_l = lower_seq(&a.body, r).0;
                let m = copy_exprs(&a.match_expr);
                let arm = CaseArm { match_expr: m, body: body_l, span: a.span };
                let ghost before = new_arms@;
                new_arms.push(arm);
                proof {
                    lemma_arms_stray_push(before, new_arms@.last(), t);
                    let ak = av.subrange(k as int, av.len() as int);
                    assert(ak[0] == av[k as int]);
                    assert(ak.subrange(1, ak.len() as int) =~= av.subrange(k + 1, av.len() as int));
                    lemma_avs(new_arms@);
                    lemma_avs(before);
                    let armv = ArmV { match_expr: evs(m@), body: evs(body_l@), span: a.span };
                    assert(avs(new_arms@) =~= avs(before) + seq![armv]);
                    assert(lx_arms(ak, t) =~= seq![armv] + lx_arms(ak.subrange(1, ak.len() as int), t));
                    assert(avs(before) + lx_arms(ak, t) =~= avs(new_arms@) + lx_arms(av.subrange(k + 1, av.len() as int), t));
                }
                k = k + 1;
            }
            proof {
                assert(av.subrange(k as int, av.len() as int) =~= Seq::<ArmV>::empty());
                assert(avs(new_arms@) + Seq::<ArmV>::empty() =~= avs(new_arms@));
            }
            let new_default = match default {
                Some(d) => Some(lower_seq(d, r).0),
                None => None,
            };
            Expr::Case { arms: new_arms, default: new_default, span: *span }
        },
        _ => copy_expr(e),
    }
}

/// Lower the IF at `seq[i]` with the rest of `seq` inlined into both
/// branches.
fn lower_if_inline(seq: &Vec<Expr>, i: usize, r: &Targets) -> (res: (Expr, bool))
    requires
        i < seq@.len(),
        seq@[i as int] is If,
    ensures
        (ev(res.0), res.1) == lx_inline(evs(seq@).subrange(i as int, seq@.len() as int), r.entries@),
        !expr_stray(res.0, r.entries@),
    decreases bsize(seq@), 0int,
{
    let n_seq = seq.len();
    assert(i < n_seq);
    let ghost t = r.entries@;
    let ghost sv = evs(seq@);
    proof {
        lemma_bsize_split(seq@, i as int);
        lemma_evs(seq@);
        lemma_evs_skip(seq@, i + 1);
        let si = sv.subrange(i as int, sv.len() as int);
        assert(si.subrange(1, si.len() as int) =~= sv.skip(i + 1));
        assert(si[0] == ev(seq@[i as int]));
    }
    match &seq[i] {
        Expr::If { then_body, else_body, span } => {
            let mut then_seq = copy_exprs(then_body);
            let mut tail1 = copy_tail(seq, i + 1);
            let ghost (a1, b1) = (then_seq@, tail1@);
            then_seq.append(&mut tail1);
            proof {
                lemma_bsize_append(a1, b1);
                lemma_evs_add(a1, b1);
            }
            let (then_l, then_term) = lower_seq(&then_seq, r);
            let mut else_seq = match else_body {
                Some(b) => copy_exprs(b),
                None => Vec::new(),
            };
            let mut tail2 = copy_tail(seq, i + 1);
            let ghost (a2, b2) = (else_seq@, tail2@);
            proof {
                if else_body is None {
                    assert(bsize(a2) == 0);
                    assert(evs(a2) =~= Seq::<ExprV>::empty());
                }
            }
            else_seq.append(&mut tail2);
            proof {
                lemma_bsize_append(a2, b2);
                lemma_evs_add(a2, b2);
            }
            let (else_l, else_term) = lower_seq(&else_seq, r);
            (Expr::If { then_body: then_l, else_body: Some(else_l), span: *span }, then_term && else_term)
        },
        _ => (copy_expr(&seq[i]), false),
    }
}

/// Lower the CASE at `seq[i]` with the rest of `seq` inlined into every
/// arm and the default.
#[verifier::spinoff_prover]
#[verifier::rlimit(50)]
fn lower_case_inline(seq: &Vec<Expr>, i: usize, r: &Targets) -> (res: (Expr, bool))
    requires
        i < seq@.len(),
        seq@[i as int] is Case,
    ensures
        (ev(res.0), res.1) == lx_inline(evs(seq@).subrange(i as int, seq@.len() as int), r.entries@),
        !expr_stray(res.0, r.entries@),
    decreases bsize(seq@), 0int,
{
    let n_seq = seq.len();
    assert(i < n_seq);
    let ghost t = r.entries@;
    let ghost sv = evs(seq@);
    let ghost tail_v = sv.skip(i + 1);
    proof {
        lemma_bsize_split(seq@, i as int);
        lemma_evs(seq@);
        lemma_evs_skip(seq@, i + 1);
        let si = sv.subrange(i as int, sv.len() as int);
        assert(si.subrange(1, si.len() as int) =~= tail_v);
        assert(si[0] == ev(seq@[i as int]));
    }
    match &seq[i] {
        Expr::Case { arms, default, span } => {
            let ghost av = avs(arms@);
            proof { lemma_avs(arms@); }
            let mut new_arms: Vec<CaseArm> = Vec::new();
            let mut all_terminate = true;
            let mut k: usize = 0;
            assert(av.subrange(0, av.len() as int) =~= av);
            assert(avs(new_arms@) + lx_arms_tail(av.subrange(0, av.len() as int), tail_v, t).0
                =~= lx_arms_tail(av, tail_v, t).0);
            while k < arms.len()
                invariant
                    k <= arms@.len(),
                    i < seq@.len(),
                    n_seq == seq@.len(),
                    t == r.entries@,
                    av == avs(arms@),
                    av.len() == arms@.len(),
                    tail_v == evs(seq@.skip(i + 1)),
                    forall|j: int| 0 <= j < arms@.len() ==> #[trigger] av[j]
                        == (ArmV { match_expr: evs(arms@[j].match_expr@), body: evs(arms@[j].body@), span: arms@[j].span }),
                    !arms_stray(new_arms@, t),
                    lx_arms_tail(av, tail_v, t).0
                        == avs(new_arms@) + lx_arms_tail(av.subrange(k as int, av.len() as int), tail_v, t).0,
                    lx_arms_tail(av, tail_v, t).1
                        == (all_terminate && lx_arms_tail(av.subrange(k as int, av.len() as int), tail_v, t).1),
                    seq@[i as int] == (Expr::Case { arms: *arms, default: *default, span: *span }),
                    bsize(seq@) == bsize(seq@.take(i as int)) + esize(seq@[i as int]) + bsize(seq@.skip(i + 1)),
                decreases arms@.len() - k,
            {
                proof { lemma_asize_ge(arms@, k as int); }
                let a = &arms[k];
                let mut arm_seq = copy_exprs(&a.body);
                let mut tail = copy_tail(seq, i + 1);
                let ghost (x, y) = (arm_seq@, tail@);
                arm_seq.append(&mut tail);
                proof {
                    lemma_bsize_append(x, y);
                    lemma_evs_add(x, y);
                }
                let (arm_l, arm_term) = lower_seq(&arm_seq, r);
                let ghost all_before = all_terminate;
                if !arm_term {
                    all_terminate = false;
                }
                let m = copy_exprs(&a.match_expr);
                let arm = CaseArm { match_expr: m, body: arm_l, span: a.span };
                let ghost before = new_arms@;
                new_arms.push(arm);
                proof {
                    lemma_arms_stray_push(before, new_arms@.last(), t);
                    let ak = av.subrange(k as int, av.len() as int);
                    assert(ak[0] == av[k as int]);
                    assert(ak.subrange(1, ak.len() as int) =~= av.subrange(k + 1, av.len() as int));
                    lemma_avs(new_arms@);
                    lemma_avs(before);
                    let armv = ArmV { match_expr: evs(m@), body: evs(arm_l@), span: a.span };
                    assert(avs(new_arms@) =~= avs(before) + seq![armv]);
                    assert(lx_arms_tail(ak, tail_v, t).0 =~= seq![armv] + lx_arms_tail(ak.subrange(1, ak.len() as int), tail_v, t).0);
                    assert(avs(before) + lx_arms_tail(ak, tail_v, t).0
                        =~= avs(new_arms@) + lx_arms_tail(av.subrange(k + 1, av.len() as int), tail_v, t).0);
                }
                k = k + 1;
            }
            proof {
                assert(av.subrange(k as int, av.len() as int) =~= Seq::<ArmV>::empty());
                assert(avs(new_arms@) + Seq::<ArmV>::empty() =~= avs(new_arms@));
            }
            let mut default_seq = match default {
                Some(d) => copy_exprs(d),
                None => Vec::new(),
            };
            let mut tail = copy_tail(seq, i + 1);
            let ghost (x, y) = (default_seq@, tail@);
            proof {
                if default is None {
                    assert(bsize(x) == 0);
                    assert(evs(x) =~= Seq::<ExprV>::empty());
                }
            }
            default_seq.append(&mut tail);
            proof {
                lemma_bsize_append(x, y);
                lemma_evs_add(x, y);
                lemma_evs(default_seq@);
            }
            let (default_l, default_term) = if default_seq.len() == 0 {
                (Vec::new(), false)
            } else {
                lower_seq(&default_seq, r)
            };
            proof {
                lemma_evs(default_l@);
            }
            if !default_term {
                all_terminate = false;
            }
            let new_default = if default_l.len() == 0 { None } else { Some(default_l) };
            (Expr::Case { arms: new_arms, default: new_default, span: *span }, all_terminate)
        },
        _ => (copy_expr(&seq[i]), false),
    }
}

/// Lower a sequence: the rewritten sequence, and whether every path
/// through it ends in `EXIT`.
fn lower_seq(seq: &Vec<Expr>, r: &Targets) -> (res: (Vec<Expr>, bool))
    ensures
        !block_stray(res.0@, r.entries@),
        (evs(res.0@), res.1) == lx_seq(evs(seq@), r.entries@),
    decreases bsize(seq@), 1int,
{
    let ghost t = r.entries@;
    let ghost sv = evs(seq@);
    proof { lemma_evs(seq@); }
    let n = seq.len();
    let mut out: Vec<Expr> = Vec::new();
    let mut i: usize = 0;
    assert(sv.subrange(0, sv.len() as int) =~= sv);
    assert(evs(out@) + lx_seq(sv.subrange(0, sv.len() as int), t).0 =~= lx_seq(sv, t).0);
    while i < n
        invariant
            n == seq@.len(),
            i <= seq@.len(),
            t == r.entries@,
            sv == evs(seq@),
            sv.len() == seq@.len(),
            forall|k: int| 0 <= k < seq@.len() ==> #[trigger] sv[k] == ev(seq@[k]),
            !block_stray(out@, t),
            lx_seq(sv, t).0 == evs(out@) + lx_seq(sv.subrange(i as int, sv.len() as int), t).0,
            lx_seq(sv, t).1 == lx_seq(sv.subrange(i as int, sv.len() as int), t).1,
        decreases seq@.len() - i,
    {
        let e = &seq[i];
        let ghost si = sv.subrange(i as int, sv.len() as int);
        let ghost ob = out@;
        proof {
            lemma_bsize_split(seq@, i as int);
            assert(si[0] == ev(*e));
            lemma_uses_v(*e, t);
            assert(si.subrange(1, si.len() as int) =~= sv.subrange(i + 1, sv.len() as int));
        }
        if is_exit_word(e, r) {
            proof {
                assert(lx_seq(si, t) == (Seq::<ExprV>::empty(), true));
                assert(evs(out@) + Seq::<ExprV>::empty() =~= evs(out@));
            }
            return (out, true);
        }
        proof { lemma_lx_step(si, t); }
        let plain_or_inline = match e {
            Expr::If { then_body, else_body, .. } => {
                proof {
                    lemma_buses_v(then_body@, t);
                    match else_body {
                        Some(b) => lemma_buses_v(b@, t),
                        None => {},
                    }
                }
                let any_exit = body_uses_exit(then_body, r) || match else_body {
                    Some(b) => body_uses_exit(b, r),
                    None => false,
                };
                if any_exit { 2u8 } else { 1u8 }
            },
            Expr::Case { arms, default, .. } => {
                proof {
                    lemma_auses_v(arms@, t);
                    match default {
                        Some(d) => lemma_buses_v(d@, t),
                        None => {},
                    }
                }
                let any_exit = arms_uses_exit(arms, r) || match default {
                    Some(d) => body_uses_exit(d, r),
                    None => false,
                };
                if any_exit { 2u8 } else { 1u8 }
            },
            _ => 0u8,
        };
        if plain_or_inline == 2 {
            let is_if = match e {
                Expr::If { .. } => true,
                _ => false,
            };
            let (x, term) = if is_if { lower_if_inline(seq, i, r) } else { lower_case_inline(seq, i, r) };
            out.push(x);
            proof {
                lemma_block_stray_push(ob, x, t);
                lemma_evs(out@);
                lemma_evs(ob);
                assert(evs(out@) =~= evs(ob) + seq![ev(x)]);
            }
            return (out, term);
        }
        let x = if plain_or_inline == 1 { lower_plain(e, r, Ghost(seq@)) } else { copy_expr(e) };
        out.push(x);
        proof {
            lemma_block_stray_push(ob, x, t);
            lemma_evs(out@);
            lemma_evs(ob);
            assert(evs(out@) =~= evs(ob) + seq![ev(x)]);
            let rest = lx_seq(sv.subrange(i + 1, sv.len() as int), t);
            assert(lx_seq(si, t).0 =~= seq![ev(x)] + rest.0);
            assert(evs(ob) + lx_seq(si, t).0 =~= evs(out@) + rest.0);
        }
        i = i + 1;
    }
    proof {
        assert(sv.subrange(i as int, sv.len() as int) =~= Seq::<ExprV>::empty());
        assert(evs(out@) + Seq::<ExprV>::empty() =~= evs(out@));
    }
    (out, false)
}

/// Lower a definition body.  Afterwards no `EXIT` remains outside loop
/// bodies; code that would run after an `EXIT` is gone from that path.
pub fn lower_body(body: &Vec<Expr>, word_targets: &Targets) -> (r: Vec<Expr>)
    ensures
        !block_stray(r@, word_targets.entries@),
        evs(r@) == lx_seq(evs(body@), word_targets.entries@).0,
{
    lower_seq(body, word_targets).0
}

} // verus!
