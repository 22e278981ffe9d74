//! The semantic model of a whole program.
//!
//! `build_with_prior_state` runs, in order: template expansion,
//! `?DUP IF` desugaring, `RECURSE` binding, class slot flattening,
//! resolve, `EXIT` lowering, stack-effect inference, the call graph and
//! escape analysis.  Later stages (emit, dumps, the session driver) read
//! the tables it fills.
use vstd::prelude::*;
use crate::text;
use super::ast::{
    ArmV, LitV, CaseArm, ClassDef, CollectionDef, CollectionKind, ConstFlavour, StackEffect, ConstValue, ConstantDef, CreateDef, Expr, ExprV, Item, Literal, Program, TemplateDef,
    TemplateInstanceDef, ValueDef, VariableDef, WordDoc, copy_expr, copy_exprs, expr_span, ev, evs, avs, oevs,
    lemma_evs, lemma_avs,
};
use super::effect::{Effect, EffectError, infer_with_prior};
use super::error::{Pos, Span};
use super::lower_classes::{compute_class_slots, names_view};
use super::names::NameMap;
use super::resolve::{ResolveError, Targets, resolve_with_prior_and_values_and_classes};
use super::lower_exit::{block_stray, lx_seq};
use super::lower_qdup::{qd_item, qd_count, SYNTH_BASE};
use super::lower_recurse::{rc_item, missing_effects};
use super::lower_classes::{class_fold, slot_table_view};
use super::resolve::{resolve_result, targets_view, ResolveErrorV, Target};
use super::effect::{walk, seeded, errors_view};

verus! {

// ─── Types ─────────────────────────────────────────────────────────────────

/// Escape state of a variable's address.
#[derive(Clone, Debug, PartialEq)]
pub enum EscapeState {
    /// Every use is `@`, `!`, `+!`, `c@` or `c!`: emit may use a plain
    /// Factor global.
    Narrow,
    /// Some use lets the address flow elsewhere.
    Wide { reason: EscapeReason, at: Span },
    /// Not analysed.
    Unknown,
}

/// Why a variable was marked wide.
#[derive(Clone, Copy, Debug, PartialEq, Eq, Structural)]
pub enum EscapeReason {
    Duplicated,
    PassedToUnknownWord,
    AddressArithmetic,
    UnknownSink,
    PrintedAsValue,
    /// Forced by the interactive driver: later compiles may use it.
    InteractiveSession,
}

/// What is known of each user-defined name.
#[derive(Clone, Debug)]
pub struct UserWord {
    pub name: String,
    /// Span of the name token of the definition.
    pub def_span: Span,
    /// Declared `( a -- b )` counts, when known.
    pub declared_inputs: Option<u32>,
    pub declared_outputs: Option<u32>,
}

/// Names with the spans of their references, in program order.
#[derive(Debug)]
pub struct UseSites {
    pub entries: Vec<(String, Vec<Span>)>,
}

/// The semantic database.
#[derive(Debug)]
pub struct Sema {
    pub program: Program,
    pub word_targets: Targets,
    pub user_words: NameMap<UserWord>,
    pub variables: NameMap<VariableDef>,
    pub constants: NameMap<ConstantDef>,
    pub creates: NameMap<CreateDef>,
    pub collections: NameMap<CollectionDef>,
    pub templates: NameMap<TemplateDef>,
    pub values: NameMap<ValueDef>,
    /// Class name → flattened slot list, parent slots first.
    pub class_slots: NameMap<Vec<String>>,
    /// Callers' view of each word's effect.
    pub user_effects: NameMap<Effect>,
    /// The effect of each definition's body.
    pub body_effects: NameMap<Effect>,
    pub effect_errors: Vec<EffectError>,
    /// Caller → callee names (each once, in first-call order).
    pub call_graph: CallGraph,
    /// Name → spans of its references.
    pub use_sites: UseSites,
    pub escape: NameMap<EscapeState>,
    /// Introspection records for `SEE`.
    pub docs: NameMap<WordDoc>,
}

// ─── Escape analysis ───────────────────────────────────────────────────────

/// The words after which a variable's address is consumed in place.
pub open spec fn is_sink(lc: Seq<char>) -> bool {
    lc == "@"@ || lc == "!"@ || lc == "+!"@ || lc == "c@"@ || lc == "c!"@
}

/// A word reference to a sink word.
pub open spec fn is_sink_expr(e: Expr) -> bool {
    e matches Expr::WordRef { name, .. } && is_sink(text::ascii_lower(name@))
}

/// The reference at `k` is to variable `v` and is not immediately
/// followed, in the same sequence, by a sink word.
pub open spec fn escapes_at(s: Seq<Expr>, k: int, v: Seq<char>) -> bool {
    &&& 0 <= k < s.len()
    &&& s[k] matches Expr::WordRef { name, .. } && text::ascii_lower(name@) == v
    &&& !(k + 1 < s.len() && is_sink_expr(s[k + 1]))
}

/// Some reference to `v` among the first `i` expressions of `s`
/// escapes.
pub open spec fn escapes_before(s: Seq<Expr>, i: int, v: Seq<char>) -> bool {
    exists|k: int| 0 <= k < i && escapes_at(s, k, v)
}

/// Some reference to `v` in `s`, or in a body nested in it, escapes.
pub open spec fn block_escapes(s: Seq<Expr>, v: Seq<char>) -> bool
    decreases s, 1int,
{
    escapes_before(s, s.len() as int, v) || nested_escapes(s, v)
}

pub open spec fn nested_escapes(s: Seq<Expr>, v: Seq<char>) -> bool
    decreases s, 0int,
{
    if s.len() == 0 { false } else { nested_escapes(s.drop_last(), v) || expr_escapes(s.last(), v) }
}

pub open spec fn expr_escapes(e: Expr, v: Seq<char>) -> bool
    decreases e, 0int,
{
    match e {
        Expr::If { then_body, else_body, .. } =>
            block_escapes(then_body@, v) || (else_body matches Some(b) && block_escapes(b@, v)),
        Expr::BeginUntil { body, .. } => block_escapes(body@, v),
        Expr::BeginAgain { body, .. } => block_escapes(body@, v),
        Expr::DoLoop { body, .. } => block_escapes(body@, v),
        Expr::BeginWhileRepeat { pred, body, .. } => block_escapes(pred@, v) || block_escapes(body@, v),
        Expr::Case { arms, default, .. } => arms_escape(arms@, v) || (default matches Some(d) && block_escapes(d@, v)),
        _ => false,
    }
}

pub open spec fn arms_escape(s: Seq<CaseArm>, v: Seq<char>) -> bool
    decreases s, 0int,
{
    if s.len() == 0 {
        false
    } else {
        arms_escape(s.drop_last(), v) || block_escapes(s.last().match_expr@, v) || block_escapes(s.last().body@, v)
    }
}

/// Some reference to `v` in one item's bodies escapes.
pub open spec fn item_escapes(it: Item, v: Seq<char>) -> bool {
    match it {
        Item::Definition(d) => block_escapes(d.body@, v),
        Item::TopLevel { exprs, .. } => block_escapes(exprs@, v),
        Item::Constant(c) => match c.value {
            ConstValue::Computed(ex) => block_escapes(ex@, v),
            _ => false,
        },
        Item::Value(val) => block_escapes(val.initial@, v),
        Item::Template(t) => block_escapes(t.constructor@, v) || block_escapes(t.does_body@, v),
        Item::TemplateInstance(t) => block_escapes(t.does_body@, v),
        Item::Method(m) => block_escapes(m.body@, v),
        _ => false,
    }
}

pub open spec fn items_escape(items: Seq<Item>, v: Seq<char>) -> bool {
    exists|k: int| 0 <= k < items.len() && item_escapes(#[trigger] items[k], v)
}

/// The lower-cased names of the program's variables.
pub open spec fn var_names_of(items: Seq<Item>) -> Set<Seq<char>> {
    Set::new(|v: Seq<char>| exists|k: int| 0 <= k < items.len() && (#[trigger] items[k] matches Item::Variable(var)
        && text::ascii_lower(var.name@) == v))
}

/// `st` after an escape at `first` (if any): a variable already wide
/// stays as it is; otherwise it becomes wide at that site.
pub open spec fn mark(st: EscapeState, first: Option<Span>) -> EscapeState {
    if st is Wide {
        st
    } else {
        match first {
            Some(at) => EscapeState::Wide { reason: EscapeReason::UnknownSink, at },
            None => st,
        }
    }
}

/// The first of two optional sites.
pub open spec fn or_site(a: Option<Span>, b: Option<Span>) -> Option<Span> {
    if a is Some { a } else { b }
}

/// The first escaping reference to `v` among the first `i` expressions
/// of `s` (not looking inside nested bodies).
pub open spec fn level_first(s: Seq<Expr>, i: int, v: Seq<char>) -> Option<Span>
    decreases i,
{
    if i <= 0 {
        None
    } else {
        or_site(level_first(s, i - 1, v), if escapes_at(s, i - 1, v) { Some(expr_span(s[i - 1])) } else { None })
    }
}

/// The site where the walk first finds `v` escaping in a body: the
/// bodies nested in it are walked first, then its own references.
pub open spec fn block_first(s: Seq<Expr>, v: Seq<char>) -> Option<Span>
    decreases s, 1int,
{
    or_site(nested_first(s, v), level_first(s, s.len() as int, v))
}

pub open spec fn nested_first(s: Seq<Expr>, v: Seq<char>) -> Option<Span>
    decreases s, 0int,
{
    if s.len() == 0 { None } else { or_site(nested_first(s.drop_last(), v), expr_first(s.last(), v)) }
}

pub open spec fn expr_first(e: Expr, v: Seq<char>) -> Option<Span>
    decreases e, 0int,
{
    match e {
        Expr::If { then_body, else_body, .. } => or_site(
            block_first(then_body@, v),
            match else_body { Some(b) => block_first(b@, v), None => None },
        ),
        Expr::BeginUntil { body, .. } => block_first(body@, v),
        Expr::BeginAgain { body, .. } => block_first(body@, v),
        Expr::DoLoop { body, .. } => block_first(body@, v),
        Expr::BeginWhileRepeat { pred, body, .. } => or_site(block_first(pred@, v), block_first(body@, v)),
        Expr::Case { arms, default, .. } => or_site(
            arms_first(arms@, v),
            match default { Some(d) => block_first(d@, v), None => None },
        ),
        _ => None,
    }
}

pub open spec fn arms_first(s: Seq<CaseArm>, v: Seq<char>) -> Option<Span>
    decreases s, 0int,
{
    if s.len() == 0 {
        None
    } else {
        or_site(arms_first(s.drop_last(), v), or_site(block_first(s.last().match_expr@, v), block_first(s.last().body@, v)))
    }
}

/// The first escaping site of `v` in one item's bodies.
pub open spec fn item_first(it: Item, v: Seq<char>) -> Option<Span> {
    match it {
        Item::Definition(d) => block_first(d.body@, v),
        Item::TopLevel { exprs, .. } => block_first(exprs@, v),
        Item::Constant(c) => match c.value {
            ConstValue::Computed(ex) => block_first(ex@, v),
            _ => None,
        },
        Item::Value(val) => block_first(val.initial@, v),
        Item::Template(t) => or_site(block_first(t.constructor@, v), block_first(t.does_body@, v)),
        Item::TemplateInstance(t) => block_first(t.does_body@, v),
        Item::Method(m) => block_first(m.body@, v),
        _ => None,
    }
}

/// The first escaping site of `v` in the program, items in order.
pub open spec fn items_first(items: Seq<Item>, v: Seq<char>) -> Option<Span>
    decreases items.len(),
{
    if items.len() == 0 { None } else { or_site(items_first(items.drop_last(), v), item_first(items.last(), v)) }
}

/// The escape table is exactly right for `vars`: each is `Narrow` when
/// none of its references escapes, else `Wide` for an unknown sink at
/// the first escaping reference the walk meets.
pub open spec fn escape_sound(esc: Map<Seq<char>, EscapeState>, vars: Set<Seq<char>>, items: Seq<Item>) -> bool {
    &&& esc.dom() == vars
    &&& forall|v: Seq<char>| vars.contains(v) ==> (#[trigger] esc[v] is Narrow <==> !items_escape(items, v))
    &&& forall|v: Seq<char>| vars.contains(v) ==> (esc[v] is Narrow || esc[v] is Wide)
    &&& forall|v: Seq<char>| vars.contains(v) ==> #[trigger] esc[v] == mark(EscapeState::Narrow, items_first(items, v))
}

fn is_sink_word(e: &Expr) -> (r: bool)
    ensures
        r == is_sink_expr(*e),
{
    match e {
        Expr::WordRef { name, .. } => {
            let lc = text::to_lower(name.as_str());
            let l = lc.as_str();
            text::str_eq(l, "@") || text::str_eq(l, "!") || text::str_eq(l, "+!") || text::str_eq(l, "c@")
                || text::str_eq(l, "c!")
        },
        _ => false,
    }
}

fn mark_wide(esc: &mut NameMap<EscapeState>, lc: String, at: Span)
    requires
        old(esc)@.contains_key(lc@),
    ensures
        final(esc)@.dom() == old(esc)@.dom(),
        final(esc)@[lc@] is Wide,
        forall|v: Seq<char>| v != lc@ ==> final(esc)@.contains_key(v) == old(esc)@.contains_key(v)
            && (old(esc)@.contains_key(v) ==> final(esc)@[v] == old(esc)@[v]),
        old(esc)@[lc@] is Wide ==> final(esc)@ == old(esc)@,
        final(esc)@[lc@] == mark(old(esc)@[lc@], Some(at)),
{
    let already = match esc.get(lc.as_str()) {
        Some(EscapeState::Wide { .. }) => true,
        _ => false,
    };
    if !already {
        esc.insert(lc, EscapeState::Wide { reason: EscapeReason::UnknownSink, at });
        assert(final(esc)@.dom() =~= old(esc)@.dom());
    }
}

/// Escape walk over one sequence (see [`block_escapes`]).
fn walk_block_for_escape(exprs: &Vec<Expr>, vars: &Vec<String>, esc: &mut NameMap<EscapeState>)
    requires
        forall|v: Seq<char>| names_view(vars@).contains(v) ==> old(esc)@.contains_key(v),
    ensures
        forall|v: Seq<char>| #![trigger final(esc)@[v]] names_view(vars@).contains(v) ==>
            final(esc)@[v] == mark(old(esc)@[v], block_first(exprs@, v)),
        final(esc)@.dom() == old(esc)@.dom(),
        forall|v: Seq<char>| #![trigger final(esc)@[v]] names_view(vars@).contains(v) ==>
            (final(esc)@[v] is Wide <==> (old(esc)@[v] is Wide || block_escapes(exprs@, v))),
        forall|v: Seq<char>| #![trigger final(esc)@[v]] names_view(vars@).contains(v) && !(old(esc)@[v] is Wide)
            && !block_escapes(exprs@, v) ==> final(esc)@[v] == old(esc)@[v],
        forall|v: Seq<char>| #![trigger final(esc)@[v]] !names_view(vars@).contains(v) && old(esc)@.contains_key(v)
            ==> final(esc)@[v] == old(esc)@[v],
    decreases exprs, 1int,
{
    walk_nested(exprs, vars, esc);
    let ghost mid = esc@;
    let n = exprs.len();
    let mut i: usize = 0;
    while i < n
        invariant
            n == exprs@.len(),
            i <= n,
            esc@.dom() == mid.dom(),
            forall|v: Seq<char>| names_view(vars@).contains(v) ==> mid.contains_key(v),
            forall|v: Seq<char>| #![trigger esc@[v]] names_view(vars@).contains(v) ==>
                (esc@[v] is Wide <==> (mid[v] is Wide || escapes_before(exprs@, i as int, v))),
            forall|v: Seq<char>| #![trigger esc@[v]] names_view(vars@).contains(v) && !(mid[v] is Wide)
                && !escapes_before(exprs@, i as int, v) ==> esc@[v] == mid[v],
            forall|v: Seq<char>| #![trigger esc@[v]] !names_view(vars@).contains(v) && mid.contains_key(v)
                ==> esc@[v] == mid[v],
            forall|v: Seq<char>| #![trigger esc@[v]] names_view(vars@).contains(v) ==>
                esc@[v] == mark(mid[v], level_first(exprs@, i as int, v)),
        decreases n - i,
    {
        match &exprs[i] {
            Expr::WordRef { name, span } => {
                let lc = text::to_lower(name.as_str());
                let is_var = super::resolve::is_local_name(vars, lc.as_str());
                let followed = i + 1 < n && is_sink_word(&exprs[i + 1]);
                if is_var && !followed {
                    let ghost before = esc@;
                    mark_wide(esc, lc, *span);
                    proof {
                        assert(escapes_at(exprs@, i as int, text::ascii_lower(name@)));
                    }
                } else {
                    proof {
                        assert forall|v: Seq<char>| names_view(vars@).contains(v) implies !escapes_at(exprs@, i as int, v) by {
                            if escapes_at(exprs@, i as int, v) {
                                assert(v == lc@);
                            }
                        }
                    }
                }
            },
            _ => {
                assert(forall|v: Seq<char>| !escapes_at(exprs@, i as int, v));
            },
        }
        proof {
            assert forall|v: Seq<char>| names_view(vars@).contains(v) implies
                #[trigger] esc@[v] == mark(mid[v], level_first(exprs@, i + 1, v)) by {
                assert(level_first(exprs@, i + 1, v) == or_site(level_first(exprs@, i as int, v),
                    if escapes_at(exprs@, i as int, v) { Some(expr_span(exprs@[i as int])) } else { None }));
            }
            assert forall|v: Seq<char>| #[trigger] escapes_before(exprs@, i + 1, v) <==>
                (escapes_before(exprs@, i as int, v) || escapes_at(exprs@, i as int, v)) by {
                if escapes_before(exprs@, i + 1, v) {
                    let k = choose|k: int| 0 <= k < i + 1 && escapes_at(exprs@, k, v);
                    if k < i {
                        assert(escapes_before(exprs@, i as int, v));
                    }
                }
            }
        }
        i = i + 1;
    }
}

/// The nested part of the walk: every body inside each expression.
fn walk_nested(exprs: &Vec<Expr>, vars: &Vec<String>, esc: &mut NameMap<EscapeState>)
    requires
        forall|v: Seq<char>| names_view(vars@).contains(v) ==> old(esc)@.contains_key(v),
    ensures
        forall|v: Seq<char>| #![trigger final(esc)@[v]] names_view(vars@).contains(v) ==>
            final(esc)@[v] == mark(old(esc)@[v], nested_first(exprs@, v)),
        final(esc)@.dom() == old(esc)@.dom(),
        forall|v: Seq<char>| #![trigger final(esc)@[v]] names_view(vars@).contains(v) ==>
            (final(esc)@[v] is Wide <==> (old(esc)@[v] is Wide || nested_escapes(exprs@, v))),
        forall|v: Seq<char>| #![trigger final(esc)@[v]] names_view(vars@).contains(v) && !(old(esc)@[v] is Wide)
            && !nested_escapes(exprs@, v) ==> final(esc)@[v] == old(esc)@[v],
        forall|v: Seq<char>| #![trigger final(esc)@[v]] !names_view(vars@).contains(v) && old(esc)@.contains_key(v)
            ==> final(esc)@[v] == old(esc)@[v],
    decreases exprs, 0int,
{
    let mut i: usize = 0;
    assert(exprs@.take(0) =~= Seq::<Expr>::empty());
    while i < exprs.len()
        invariant
            i <= exprs@.len(),
            esc@.dom() == old(esc)@.dom(),
            forall|v: Seq<char>| names_view(vars@).contains(v) ==> old(esc)@.contains_key(v),
            forall|v: Seq<char>| #![trigger esc@[v]] names_view(vars@).contains(v) ==>
                (esc@[v] is Wide <==> (old(esc)@[v] is Wide || nested_escapes(exprs@.take(i as int), v))),
            forall|v: Seq<char>| #![trigger esc@[v]] names_view(vars@).contains(v) && !(old(esc)@[v] is Wide)
                && !nested_escapes(exprs@.take(i as int), v) ==> esc@[v] == old(esc)@[v],
            forall|v: Seq<char>| #![trigger esc@[v]] !names_view(vars@).contains(v) && old(esc)@.contains_key(v)
                ==> esc@[v] == old(esc)@[v],
            forall|v: Seq<char>| #![trigger esc@[v]] names_view(vars@).contains(v) ==>
                esc@[v] == mark(old(esc)@[v], nested_first(exprs@.take(i as int), v)),
        decreases exprs@.len() - i,
    {
        proof {
            let t = exprs@.take(i + 1);
            assert(t.drop_last() =~= exprs@.take(i as int));
            assert(t.last() == exprs@[i as int]);
        }
        walk_expr(&exprs[i], vars, esc);
        i = i + 1;
    }
    assert(exprs@.take(i as int) =~= exprs@);
}

fn walk_expr(e: &Expr, vars: &Vec<String>, esc: &mut NameMap<EscapeState>)
    requires
        forall|v: Seq<char>| names_view(vars@).contains(v) ==> old(esc)@.contains_key(v),
    ensures
        forall|v: Seq<char>| #![trigger final(esc)@[v]] names_view(vars@).contains(v) ==>
            final(esc)@[v] == mark(old(esc)@[v], expr_first(*e, v)),
        final(esc)@.dom() == old(esc)@.dom(),
        forall|v: Seq<char>| #![trigger final(esc)@[v]] names_view(vars@).contains(v) ==>
            (final(esc)@[v] is Wide <==> (old(esc)@[v] is Wide || expr_escapes(*e, v))),
        forall|v: Seq<char>| #![trigger final(esc)@[v]] names_view(vars@).contains(v) && !(old(esc)@[v] is Wide)
            && !expr_escapes(*e, v) ==> final(esc)@[v] == old(esc)@[v],
        forall|v: Seq<char>| #![trigger final(esc)@[v]] !names_view(vars@).contains(v) && old(esc)@.contains_key(v)
            ==> final(esc)@[v] == old(esc)@[v],
    decreases e, 0int,
{
    match e {
        Expr::If { then_body, else_body, .. } => {
            walk_block_for_escape(then_body, vars, esc);
            match else_body {
                Some(b) => walk_block_for_escape(b, vars, esc),
                None => {},
            }
        },
        Expr::BeginUntil { body, .. } => walk_block_for_escape(body, vars, esc),
        Expr::BeginAgain { body, .. } => walk_block_for_escape(body, vars, esc),
        Expr::DoLoop { body, .. } => walk_block_for_escape(body, vars, esc),
        Expr::BeginWhileRepeat { pred, body, .. } => {
            walk_block_for_escape(pred, vars, esc);
            walk_block_for_escape(body, vars, esc);
        },
        Expr::Case { arms, default, .. } => {
            walk_arms(arms, vars, esc);
            match default {
                Some(d) => walk_block_for_escape(d, vars, esc),
                None => {},
            }
        },
        _ => {},
    }
}

fn walk_arms(arms: &Vec<CaseArm>, vars: &Vec<String>, esc: &mut NameMap<EscapeState>)
    requires
        forall|v: Seq<char>| names_view(vars@).contains(v) ==> old(esc)@.contains_key(v),
    ensures
        forall|v: Seq<char>| #![trigger final(esc)@[v]] names_view(vars@).contains(v) ==>
            final(esc)@[v] == mark(old(esc)@[v], arms_first(arms@, v)),
        final(esc)@.dom() == old(esc)@.dom(),
        forall|v: Seq<char>| #![trigger final(esc)@[v]] names_view(vars@).contains(v) ==>
            (final(esc)@[v] is Wide <==> (old(esc)@[v] is Wide || arms_escape(arms@, v))),
        forall|v: Seq<char>| #![trigger final(esc)@[v]] names_view(vars@).contains(v) && !(old(esc)@[v] is Wide)
            && !arms_escape(arms@, v) ==> final(esc)@[v] == old(esc)@[v],
        forall|v: Seq<char>| #![trigger final(esc)@[v]] !names_view(vars@).contains(v) && old(esc)@.contains_key(v)
            ==> final(esc)@[v] == old(esc)@[v],
    decreases arms, 0int,
{
    let mut i: usize = 0;
    assert(arms@.take(0) =~= Seq::<CaseArm>::empty());
    while i < arms.len()
        invariant
            i <= arms@.len(),
            esc@.dom() == old(esc)@.dom(),
            forall|v: Seq<char>| names_view(vars@).contains(v) ==> old(esc)@.contains_key(v),
            forall|v: Seq<char>| #![trigger esc@[v]] names_view(vars@).contains(v) ==>
                (esc@[v] is Wide <==> (old(esc)@[v] is Wide || arms_escape(arms@.take(i as int), v))),
            forall|v: Seq<char>| #![trigger esc@[v]] names_view(vars@).contains(v) && !(old(esc)@[v] is Wide)
                && !arms_escape(arms@.take(i as int), v) ==> esc@[v] == old(esc)@[v],
            forall|v: Seq<char>| #![trigger esc@[v]] !names_view(vars@).contains(v) && old(esc)@.contains_key(v)
                ==> esc@[v] == old(esc)@[v],
            forall|v: Seq<char>| #![trigger esc@[v]] names_view(vars@).contains(v) ==>
                esc@[v] == mark(old(esc)@[v], arms_first(arms@.take(i as int), v)),
        decreases arms@.len() - i,
    {
        proof {
            let t = arms@.take(i + 1);
            assert(t.drop_last() =~= arms@.take(i as int));
            assert(t.last() == arms@[i as int]);
        }
        walk_block_for_escape(&arms[i].match_expr, vars, esc);
        walk_block_for_escape(&arms[i].body, vars, esc);
        i = i + 1;
    }
    assert(arms@.take(i as int) =~= arms@);
}

fn walk_item(it: &Item, vars: &Vec<String>, esc: &mut NameMap<EscapeState>)
    requires
        forall|v: Seq<char>| names_view(vars@).contains(v) ==> old(esc)@.contains_key(v),
    ensures
        forall|v: Seq<char>| #![trigger final(esc)@[v]] names_view(vars@).contains(v) ==>
            final(esc)@[v] == mark(old(esc)@[v], item_first(*it, v)),
        final(esc)@.dom() == old(esc)@.dom(),
        forall|v: Seq<char>| #![trigger final(esc)@[v]] names_view(vars@).contains(v) ==>
            (final(esc)@[v] is Wide <==> (old(esc)@[v] is Wide || item_escapes(*it, v))),
        forall|v: Seq<char>| #![trigger final(esc)@[v]] names_view(vars@).contains(v) && !(old(esc)@[v] is Wide)
            && !item_escapes(*it, v) ==> final(esc)@[v] == old(esc)@[v],
        forall|v: Seq<char>| #![trigger final(esc)@[v]] !names_view(vars@).contains(v) && old(esc)@.contains_key(v)
            ==> final(esc)@[v] == old(esc)@[v],
{
    match it {
        Item::Definition(d) => walk_block_for_escape(&d.body, vars, esc),
        Item::TopLevel { exprs, .. } => walk_block_for_escape(exprs, vars, esc),
        Item::Constant(c) => match &c.value {
            ConstValue::Computed(ex) => walk_block_for_escape(ex, vars, esc),
            _ => {},
        },
        Item::Value(v) => walk_block_for_escape(&v.initial, vars, esc),
        Item::Template(t) => {
            walk_block_for_escape(&t.constructor, vars, esc);
            walk_block_for_escape(&t.does_body, vars, esc);
        },
        Item::TemplateInstance(t) => walk_block_for_escape(&t.does_body, vars, esc),
        Item::Method(m) => walk_block_for_escape(&m.body, vars, esc),
        _ => {},
    }
}

/// The escape table of a program: every variable `Narrow` when no
/// reference to it escapes, else `Wide` at its first escaping reference.
pub fn escape_table(items: &Vec<Item>) -> (esc: NameMap<EscapeState>)
    ensures
        escape_sound(esc@, var_names_of(items@), items@),
{
    let mut vars: Vec<String> = Vec::new();
    let mut k: usize = 0;
    while k < items.len()
        invariant
            k <= items@.len(),
            forall|v: Seq<char>| names_view(vars@).contains(v) <==> exists|j: int| 0 <= j < k
                && (#[trigger] items@[j] matches Item::Variable(var) && text::ascii_lower(var.name@) == v),
        decreases items@.len() - k,
    {
        match &items[k] {
            Item::Variable(v) => {
                let ghost before = vars@;
                vars.push(text::to_lower(v.name.as_str()));
                proof {
                    let after = names_view(vars@);
                    let bef = names_view(before);
                    assert(after =~= bef.push(text::ascii_lower(v.name@)));
                    assert forall|x: Seq<char>| after.contains(x) <==> exists|j: int| 0 <= j < k + 1
                        && (#[trigger] items@[j] matches Item::Variable(var) && text::ascii_lower(var.name@) == x) by {
                        if after.contains(x) {
                            let idx = choose|idx: int| 0 <= idx < after.len() && after[idx] == x;
                            if idx < bef.len() {
                                assert(bef[idx] == x);
                                assert(bef.contains(x));
                            } else {
                                assert(items@[k as int] matches Item::Variable(var) && text::ascii_lower(var.name@) == x);
                            }
                        }
                        if exists|j: int| 0 <= j < k + 1
                            && (#[trigger] items@[j] matches Item::Variable(var) && text::ascii_lower(var.name@) == x) {
                            let j = choose|j: int| 0 <= j < k + 1
                                && (#[trigger] items@[j] matches Item::Variable(var) && text::ascii_lower(var.name@) == x);
                            if j < k {
                                assert(bef.contains(x));
                                let idx = choose|idx: int| 0 <= idx < bef.len() && bef[idx] == x;
                                assert(after[idx] == x);
                            } else {
                                assert(after[after.len() - 1] == x);
                            }
                        }
                    }
                }
            },
            _ => {
                proof {
                    assert forall|x: Seq<char>| names_view(vars@).contains(x) <==> exists|j: int| 0 <= j < k + 1
                        && (#[trigger] items@[j] matches Item::Variable(var) && text::ascii_lower(var.name@) == x) by {
                        if exists|j: int| 0 <= j < k + 1
                            && (#[trigger] items@[j] matches Item::Variable(var) && text::ascii_lower(var.name@) == x) {
                            let j = choose|j: int| 0 <= j < k + 1
                                && (#[trigger] items@[j] matches Item::Variable(var) && text::ascii_lower(var.name@) == x);
                            assert(j != k);
                        }
                    }
                }
            },
        }
        k = k + 1;
    }
    assert(names_view(vars@).to_set() =~= var_names_of(items@)) by {
        assert forall|x: Seq<char>| names_view(vars@).to_set().contains(x) == var_names_of(items@).contains(x) by {
            assert(names_view(vars@).to_set().contains(x) == names_view(vars@).contains(x));
        }
    }
    let mut esc: NameMap<EscapeState> = NameMap::new();
    let mut j: usize = 0;
    while j < vars.len()
        invariant
            j <= vars@.len(),
            esc@.dom() == names_view(vars@).take(j as int).to_set(),
            forall|v: Seq<char>| #![trigger esc@[v]] esc@.contains_key(v) ==> esc@[v] is Narrow,
        decreases vars@.len() - j,
    {
        esc.insert(vars[j].clone(), EscapeState::Narrow);
        proof {
            assert(names_view(vars@).take(j + 1) =~= names_view(vars@).take(j as int).push(vars@[j as int]@));
            names_view(vars@).take(j as int).lemma_push_to_set_commute(vars@[j as int]@);
            assert(esc@.dom() =~= names_view(vars@).take(j + 1).to_set());
        }
        j = j + 1;
    }
    assert(names_view(vars@).take(j as int) =~= names_view(vars@));
    let ghost start = esc@;
    let mut i: usize = 0;
    assert(items@.take(0) =~= Seq::<Item>::empty());
    while i < items.len()
        invariant
            i <= items@.len(),
            esc@.dom() == names_view(vars@).to_set(),
            start.dom() == names_view(vars@).to_set(),
            forall|v: Seq<char>| #![trigger start[v]] start.contains_key(v) ==> start[v] is Narrow,
            forall|v: Seq<char>| #![trigger esc@[v]] names_view(vars@).contains(v) ==>
                (esc@[v] is Wide <==> exists|k: int| 0 <= k < i && item_escapes(#[trigger] items@[k], v)),
            forall|v: Seq<char>| #![trigger esc@[v]] names_view(vars@).contains(v) ==> (esc@[v] is Narrow || esc@[v] is Wide),
            forall|v: Seq<char>| #![trigger esc@[v]] names_view(vars@).contains(v) ==>
                esc@[v] == mark(EscapeState::Narrow, items_first(items@.take(i as int), v)),
        decreases items@.len() - i,
    {
        let ghost before = esc@;
        walk_item(&items[i], &vars, &mut esc);
        proof {
            let t = items@.take(i + 1);
            assert(t.drop_last() =~= items@.take(i as int));
            assert(t.last() == items@[i as int]);
            assert forall|v: Seq<char>| #![trigger esc@[v]] names_view(vars@).contains(v) implies
                (esc@[v] is Wide <==> exists|k: int| 0 <= k < i + 1 && item_escapes(#[trigger] items@[k], v)) by {
                if exists|k: int| 0 <= k < i + 1 && item_escapes(#[trigger] items@[k], v) {
                    let k = choose|k: int| 0 <= k < i + 1 && item_escapes(#[trigger] items@[k], v);
                    if k < i {
                        assert(before[v] is Wide);
                    }
                }
                if before[v] is Wide {
                    let k = choose|k: int| 0 <= k < i && item_escapes(#[trigger] items@[k], v);
                    assert(0 <= k < i + 1 && item_escapes(items@[k], v));
                }
            }
        }
        i = i + 1;
    }
    proof {
        assert forall|v: Seq<char>| var_names_of(items@).contains(v) implies (#[trigger] esc@[v] is Narrow
            <==> !items_escape(items@, v)) by {
            assert(names_view(vars@).to_set().contains(v));
            assert(names_view(vars@).contains(v));
        }
        assert forall|v: Seq<char>| var_names_of(items@).contains(v) implies (esc@[v] is Narrow || esc@[v] is Wide) by {
            assert(names_view(vars@).to_set().contains(v));
            assert(names_view(vars@).contains(v));
        }
        assert(items@.take(items@.len() as int) =~= items@);
        assert forall|v: Seq<char>| var_names_of(items@).contains(v) implies
            #[trigger] esc@[v] == mark(EscapeState::Narrow, items_first(items@, v)) by {
            assert(names_view(vars@).to_set().contains(v));
            assert(names_view(vars@).contains(v));
        }
    }
    esc
}

/// Run escape analysis over `sema.program`, replacing the escape table.
pub fn analyse_escape(sema: &mut Sema)
    ensures
        escape_sound(final(sema).escape@, var_names_of(final(sema).program.items@), final(sema).program.items@),
        final(sema).program == old(sema).program,
{
    let t = escape_table(&sema.program.items);
    sema.escape = t;
}

// ─── Call graph and use sites ──────────────────────────────────────────────

/// The first entry of `log` from `i` on whose key is `k`.
pub open spec fn find_key<V>(log: Seq<(Seq<char>, V)>, k: Seq<char>, i: int) -> Option<int>
    decreases log.len() - i,
{
    if i < 0 || i >= log.len() {
        None
    } else if log[i].0 == k {
        Some(i)
    } else {
        find_key(log, k, i + 1)
    }
}

/// The use-site log: names with their reference spans, in the order
/// names were first referenced.
pub open spec fn uses_log(u: UseSites) -> Seq<(Seq<char>, Seq<Span>)> {
    u.entries@.map_values(|p: (String, Vec<Span>)| (p.0@, p.1@))
}

/// The log after one more reference to `k` at `sp`.
pub open spec fn use_add(log: Seq<(Seq<char>, Seq<Span>)>, k: Seq<char>, sp: Span) -> Seq<(Seq<char>, Seq<Span>)> {
    match find_key(log, k, 0) {
        Some(i) => log.update(i, (log[i].0, log[i].1.push(sp))),
        None => log.push((k, seq![sp])),
    }
}

/// The call-graph log: callers with their callees, each once, in
/// first-call order.
pub open spec fn calls_log(g: CallGraph) -> Seq<(Seq<char>, Seq<Seq<char>>)> {
    g.entries@.map_values(|p: (String, Vec<String>)| (p.0@, p.1@.map_values(|s: String| s@)))
}

/// The log after `caller` calls `callee`.
pub open spec fn call_add(log: Seq<(Seq<char>, Seq<Seq<char>>)>, caller: Seq<char>, callee: Seq<char>)
    -> Seq<(Seq<char>, Seq<Seq<char>>)>
{
    match find_key(log, caller, 0) {
        Some(i) => if log[i].1.contains(callee) { log } else { log.update(i, (log[i].0, log[i].1.push(callee))) },
        None => log.push((caller, seq![callee])),
    }
}

/// The references an expression makes, in walking order: lower-cased
/// name, span, and whether it ties the name into the call graph (a
/// word reference, `'` or `TO`; `SEE` only records a use).
pub open spec fn expr_refs(e: ExprV) -> Seq<(Seq<char>, Span, bool)>
    decreases e,
{
    match e {
        ExprV::WordRef { name, span } => seq![(text::ascii_lower(name), span, true)],
        ExprV::Tick { name, span } => seq![(text::ascii_lower(name), span, true)],
        ExprV::To { name, span } => seq![(text::ascii_lower(name), span, true)],
        ExprV::See { name, span } => seq![(text::ascii_lower(name), span, false)],
        ExprV::If { then_body, else_body, .. } => seq_refs(then_body) + opt_refs(else_body),
        ExprV::BeginUntil { body, .. } => seq_refs(body),
        ExprV::BeginAgain { body, .. } => seq_refs(body),
        ExprV::DoLoop { body, .. } => seq_refs(body),
        ExprV::BeginWhileRepeat { pred, body, .. } => seq_refs(pred) + seq_refs(body),
        ExprV::Case { arms, default, .. } => arms_refs(arms) + opt_refs(default),
        _ => Seq::empty(),
    }
}

pub open spec fn seq_refs(s: Seq<ExprV>) -> Seq<(Seq<char>, Span, bool)>
    decreases s,
{
    if s.len() == 0 { Seq::empty() } else { seq_refs(s.drop_last()) + expr_refs(s.last()) }
}

pub open spec fn opt_refs(o: Option<Seq<ExprV>>) -> Seq<(Seq<char>, Span, bool)>
    decreases o,
{
    match o {
        Some(b) => seq_refs(b),
        None => Seq::empty(),
    }
}

pub open spec fn arms_refs(a: Seq<ArmV>) -> Seq<(Seq<char>, Span, bool)>
    decreases a,
{
    if a.len() == 0 {
        Seq::empty()
    } else {
        arms_refs(a.drop_last()) + seq_refs(a.last().match_expr) + seq_refs(a.last().body)
    }
}

/// The use-site log after recording `refs` in order.
pub open spec fn uses_after(log: Seq<(Seq<char>, Seq<Span>)>, refs: Seq<(Seq<char>, Span, bool)>)
    -> Seq<(Seq<char>, Seq<Span>)>
    decreases refs.len(),
{
    if refs.len() == 0 {
        log
    } else {
        use_add(uses_after(log, refs.drop_last()), refs.last().0, refs.last().1)
    }
}

/// The call-graph log after `caller` (if any) makes the calls among
/// `refs`, in order.
pub open spec fn calls_after(log: Seq<(Seq<char>, Seq<Seq<char>>)>, caller: Option<Seq<char>>, refs: Seq<(Seq<char>, Span, bool)>)
    -> Seq<(Seq<char>, Seq<Seq<char>>)>
    decreases refs.len(),
{
    if refs.len() == 0 {
        log
    } else {
        let before = calls_after(log, caller, refs.drop_last());
        match caller {
            Some(c) => if refs.last().2 { call_add(before, c, refs.last().0) } else { before },
            None => before,
        }
    }
}

/// Recording references in two runs is recording them all.
pub proof fn lemma_refs_split(
    ul: Seq<(Seq<char>, Seq<Span>)>,
    cl: Seq<(Seq<char>, Seq<Seq<char>>)>,
    caller: Option<Seq<char>>,
    a: Seq<(Seq<char>, Span, bool)>,
    b: Seq<(Seq<char>, Span, bool)>,
)
    ensures
        uses_after(ul, a + b) == uses_after(uses_after(ul, a), b),
        calls_after(cl, caller, a + b) == calls_after(calls_after(cl, caller, a), caller, b),
    decreases b.len(),
{
    if b.len() == 0 {
        assert(a + b =~= a);
    } else {
        assert((a + b).drop_last() =~= a + b.drop_last());
        assert((a + b).last() == b.last());
        lemma_refs_split(ul, cl, caller, a, b.drop_last());
    }
}

/// The name a body's references are made on behalf of, if any.
pub open spec fn opt_view(c: Option<&str>) -> Option<Seq<char>> {
    match c {
        Some(s) => Some(s@),
        None => None,
    }
}

impl UseSites {
    pub fn new() -> (u: UseSites)
        ensures
            u.entries@.len() == 0,
    {
        UseSites { entries: Vec::new() }
    }

    /// Index of the entry for `k`, if any.
    pub fn find(&self, k: &str) -> (r: Option<usize>)
        ensures
            r matches Some(i) ==> i < self.entries@.len() && self.entries@[i as int].0@ == k@,
            r is None ==> forall|i: int| 0 <= i < self.entries@.len() ==> self.entries@[i].0@ != k@,
            match r {
                Some(i) => find_key(uses_log(*self), k@, 0) == Some(i as int),
                None => find_key(uses_log(*self), k@, 0) is None,
            },
    {
        let ghost log = uses_log(*self);
        let mut i: usize = 0;
        while i < self.entries.len()
            invariant
                i <= self.entries@.len(),
                log == uses_log(*self),
                forall|j: int| 0 <= j < i ==> self.entries@[j].0@ != k@,
                find_key(log, k@, 0) == find_key(log, k@, i as int),
            decreases self.entries@.len() - i,
        {
            if text::str_eq(self.entries[i].0.as_str(), k) {
                return Some(i);
            }
            i = i + 1;
        }
        None
    }

    /// Whether no name has been referenced.
    pub fn is_empty(&self) -> (r: bool)
        ensures
            r == (self.entries@.len() == 0),
    {
        self.entries.len() == 0
    }

    /// The spans recorded for `k`.
    pub fn get(&self, k: &str) -> (r: Option<&Vec<Span>>)
        ensures
            match find_key(uses_log(*self), k@, 0) {
                Some(i) => r matches Some(v) && v@ == uses_log(*self)[i].1,
                None => r is None,
            },
    {
        match self.find(k) {
            Some(i) => Some(&self.entries[i].1),
            None => None,
        }
    }

    /// Record one more span for `k`.
    pub fn add(&mut self, k: String, sp: Span)
        ensures
            uses_log(*final(self)) == use_add(uses_log(*old(self)), k@, sp),
    {
        let ghost log = uses_log(*self);
        match self.find(k.as_str()) {
            Some(i) => {
                let ghost before = self.entries@;
                let (name, mut v) = self.entries.remove(i);
                v.push(sp);
                let ghost nv = v@;
                self.entries.insert(i, (name, v));
                assert(self.entries@ =~= before.update(i as int, (name, v)));
                assert(uses_log(*self) =~= log.update(i as int, (log[i as int].0, log[i as int].1.push(sp))));
            },
            None => {
                let mut v: Vec<Span> = Vec::new();
                v.push(sp);
                self.entries.push((k, v));
                assert(uses_log(*self) =~= log.push((k@, seq![sp])));
            },
        }
    }
}

/// Callee lists: caller → callee names, each once, first-call order.
#[derive(Debug)]
pub struct CallGraph {
    pub entries: Vec<(String, Vec<String>)>,
}

impl CallGraph {
    pub fn new() -> (g: CallGraph)
        ensures
            g.entries@.len() == 0,
    {
        CallGraph { entries: Vec::new() }
    }

    fn find(&self, k: &str) -> (r: Option<usize>)
        ensures
            r matches Some(i) ==> i < self.entries@.len() && self.entries@[i as int].0@ == k@,
            match r {
                Some(i) => find_key(calls_log(*self), k@, 0) == Some(i as int),
                None => find_key(calls_log(*self), k@, 0) is None,
            },
    {
        let ghost log = calls_log(*self);
        let mut i: usize = 0;
        while i < self.entries.len()
            invariant
                i <= self.entries@.len(),
                log == calls_log(*self),
                find_key(log, k@, 0) == find_key(log, k@, i as int),
            decreases self.entries@.len() - i,
        {
            if text::str_eq(self.entries[i].0.as_str(), k) {
                return Some(i);
            }
            i = i + 1;
        }
        None
    }

    /// Whether no word calls anything.
    pub fn is_empty(&self) -> (r: bool)
        ensures
            r == (self.entries@.len() == 0),
    {
        self.entries.len() == 0
    }

    /// The callees of `caller`.
    pub fn get(&self, caller: &str) -> (r: Option<&Vec<String>>)
        ensures
            match find_key(calls_log(*self), caller@, 0) {
                Some(i) => r matches Some(v) && v@.map_values(|s: String| s@) == calls_log(*self)[i].1,
                None => r is None,
            },
    {
        match self.find(caller) {
            Some(i) => Some(&self.entries[i].1),
            None => None,
        }
    }

    /// Record that `caller` calls `callee`.
    pub fn link(&mut self, caller: &str, callee: String)
        ensures
            calls_log(*final(self)) == call_add(calls_log(*old(self)), caller@, callee@),
    {
        let ghost log = calls_log(*self);
        match self.find(caller) {
            Some(i) => {
                let ghost before = self.entries@;
                let (name, mut v) = self.entries.remove(i);
                let ghost vs = v@.map_values(|s: String| s@);
                assert(vs == log[i as int].1);
                let mut seen = false;
                let mut k: usize = 0;
                while k < v.len()
                    invariant
                        k <= v@.len(),
                        vs == v@.map_values(|s: String| s@),
                        seen == exists|j: int| 0 <= j < k && vs[j] == callee@,
                    decreases v@.len() - k,
                {
                    assert(vs[k as int] == v@[k as int]@);
                    if text::str_eq(v[k].as_str(), callee.as_str()) {
                        seen = true;
                    }
                    k = k + 1;
                }
                assert(seen == vs.contains(callee@));
                if !seen {
                    v.push(callee);
                }
                self.entries.insert(i, (name, v));
                assert(self.entries@ =~= before.update(i as int, (name, v)));
                if seen {
                    assert(calls_log(*self) =~= log);
                } else {
                    assert(v@.map_values(|s: String| s@) =~= vs.push(callee@));
                    assert(calls_log(*self) =~= log.update(i as int, (log[i as int].0, log[i as int].1.push(callee@))));
                }
            },
            None => {
                let mut v: Vec<String> = Vec::new();
                v.push(callee);
                self.entries.push((text::owned(caller), v));
                assert(v@.map_values(|s: String| s@) =~= seq![callee@]);
                assert(calls_log(*self) =~= log.push((caller@, seq![callee@])));
            },
        }
    }
}

fn note_ref(name: &String, span: Span, caller: Option<&str>, graph: &mut CallGraph, uses: &mut UseSites, link: bool)
    ensures
        uses_log(*final(uses)) == uses_after(uses_log(*old(uses)), seq![(text::ascii_lower(name@), span, link)]),
        calls_log(*final(graph)) == calls_after(calls_log(*old(graph)), opt_view(caller),
            seq![(text::ascii_lower(name@), span, link)]),
{
    let ghost refs = seq![(text::ascii_lower(name@), span, link)];
    let ghost u0 = uses_log(*uses);
    let ghost g0 = calls_log(*graph);
    assert(refs.drop_last() =~= Seq::<(Seq<char>, Span, bool)>::empty());
    assert(uses_after(u0, refs.drop_last()) == u0);
    assert(calls_after(g0, opt_view(caller), refs.drop_last()) == g0);
    let lc = text::to_lower(name.as_str());
    uses.add(lc.clone(), span);
    if link {
        match caller {
            Some(c) => graph.link(c, lc),
            None => {},
        }
    }
}

fn walk_body_for_refs(exprs: &Vec<Expr>, caller: Option<&str>, graph: &mut CallGraph, uses: &mut UseSites)
    ensures
        uses_log(*final(uses)) == uses_after(uses_log(*old(uses)), seq_refs(evs(exprs@))),
        calls_log(*final(graph)) == calls_after(calls_log(*old(graph)), opt_view(caller), seq_refs(evs(exprs@))),
    decreases exprs, 1int,
{
    let ghost u0 = uses_log(*uses);
    let ghost g0 = calls_log(*graph);
    let ghost sv = evs(exprs@);
    proof { lemma_evs(exprs@); }
    let mut i: usize = 0;
    assert(sv.take(0) =~= Seq::<ExprV>::empty());
    while i < exprs.len()
        invariant
            i <= exprs@.len(),
            sv == evs(exprs@),
            sv.len() == exprs@.len(),
            forall|k: int| 0 <= k < exprs@.len() ==> #[trigger] sv[k] == ev(exprs@[k]),
            uses_log(*uses) == uses_after(u0, seq_refs(sv.take(i as int))),
            calls_log(*graph) == calls_after(g0, opt_view(caller), seq_refs(sv.take(i as int))),
        decreases exprs@.len() - i,
    {
        walk_expr_for_refs(&exprs[i], caller, graph, uses);
        proof {
            let t = sv.take(i + 1);
            assert(t.drop_last() =~= sv.take(i as int));
            assert(t.last() == sv[i as int]);
            lemma_refs_split(u0, g0, opt_view(caller), seq_refs(sv.take(i as int)), expr_refs(sv[i as int]));
        }
        i = i + 1;
    }
    assert(sv.take(i as int) =~= sv);
}

fn walk_expr_for_refs(e: &Expr, caller: Option<&str>, graph: &mut CallGraph, uses: &mut UseSites)
    ensures
        uses_log(*final(uses)) == uses_after(uses_log(*old(uses)), expr_refs(ev(*e))),
        calls_log(*final(graph)) == calls_after(calls_log(*old(graph)), opt_view(caller), expr_refs(ev(*e))),
    decreases e, 0int,
{
    let ghost u0 = uses_log(*uses);
    let ghost g0 = calls_log(*graph);
    let ghost c = opt_view(caller);
    match e {
        Expr::WordRef { name, span } => note_ref(name, *span, caller, graph, uses, true),
        Expr::Tick { name, span } => note_ref(name, *span, caller, graph, uses, true),
        Expr::To { name, span } => note_ref(name, *span, caller, graph, uses, true),
        Expr::See { name, span } => note_ref(name, *span, caller, graph, uses, false),
        Expr::If { then_body, else_body, .. } => {
            walk_body_for_refs(then_body, caller, graph, uses);
            match else_body {
                Some(b) => walk_body_for_refs(b, caller, graph, uses),
                None => {},
            }
            proof {
                let a = seq_refs(evs(then_body@));
                let b = opt_refs(oevs(*else_body));
                lemma_refs_split(u0, g0, c, a, b);
                if else_body is None {
                    assert(a + b =~= a);
                }
            }
        },
        Expr::BeginUntil { body, .. } => walk_body_for_refs(body, caller, graph, uses),
        Expr::BeginAgain { body, .. } => walk_body_for_refs(body, caller, graph, uses),
        Expr::DoLoop { body, .. } => walk_body_for_refs(body, caller, graph, uses),
        Expr::BeginWhileRepeat { pred, body, .. } => {
            walk_body_for_refs(pred, caller, graph, uses);
            walk_body_for_refs(body, caller, graph, uses);
            proof { lemma_refs_split(u0, g0, c, seq_refs(evs(pred@)), seq_refs(evs(body@))); }
        },
        Expr::Case { arms, default, .. } => {
            walk_arms_for_refs(arms, caller, graph, uses);
            match default {
                Some(d) => walk_body_for_refs(d, caller, graph, uses),
                None => {},
            }
            proof {
                let a = arms_refs(avs(arms@));
                let b = opt_refs(oevs(*default));
                lemma_refs_split(u0, g0, c, a, b);
                if default is None {
                    assert(a + b =~= a);
                }
            }
        },
        _ => {},
    }
}

fn walk_arms_for_refs(arms: &Vec<CaseArm>, caller: Option<&str>, graph: &mut CallGraph, uses: &mut UseSites)
    ensures
        uses_log(*final(uses)) == uses_after(uses_log(*old(uses)), arms_refs(avs(arms@))),
        calls_log(*final(graph)) == calls_after(calls_log(*old(graph)), opt_view(caller), arms_refs(avs(arms@))),
    decreases arms, 0int,
{
    let ghost u0 = uses_log(*uses);
    let ghost g0 = calls_log(*graph);
    let ghost c = opt_view(caller);
    let ghost av = avs(arms@);
    proof { lemma_avs(arms@); }
    let mut i: usize = 0;
    assert(av.take(0) =~= Seq::<ArmV>::empty());
    while i < arms.len()
        invariant
            i <= arms@.len(),
            av == avs(arms@),
            av.len() == arms@.len(),
            forall|k: int| 0 <= k < arms@.len() ==> #[trigger] av[k]
                == (ArmV { match_expr: evs(arms@[k].match_expr@), body: evs(arms@[k].body@), span: arms@[k].span }),
            c == opt_view(caller),
            uses_log(*uses) == uses_after(u0, arms_refs(av.take(i as int))),
            calls_log(*graph) == calls_after(g0, c, arms_refs(av.take(i as int))),
        decreases arms@.len() - i,
    {
        walk_body_for_refs(&arms[i].match_expr, caller, graph, uses);
        walk_body_for_refs(&arms[i].body, caller, graph, uses);
        proof {
            let t = av.take(i + 1);
            assert(t.drop_last() =~= av.take(i as int));
            assert(t.last() == av[i as int]);
            let p = arms_refs(av.take(i as int));
            let m = seq_refs(av[i as int].match_expr);
            let b = seq_refs(av[i as int].body);
            lemma_refs_split(u0, g0, c, p, m);
            lemma_refs_split(u0, g0, c, p + m, b);
        }
        i = i + 1;
    }
    assert(av.take(i as int) =~= av);
}

/// The references an item's bodies make, in order.
pub open spec fn item_refs(it: Item) -> Seq<(Seq<char>, Span, bool)> {
    match it {
        Item::Definition(d) => seq_refs(evs(d.body@)),
        Item::TopLevel { exprs, .. } => seq_refs(evs(exprs@)),
        Item::Constant(c) => match c.value {
            ConstValue::Computed(ex) => seq_refs(evs(ex@)),
            _ => Seq::empty(),
        },
        Item::Value(v) => seq_refs(evs(v.initial@)),
        Item::Template(t) => seq_refs(evs(t.constructor@)) + seq_refs(evs(t.does_body@)),
        Item::TemplateInstance(t) => seq_refs(evs(t.does_body@)),
        Item::Method(m) => seq_refs(evs(m.body@)),
        _ => Seq::empty(),
    }
}

/// The word an item's references are made on behalf of: a definition,
/// template or instance by its name, a method by its generic.
pub open spec fn item_caller(it: Item) -> Option<Seq<char>> {
    match it {
        Item::Definition(d) => Some(text::ascii_lower(d.name@)),
        Item::Template(t) => Some(text::ascii_lower(t.name@)),
        Item::TemplateInstance(t) => Some(text::ascii_lower(t.name@)),
        Item::Method(m) => Some(text::ascii_lower(m.generic_name@)),
        _ => None,
    }
}

/// The use-site log of a program's items.
pub open spec fn prog_uses(items: Seq<Item>) -> Seq<(Seq<char>, Seq<Span>)>
    decreases items.len(),
{
    if items.len() == 0 { Seq::empty() } else { uses_after(prog_uses(items.drop_last()), item_refs(items.last())) }
}

/// The call-graph log of a program's items.
pub open spec fn prog_calls(items: Seq<Item>) -> Seq<(Seq<char>, Seq<Seq<char>>)>
    decreases items.len(),
{
    if items.len() == 0 {
        Seq::empty()
    } else {
        calls_after(prog_calls(items.drop_last()), item_caller(items.last()), item_refs(items.last()))
    }
}

/// Who calls whom, and where every name is referenced.
pub fn analyse_call_graph(items: &Vec<Item>) -> (r: (CallGraph, UseSites))
    ensures
        calls_log(r.0) == prog_calls(items@),
        uses_log(r.1) == prog_uses(items@),
{
    let mut graph = CallGraph::new();
    let mut uses = UseSites::new();
    let mut i: usize = 0;
    assert(items@.take(0) =~= Seq::<Item>::empty());
    assert(calls_log(graph) =~= Seq::<(Seq<char>, Seq<Seq<char>>)>::empty());
    assert(uses_log(uses) =~= Seq::<(Seq<char>, Seq<Span>)>::empty());
    while i < items.len()
        invariant
            i <= items@.len(),
            calls_log(graph) == prog_calls(items@.take(i as int)),
            uses_log(uses) == prog_uses(items@.take(i as int)),
        decreases items@.len() - i,
    {
        let ghost g0 = calls_log(graph);
        let ghost u0 = uses_log(uses);
        proof {
            let t = items@.take(i + 1);
            assert(t.drop_last() =~= items@.take(i as int));
            assert(t.last() == items@[i as int]);
        }
        match &items[i] {
            Item::Definition(d) => {
                let lc = text::to_lower(d.name.as_str());
                walk_body_for_refs(&d.body, Some(lc.as_str()), &mut graph, &mut uses);
            },
            Item::TopLevel { exprs, .. } => walk_body_for_refs(exprs, None, &mut graph, &mut uses),
            Item::Constant(c) => match &c.value {
                ConstValue::Computed(ex) => walk_body_for_refs(ex, None, &mut graph, &mut uses),
                _ => {},
            },
            Item::Value(v) => walk_body_for_refs(&v.initial, None, &mut graph, &mut uses),
            Item::Template(t) => {
                let lc = text::to_lower(t.name.as_str());
                walk_body_for_refs(&t.constructor, Some(lc.as_str()), &mut graph, &mut uses);
                walk_body_for_refs(&t.does_body, Some(lc.as_str()), &mut graph, &mut uses);
                proof {
                    lemma_refs_split(u0, g0, Some(lc@), seq_refs(evs(t.constructor@)), seq_refs(evs(t.does_body@)));
                }
            },
            Item::TemplateInstance(t) => {
                let lc = text::to_lower(t.name.as_str());
                walk_body_for_refs(&t.does_body, Some(lc.as_str()), &mut graph, &mut uses);
            },
            Item::Method(m) => {
                let lc = text::to_lower(m.generic_name.as_str());
                walk_body_for_refs(&m.body, Some(lc.as_str()), &mut graph, &mut uses);
            },
            _ => {},
        }
        i = i + 1;
    }
    assert(items@.take(i as int) =~= items@);
    (graph, uses)
}

// ─── Template expansion ────────────────────────────────────────────────────

/// What expansion reads of a template: its name, constructor and
/// `DOES>` body.
pub open spec fn tview(t: TemplateDef) -> (Seq<char>, Seq<ExprV>, Seq<ExprV>) {
    (t.name@, evs(t.constructor@), evs(t.does_body@))
}

/// The templates known to expansion: the earlier compiles' (`prior`),
/// then this program's in order, by lower-cased name.
pub open spec fn tv_table(prior: Map<Seq<char>, TemplateDef>, items: Seq<Item>) -> Map<Seq<char>, (Seq<char>, Seq<ExprV>, Seq<ExprV>)>
    decreases items.len(),
{
    if items.len() == 0 {
        prior.map_values(|t: TemplateDef| tview(t))
    } else {
        let m = tv_table(prior, items.drop_last());
        match items.last() {
            Item::Template(t) => m.insert(text::ascii_lower(t.name@), tview(t)),
            _ => m,
        }
    }
}

/// The span of an expression tree.
pub open spec fn span_v(e: ExprV) -> Span {
    match e {
        ExprV::Lit(LitV::Int { span, .. }) => span,
        ExprV::Lit(LitV::Float { span, .. }) => span,
        ExprV::Lit(LitV::Str { span, .. }) => span,
        ExprV::WordRef { span, .. } => span,
        ExprV::If { span, .. } => span,
        ExprV::BeginUntil { span, .. } => span,
        ExprV::BeginWhileRepeat { span, .. } => span,
        ExprV::BeginAgain { span, .. } => span,
        ExprV::DoLoop { span, .. } => span,
        ExprV::Case { span, .. } => span,
        ExprV::Tick { span, .. } => span,
        ExprV::To { span, .. } => span,
        ExprV::See { span, .. } => span,
        ExprV::LetForm { span, .. } => span,
    }
}

/// A run of expressions folded into a `TopLevel` item: none for an
/// empty run.
pub open spec fn flush_v(cur: Seq<ExprV>, out: Seq<Item>) -> bool {
    if cur.len() == 0 {
        out.len() == 0
    } else {
        &&& out.len() == 1
        &&& out[0] matches Item::TopLevel { exprs, span }
        &&& evs(out[0]->TopLevel_exprs@) == cur
        &&& out[0]->TopLevel_span == (Span { start: span_v(cur[0]).start, end: span_v(cur.last()).end })
    }
}

/// The template a word names, if any.
pub open spec fn tmpl_named(tm: Map<Seq<char>, (Seq<char>, Seq<ExprV>, Seq<ExprV>)>, e: ExprV)
    -> Option<(Seq<char>, Seq<ExprV>, Seq<ExprV>)>
{
    match e {
        ExprV::WordRef { name, .. } => if tm.contains_key(text::ascii_lower(name)) {
            Some(tm[text::ascii_lower(name)])
        } else {
            None
        },
        _ => None,
    }
}

/// A non-negative integer literal ending a run: its value as a count.
pub open spec fn count_at_end(cur: Seq<ExprV>) -> Option<u32> {
    if cur.len() > 0 {
        match cur.last() {
            ExprV::Lit(LitV::Int { value, .. }) => if value >= 0 { Some(value as u32) } else { None },
            _ => None,
        }
    } else {
        None
    }
}

/// The unit a constructor selects, on values (see [`template_unit_spec`]).
pub open spec fn unit_v(c: Seq<ExprV>) -> u32
    decreases c.len(),
{
    if c.len() == 0 {
        1
    } else {
        let prev = unit_v(c.drop_last());
        match c.last() {
            ExprV::WordRef { name, .. } => {
                let lc = text::ascii_lower(name);
                if lc == "cells"@ || lc == "floats"@ { 8 } else if lc == "chars"@ { 1 } else { prev }
            },
            _ => prev,
        }
    }
}

proof fn lemma_unit_v(c: Seq<Expr>)
    ensures
        unit_v(evs(c)) == template_unit_spec(c),
    decreases c.len(),
{
    if c.len() > 0 {
        lemma_unit_v(c.drop_last());
        let v = evs(c);
        assert(v.drop_last() =~= evs(c.drop_last()));
        assert(v.last() == ev(c.last()));
    }
}

/// The bytes an instance with `count` units allocates.
pub open spec fn alloc_v(cons: Seq<ExprV>, count: u32) -> u32 {
    let p = count * unit_v(cons);
    if p > u32::MAX { u32::MAX } else if p < 1 { 1 } else { p as u32 }
}

/// The instance `<count> tmpl <name>` makes, the count written at `csp`.
pub open spec fn instance_v(item: Item, tv: (Seq<char>, Seq<ExprV>, Seq<ExprV>), count: u32, csp: Span, nm: ExprV) -> bool {
    &&& item matches Item::TemplateInstance(ti)
    &&& item->TemplateInstance_0.name@ == nm->WordRef_name
    &&& item->TemplateInstance_0.name_span == nm->WordRef_span
    &&& item->TemplateInstance_0.template_name@ == tv.0
    &&& item->TemplateInstance_0.allocated_bytes == alloc_v(tv.1, count)
    &&& evs(item->TemplateInstance_0.does_body@) == tv.2
    &&& item->TemplateInstance_0.span == (Span { start: csp.start, end: nm->WordRef_span.end })
}

/// Whether a template instantiation starts at `s[i]` after the run `cur`.
pub open spec fn instantiates(s: Seq<ExprV>, i: int, cur: Seq<ExprV>, tm: Map<Seq<char>, (Seq<char>, Seq<ExprV>, Seq<ExprV>)>) -> bool {
    &&& 0 <= i < s.len()
    &&& tmpl_named(tm, s[i]) is Some
    &&& count_at_end(cur) is Some
    &&& i + 1 < s.len()
    &&& s[i + 1] is WordRef
}

/// How many items the expansion of a top-level run makes from `s[i..]`
/// after the pending run `cur`.
pub open spec fn exp_len(s: Seq<ExprV>, i: int, cur: Seq<ExprV>, tm: Map<Seq<char>, (Seq<char>, Seq<ExprV>, Seq<ExprV>)>) -> nat
    decreases s.len() - i,
{
    if i < 0 || i >= s.len() {
        if cur.len() == 0 { 0 } else { 1 }
    } else if instantiates(s, i, cur, tm) {
        (if cur.len() > 1 { 1nat } else { 0nat }) + 1 + exp_len(s, i + 2, Seq::empty(), tm)
    } else {
        exp_len(s, i + 1, cur.push(s[i]), tm)
    }
}

/// `out` is what expanding the top-level run `s[i..]` makes, after the
/// pending run `cur`: each `<n> template <name>` becomes an instance,
/// the expressions between them `TopLevel` items.
pub open spec fn exp_items(
    s: Seq<ExprV>,
    i: int,
    cur: Seq<ExprV>,
    tm: Map<Seq<char>, (Seq<char>, Seq<ExprV>, Seq<ExprV>)>,
    out: Seq<Item>,
) -> bool
    decreases s.len() - i,
{
    if i < 0 || i >= s.len() {
        flush_v(cur, out)
    } else if instantiates(s, i, cur, tm) {
        let rest = cur.drop_last();
        let f = if rest.len() == 0 { 0int } else { 1int };
        let csp = span_v(cur.last());
        &&& out.len() > f
        &&& flush_v(rest, out.take(f))
        &&& instance_v(out[f], tmpl_named(tm, s[i])->Some_0, count_at_end(cur)->Some_0, csp, s[i + 1])
        &&& exp_items(s, i + 2, Seq::empty(), tm, out.skip(f + 1))
    } else {
        exp_items(s, i + 1, cur.push(s[i]), tm, out)
    }
}

/// `out` is the program `items` with every top-level run expanded
/// against the template table `tm`; other items are kept as they are.
pub open spec fn exp_prog(items: Seq<Item>, tm: Map<Seq<char>, (Seq<char>, Seq<ExprV>, Seq<ExprV>)>, out: Seq<Item>) -> bool
    decreases items.len(),
{
    if items.len() == 0 {
        out.len() == 0
    } else {
        match items[0] {
            Item::TopLevel { exprs, .. } => {
                let n = exp_len(evs(exprs@), 0, Seq::empty(), tm) as int;
                &&& out.len() >= n
                &&& exp_items(evs(exprs@), 0, Seq::empty(), tm, out.take(n))
                &&& exp_prog(items.subrange(1, items.len() as int), tm, out.skip(n))
            },
            _ => {
                &&& out.len() > 0
                &&& out[0] == items[0]
                &&& exp_prog(items.subrange(1, items.len() as int), tm, out.skip(1))
            },
        }
    }
}

/// Bytes per unit a template's constructor allocates: 8 after `cells`
/// or `floats`, 1 after `chars` (the last such word wins), else 1.
pub fn template_unit(tmpl: &TemplateDef) -> (u: u32)
    ensures
        u == 1 || u == 8,
        u == template_unit_spec(tmpl.constructor@),
{
    let mut unit: u32 = 1;
    let mut k: usize = 0;
    assert(tmpl.constructor@.take(0) =~= Seq::<Expr>::empty());
    while k < tmpl.constructor.len()
        invariant
            k <= tmpl.constructor@.len(),
            unit == 1 || unit == 8,
            unit == template_unit_spec(tmpl.constructor@.take(k as int)),
        decreases tmpl.constructor@.len() - k,
    {
        proof {
            let t = tmpl.constructor@.take(k + 1);
            assert(t.drop_last() =~= tmpl.constructor@.take(k as int));
            assert(t.last() == tmpl.constructor@[k as int]);
            reveal_strlit("cells");
            reveal_strlit("floats");
            reveal_strlit("chars");
        }
        match &tmpl.constructor[k] {
            Expr::WordRef { name, .. } => {
                let lc = text::to_lower(name.as_str());
                if text::str_eq(lc.as_str(), "cells") || text::str_eq(lc.as_str(), "floats") {
                    unit = 8;
                } else if text::str_eq(lc.as_str(), "chars") {
                    unit = 1;
                }
            },
            _ => {},
        }
        k = k + 1;
    }
    assert(tmpl.constructor@.take(k as int) =~= tmpl.constructor@);
    unit
}

/// Bytes an instance of `tmpl` with `count` units allocates: the
/// saturated product, and at least one.
pub fn compute_alloc_bytes(tmpl: &TemplateDef, count: u32) -> (b: u32)
    ensures
        b == ({
            let u = template_unit_spec(tmpl.constructor@);
            let p = count * u;
            if p > u32::MAX { u32::MAX as int } else if p < 1 { 1 } else { p }
        }),
        b == alloc_v(evs(tmpl.constructor@), count),
{
    proof { lemma_unit_v(tmpl.constructor@); }
    let unit = template_unit(tmpl);
    assert((count as u64) * (unit as u64) <= 0xffff_ffffu64 * 8) by (nonlinear_arith)
        requires count <= 0xffff_ffffu32, unit <= 8u32;
    let p: u64 = count as u64 * unit as u64;
    if p > u32::MAX as u64 {
        u32::MAX
    } else if p < 1 {
        1
    } else {
        p as u32
    }
}

/// The unit a constructor selects (see [`template_unit`]).
pub open spec fn template_unit_spec(c: Seq<Expr>) -> u32
    decreases c.len(),
{
    if c.len() == 0 {
        1
    } else {
        let prev = template_unit_spec(c.drop_last());
        match c.last() {
            Expr::WordRef { name, .. } => {
                let lc = text::ascii_lower(name@);
                if lc == "cells"@ || lc == "floats"@ { 8 } else if lc == "chars"@ { 1 } else { prev }
            },
            _ => prev,
        }
    }
}

fn flush_current(current: Vec<Expr>, out: &mut Vec<Item>)
    ensures
        flush_v(evs(current@), final(out)@.skip(old(out)@.len() as int)),
        final(out)@.take(old(out)@.len() as int) == old(out)@,
        final(out)@.len() == old(out)@.len() + (if current@.len() == 0 { 0int } else { 1int }),
{
    proof { lemma_evs(current@); }
    if current.len() == 0 {
        assert(out@.skip(out@.len() as int) =~= Seq::<Item>::empty());
        assert(out@.take(out@.len() as int) =~= out@);
        return;
    }
    let first = current[0].span();
    let last = current[current.len() - 1].span();
    proof {
        assert(span_v(evs(current@)[0]) == first) by {
            assert(evs(current@)[0] == ev(current@[0]));
        }
        assert(span_v(evs(current@).last()) == last) by {
            assert(evs(current@).last() == ev(current@[current@.len() - 1]));
        }
    }
    let ghost before = out@;
    out.push(Item::TopLevel { exprs: current, span: Span { start: first.start, end: last.end } });
    assert(out@.skip(before.len() as int) =~= seq![out@.last()]);
    assert(out@.take(before.len() as int) =~= before);
}

/// A stack-effect comment as values: input names, output names, span.
pub open spec fn effect_v(e: Option<StackEffect>) -> Option<(Seq<Seq<char>>, Seq<Seq<char>>, Span)> {
    match e {
        Some(se) => Some((names_view(se.inputs@), names_view(se.outputs@), se.span)),
        None => None,
    }
}

/// A copy of a stack-effect comment, equal to it by value.
fn copy_effect(e: &Option<StackEffect>) -> (r: Option<StackEffect>)
    ensures
        effect_v(r) == effect_v(*e),
{
    match e {
        Some(se) => Some(StackEffect {
            inputs: super::lower_classes::copy_names(&se.inputs),
            outputs: super::lower_classes::copy_names(&se.outputs),
            span: se.span,
        }),
        None => None,
    }
}

/// A copy of a template, as expansion reads it.
fn copy_template(t: &TemplateDef) -> (c: TemplateDef)
    ensures
        tview(c) == tview(*t),
        c.name_span == t.name_span,
        c.span == t.span,
        effect_v(c.effect) == effect_v(t.effect),
{
    TemplateDef {
        name: t.name.clone(),
        name_span: t.name_span,
        effect: copy_effect(&t.effect),
        constructor: copy_exprs(&t.constructor),
        does_body: copy_exprs(&t.does_body),
        span: t.span,
    }
}

/// A template looked up in this program's table, then the earlier
/// compiles'.
pub open spec fn lookup_tv(local: Map<Seq<char>, TemplateDef>, prior: Map<Seq<char>, TemplateDef>, k: Seq<char>)
    -> Option<(Seq<char>, Seq<ExprV>, Seq<ExprV>)>
{
    if local.contains_key(k) {
        Some(tview(local[k]))
    } else if prior.contains_key(k) {
        Some(tview(prior[k]))
    } else {
        None
    }
}

/// An entry of a table, if any.
pub open spec fn table_get(m: Map<Seq<char>, (Seq<char>, Seq<ExprV>, Seq<ExprV>)>, k: Seq<char>)
    -> Option<(Seq<char>, Seq<ExprV>, Seq<ExprV>)>
{
    if m.contains_key(k) { Some(m[k]) } else { None }
}

fn lookup_template<'a>(local: &'a NameMap<TemplateDef>, prior: &'a NameMap<TemplateDef>, k: &str) -> (r: Option<&'a TemplateDef>)
    ensures
        match lookup_tv(local@, prior@, k@) {
            Some(tv) => r matches Some(t) && tview(*t) == tv,
            None => r is None,
        },
{
    match local.get(k) {
        Some(t) => Some(t),
        None => prior.get(k),
    }
}

/// Split one top-level run at every `<n> template <newname>` triple,
/// turning the triple into a template instance.
fn expand_toplevel(
    exprs: &Vec<Expr>,
    local: &NameMap<TemplateDef>,
    prior: &NameMap<TemplateDef>,
    Ghost(tm): Ghost<Map<Seq<char>, (Seq<char>, Seq<ExprV>, Seq<ExprV>)>>,
    out: &mut Vec<Item>,
)
    requires
        forall|k: Seq<char>| lookup_tv(local@, prior@, k) == #[trigger] table_get(tm, k),
    ensures
        final(out)@.take(old(out)@.len() as int) == old(out)@,
        final(out)@.len() == old(out)@.len() + exp_len(evs(exprs@), 0, Seq::empty(), tm),
        exp_items(evs(exprs@), 0, Seq::empty(), tm, final(out)@.skip(old(out)@.len() as int)),
{
    let ghost sv = evs(exprs@);
    let ghost out0 = out@;
    let ghost l0 = out@.len();
    proof { lemma_evs(exprs@); }
    let mut current: Vec<Expr> = Vec::new();
    let n = exprs.len();
    let mut i: usize = 0;
    assert forall|rest: Seq<Item>| exp_items(sv, 0, evs(current@), tm, rest)
        implies exp_items(sv, 0, Seq::empty(), tm, out@.skip(l0 as int) + rest) by {
        assert(out@.skip(l0 as int) + rest =~= rest);
        assert(evs(current@) =~= Seq::<ExprV>::empty());
    }
    assert(evs(current@) =~= Seq::<ExprV>::empty());
    assert(out@.skip(l0 as int) =~= Seq::<Item>::empty());
    assert(out@.take(l0 as int) =~= out0);
    while i < n
        invariant
            n == exprs@.len(),
            i <= n,
            sv == evs(exprs@),
            sv.len() == n,
            forall|k: int| 0 <= k < n ==> #[trigger] sv[k] == ev(exprs@[k]),
            forall|k: Seq<char>| lookup_tv(local@, prior@, k) == #[trigger] table_get(tm, k),
            l0 == out0.len(),
            out@.len() >= l0,
            out@.take(l0 as int) == out0,
            exp_len(sv, 0, Seq::empty(), tm) == (out@.len() - l0) + exp_len(sv, i as int, evs(current@), tm),
            forall|rest: Seq<Item>| exp_items(sv, i as int, evs(current@), tm, rest)
                ==> exp_items(sv, 0, Seq::empty(), tm, out@.skip(l0 as int) + rest),
        decreases n - i,
    {
        let ghost cur = evs(current@);
        let ghost ob = out@;
        proof { lemma_evs(current@); }
        let tmpl = match &exprs[i] {
            Expr::WordRef { name, .. } => {
                let lc = text::to_lower(name.as_str());
                assert(table_get(tm, lc@) == lookup_tv(local@, prior@, lc@));
                lookup_template(local, prior, lc.as_str())
            },
            _ => None,
        };
        assert(match tmpl_named(tm, sv[i as int]) {
            Some(tv) => tmpl matches Some(t) && tview(*t) == tv,
            None => tmpl is None,
        });
        match tmpl {
            Some(tmpl) => {
                let count_lit: Option<u32> = if current.len() > 0 {
                    match &current[current.len() - 1] {
                        Expr::Lit(Literal::Int { value, .. }) => if *value >= 0 { Some(*value as u32) } else { None },
                        _ => None,
                    }
                } else {
                    None
                };
                assert(count_lit == count_at_end(cur)) by {
                    if current@.len() > 0 {
                        assert(cur.last() == ev(current@[current@.len() - 1]));
                    }
                }
                let name_after: Option<(String, Span)> = if i + 1 < n {
                    match &exprs[i + 1] {
                        Expr::WordRef { name, span } => Some((name.clone(), *span)),
                        _ => None,
                    }
                } else {
                    None
                };
                match (count_lit, name_after) {
                    (Some(count), Some((newname, newname_span))) => {
                        assert(instantiates(sv, i as int, cur, tm));
                        let ghost cur_all = current@;
                        let count_expr = current.pop();
                        let start = match &count_expr {
                            Some(c) => c.span().start,
                            None => newname_span.start,
                        };
                        proof {
                            assert(cur.last() == ev(cur_all[cur_all.len() - 1]));
                            assert(span_v(cur.last()).start == start);
                            lemma_evs(current@);
                            assert(evs(current@) =~= cur.drop_last());
                        }
                        let taken = current;
                        current = Vec::new();
                        let ghost before_flush = out@;
                        flush_current(taken, out);
                        let ghost mid = out@;
                        let bytes = compute_alloc_bytes(tmpl, count);
                        let inst = Item::TemplateInstance(TemplateInstanceDef {
                            name: newname,
                            name_span: newname_span,
                            template_name: tmpl.name.clone(),
                            allocated_bytes: bytes,
                            does_body: copy_exprs(&tmpl.does_body),
                            span: Span { start, end: newname_span.end },
                        });
                        out.push(inst);
                        proof {
                            let fp = mid.skip(before_flush.len() as int);
                            let f = if cur.drop_last().len() == 0 { 0int } else { 1int };
                            assert(fp.len() == f);
                            let added = fp.push(inst);
                            assert(out@ =~= ob + added);
                            assert(instance_v(inst, tmpl_named(tm, sv[i as int])->Some_0, count, span_v(cur.last()), sv[i + 1]));
                            assert forall|rest: Seq<Item>| exp_items(sv, i + 2, Seq::empty(), tm, rest)
                                implies exp_items(sv, i as int, cur, tm, added + rest) by {
                                let all = added + rest;
                                assert(all.take(f) =~= fp);
                                assert(all[f] == inst);
                                assert(all.skip(f + 1) =~= rest);
                            }
                            assert forall|rest: Seq<Item>| exp_items(sv, i + 2, Seq::empty(), tm, rest)
                                implies exp_items(sv, 0, Seq::empty(), tm, out@.skip(l0 as int) + rest) by {
                                assert(ob.skip(l0 as int) + (added + rest) =~= out@.skip(l0 as int) + rest);
                            }
                            assert(out@.take(l0 as int) =~= ob.take(l0 as int));
                            assert(evs(current@) =~= Seq::<ExprV>::empty());
                        }
                        i = i + 2;
                        continue;
                    },
                    _ => {},
                }
            },
            None => {},
        }
        assert(!instantiates(sv, i as int, cur, tm));
        let c = copy_expr(&exprs[i]);
        current.push(c);
        proof {
            lemma_evs(current@);
            assert(evs(current@) =~= cur.push(sv[i as int]));
            assert forall|rest: Seq<Item>| exp_items(sv, i + 1, evs(current@), tm, rest)
                implies exp_items(sv, 0, Seq::empty(), tm, out@.skip(l0 as int) + rest) by {
                assert(exp_items(sv, i as int, cur, tm, rest));
            }
            assert(exp_len(sv, i as int, cur, tm) == exp_len(sv, i + 1, evs(current@), tm));
        }
        i = i + 1;
    }
    let ghost cur = evs(current@);
    let ghost ob = out@;
    flush_current(current, out);
    proof {
        let added = out@.skip(ob.len() as int);
        assert(out@ =~= ob + added);
        assert(exp_items(sv, n as int, cur, tm, added));
        assert(ob.skip(l0 as int) + added =~= out@.skip(l0 as int));
        assert(out@.take(l0 as int) =~= ob.take(l0 as int));
    }
}

/// Expand every `<n> template <newname>` at top level into a template
/// instance, using this compile's templates and those of earlier ones
/// (this compile's win on a shared name).  With no template anywhere
/// the program is returned as it is.
pub fn expand_templates_pre_resolve_with_prior(program: Program, prior_templates: &NameMap<TemplateDef>) -> (r: Program)
    ensures
        if prior_templates.entries@.len() == 0 && forall|k: int| 0 <= k < program.items@.len() ==> !(#[trigger] program.items@[k] is Template) {
            r == program
        } else {
            exp_prog(program.items@, tv_table(prior_templates@, program.items@), r.items@)
        },
{
    let ghost orig = program.items@;
    let mut local: NameMap<TemplateDef> = NameMap::new();
    let mut any = prior_templates.len() > 0;
    let mut k: usize = 0;
    assert(orig.take(0) =~= Seq::<Item>::empty());
    assert forall|key: Seq<char>| lookup_tv(local@, prior_templates@, key) == #[trigger] table_get(tv_table(prior_templates@, orig.take(0)), key) by {}
    while k < program.items.len()
        invariant
            k <= program.items@.len(),
            orig == program.items@,
            any == (prior_templates.entries@.len() > 0 || exists|j: int| 0 <= j < k && (#[trigger] orig[j]) is Template),
            forall|key: Seq<char>| lookup_tv(local@, prior_templates@, key) == #[trigger] table_get(tv_table(prior_templates@, orig.take(k as int)), key),
        decreases program.items@.len() - k,
    {
        proof {
            let t = orig.take(k + 1);
            assert(t.drop_last() =~= orig.take(k as int));
            assert(t.last() == orig[k as int]);
        }
        let ghost before = local@;
        match &program.items[k] {
            Item::Template(t) => {
                let c = copy_template(t);
                let lc = text::to_lower(t.name.as_str());
                let ghost key_t = lc@;
                local.insert(lc, c);
                any = true;
                proof {
                    assert forall|key: Seq<char>| lookup_tv(local@, prior_templates@, key)
                        == #[trigger] table_get(tv_table(prior_templates@, orig.take(k + 1)), key) by {
                        if key != key_t {
                            assert(lookup_tv(before, prior_templates@, key) == table_get(tv_table(prior_templates@, orig.take(k as int)), key));
                        }
                    }
                }
            },
            _ => {
                proof {
                    assert forall|key: Seq<char>| lookup_tv(local@, prior_templates@, key)
                        == #[trigger] table_get(tv_table(prior_templates@, orig.take(k + 1)), key) by {
                        assert(lookup_tv(before, prior_templates@, key) == table_get(tv_table(prior_templates@, orig.take(k as int)), key));
                    }
                }
            },
        }
        k = k + 1;
    }
    assert(orig.take(k as int) =~= orig);
    if !any {
        return program;
    }
    let ghost tm = tv_table(prior_templates@, orig);
    let mut new_items: Vec<Item> = Vec::new();
    let mut items = program.items;
    assert forall|rest: Seq<Item>| exp_prog(items@, tm, rest) implies exp_prog(orig, tm, new_items@ + rest) by {
        assert(new_items@ + rest =~= rest);
    }
    while items.len() > 0
        invariant
            forall|key: Seq<char>| lookup_tv(local@, prior_templates@, key) == #[trigger] table_get(tm, key),
            forall|rest: Seq<Item>| exp_prog(items@, tm, rest) ==> exp_prog(orig, tm, new_items@ + rest),
        decreases items@.len(),
    {
        let ghost rem = items@;
        let ghost nb = new_items@;
        let item = items.remove(0);
        proof {
            assert(items@ =~= rem.subrange(1, rem.len() as int));
        }
        match item {
            Item::TopLevel { exprs, span } => {
                expand_toplevel(&exprs, &local, prior_templates, Ghost(tm), &mut new_items);
                proof {
                    let n = exp_len(evs(exprs@), 0, Seq::empty(), tm) as int;
                    let added = new_items@.skip(nb.len() as int);
                    assert(new_items@ =~= nb + added);
                    assert forall|rest: Seq<Item>| exp_prog(items@, tm, rest) implies exp_prog(rem, tm, added + rest) by {
                        let all = added + rest;
                        assert(all.take(n) =~= added);
                        assert(all.skip(n) =~= rest);
                    }
                    assert forall|rest: Seq<Item>| exp_prog(items@, tm, rest) implies exp_prog(orig, tm, new_items@ + rest) by {
                        assert(nb + (added + rest) =~= new_items@ + rest);
                    }
                }
            },
            other => {
                new_items.push(other);
                proof {
                    assert forall|rest: Seq<Item>| exp_prog(items@, tm, rest) implies exp_prog(rem, tm, seq![other] + rest) by {
                        let all = seq![other] + rest;
                        assert(all[0] == other);
                        assert(all.skip(1) =~= rest);
                    }
                    assert forall|rest: Seq<Item>| exp_prog(items@, tm, rest) implies exp_prog(orig, tm, new_items@ + rest) by {
                        assert(nb + (seq![other] + rest) =~= new_items@ + rest);
                    }
                }
            },
        }
    }
    proof {
        assert(exp_prog(items@, tm, Seq::empty()));
        assert(new_items@ + Seq::<Item>::empty() =~= new_items@);
    }
    Program { items: new_items }
}

// ─── Builder ───────────────────────────────────────────────────────────────

/// `n`, or `u32::MAX` when it does not fit.
pub open spec fn clamp_u32(n: nat) -> u32 {
    if n <= u32::MAX { n as u32 } else { u32::MAX }
}

/// The slot list recorded for class `lc`, empty when none is.
pub open spec fn slots_of(tab: Map<Seq<char>, Seq<Seq<char>>>, lc: Seq<char>) -> Seq<Seq<char>> {
    if tab.contains_key(lc) { tab[lc] } else { Seq::empty() }
}

/// The accessor effects of each slot of class `lc`, in slot order:
/// `lc>s` ( 1 -- 1 ), `s>>lc` ( 2 -- 1 ), `lc.s!` ( 2 -- 0 ).
pub open spec fn slot_effects(m: Map<Seq<char>, Effect>, lc: Seq<char>, slots: Seq<Seq<char>>) -> Map<Seq<char>, Effect>
    decreases slots.len(),
{
    if slots.len() == 0 {
        m
    } else {
        let s = slots.last();
        slot_effects(m, lc, slots.drop_last())
            .insert(lc + ">"@ + s, Effect::Known { inputs: 1, outputs: 1 })
            .insert(s + ">>"@ + lc, Effect::Known { inputs: 2, outputs: 1 })
            .insert(lc + "."@ + s + "!"@, Effect::Known { inputs: 2, outputs: 0 })
    }
}

/// The effects of the words each class defines, added in program
/// order: the constructor `<lc>` takes one cell per slot and gives the
/// object; then the accessors of its slots.
pub open spec fn class_effects(m: Map<Seq<char>, Effect>, items: Seq<Item>, tab: Map<Seq<char>, Seq<Seq<char>>>) -> Map<Seq<char>, Effect>
    decreases items.len(),
{
    if items.len() == 0 {
        m
    } else {
        let prev = class_effects(m, items.drop_last(), tab);
        match items.last() {
            Item::Class(c) => {
                let lc = text::ascii_lower(c.name@);
                let sl = slots_of(tab, lc);
                slot_effects(prev.insert("<"@ + lc + ">"@, Effect::Known { inputs: clamp_u32(sl.len()), outputs: 1 }), lc, sl)
            },
            _ => prev,
        }
    }
}

fn seed_class_effects(items: &Vec<Item>, class_slots: &NameMap<Vec<String>>, ue: &mut NameMap<Effect>)
    ensures
        final(ue)@ == class_effects(old(ue)@, items@, slot_table_view(class_slots@)),
{
    let ghost tab = slot_table_view(class_slots@);
    let ghost m0 = ue@;
    let mut i: usize = 0;
    assert(items@.take(0) =~= Seq::<Item>::empty());
    while i < items.len()
        invariant
            i <= items@.len(),
            tab == slot_table_view(class_slots@),
            ue@ == class_effects(m0, items@.take(i as int), tab),
        decreases items@.len() - i,
    {
        proof {
            let t = items@.take(i + 1);
            assert(t.drop_last() =~= items@.take(i as int));
        }
        match &items[i] {
            Item::Class(c) => {
                let lc = text::to_lower(c.name.as_str());
                let empty: Vec<String> = Vec::new();
                let slots = match class_slots.get(lc.as_str()) {
                    Some(s) => s,
                    None => &empty,
                };
                let ghost sl = slots_of(tab, lc@);
                proof {
                    assert(names_view(slots@) =~= sl);
                }
                let n: u32 = if slots.len() as u64 <= u32::MAX as u64 { slots.len() as u32 } else { u32::MAX };
                let mut ctor = text::owned("<");
                ctor.push_str(lc.as_str());
                ctor.push_str(">");
                ue.insert(ctor, Effect::known(n, 1));
                let ghost base = ue@;
                let mut k: usize = 0;
                assert(sl.take(0) =~= Seq::<Seq<char>>::empty());
                while k < slots.len()
                    invariant
                        k <= slots@.len(),
                        names_view(slots@) == sl,
                        ue@ == slot_effects(base, lc@, sl.take(k as int)),
                    decreases slots@.len() - k,
                {
                    proof {
                        assert(sl.take(k + 1).drop_last() =~= sl.take(k as int));
                    }
                    let s = &slots[k];
                    let mut g = lc.clone();
                    g.push_str(">");
                    g.push_str(s.as_str());
                    ue.insert(g, Effect::known(1, 1));
                    let mut cs = s.clone();
                    cs.push_str(">>");
                    cs.push_str(lc.as_str());
                    ue.insert(cs, Effect::known(2, 1));
                    let mut st = lc.clone();
                    st.push_str(".");
                    st.push_str(s.as_str());
                    st.push_str("!");
                    ue.insert(st, Effect::known(2, 0));
                    k = k + 1;
                }
                assert(sl.take(slots@.len() as int) =~= sl);
            },
            _ => {},
        }
        i = i + 1;
    }
    assert(items@.take(items@.len() as int) =~= items@);
}

fn count_u32(n: usize) -> (r: u32)
    ensures
        r == clamp_u32(n as nat),
{
    if n as u64 <= u32::MAX as u64 { n as u32 } else { u32::MAX }
}

/// A user word as values: shown name, span, declared input and output
/// counts.
pub open spec fn uw_v(w: UserWord) -> (Seq<char>, Span, Option<u32>, Option<u32>) {
    (w.name@, w.def_span, w.declared_inputs, w.declared_outputs)
}

pub open spec fn uw_map(m: Map<Seq<char>, UserWord>) -> Map<Seq<char>, (Seq<char>, Span, Option<u32>, Option<u32>)> {
    m.map_values(|w: UserWord| uw_v(w))
}

/// The declared counts of a definition's stack effect, when it has one.
pub open spec fn effect_counts(e: Option<StackEffect>) -> (Option<u32>, Option<u32>) {
    match e {
        Some(se) => (Some(clamp_u32(se.inputs@.len())), Some(clamp_u32(se.outputs@.len()))),
        None => (None, None),
    }
}

/// The user word an item declares under its own name, if any.
pub open spec fn declared_word(it: Item) -> Option<(Seq<char>, (Seq<char>, Span, Option<u32>, Option<u32>))> {
    match it {
        Item::Definition(d) => Some((d.name@, (d.name@, d.name_span, effect_counts(d.effect).0, effect_counts(d.effect).1))),
        Item::Variable(v) => Some((v.name@, (v.name@, v.name_span, None, None))),
        Item::Constant(c) => Some((c.name@, (c.name@, c.name_span, None, None))),
        Item::Create(c) => Some((c.name@, (c.name@, c.name_span, None, None))),
        Item::Collection(c) => Some((c.name@, (c.name@, c.name_span, None, None))),
        Item::Template(t) => Some((t.name@, (t.name@, t.name_span, None, None))),
        Item::TemplateInstance(t) => Some((t.name@, (t.name@, t.name_span, None, None))),
        Item::Value(v) => Some((v.name@, (v.name@, v.name_span, Some(0u32), Some(1u32)))),
        Item::Class(c) => Some((c.name@, (c.name@, c.name_span, Some(0u32), Some(0u32)))),
        Item::Generic(g) => Some((g.name@, (g.name@, g.name_span, Some(clamp_u32(g.effect.inputs@.len())), Some(clamp_u32(g.effect.outputs@.len()))))),
        _ => None,
    }
}

/// The words the items declare, by lower-cased name, the later winning.
pub open spec fn declared_words(items: Seq<Item>) -> Map<Seq<char>, (Seq<char>, Span, Option<u32>, Option<u32>)>
    decreases items.len(),
{
    if items.len() == 0 {
        Map::empty()
    } else {
        let prev = declared_words(items.drop_last());
        match declared_word(items.last()) {
            Some((n, w)) => prev.insert(text::ascii_lower(n), w),
            None => prev,
        }
    }
}

/// Bind `k` to `w` unless `k` is bound already.
pub open spec fn put_absent<W>(m: Map<Seq<char>, W>, k: Seq<char>, w: W) -> Map<Seq<char>, W> {
    if m.contains_key(k) { m } else { m.insert(k, w) }
}

/// The accessor words of each slot of class `c` (lower-cased `lc`),
/// each added unless its name is taken.
pub open spec fn slot_words(
    m: Map<Seq<char>, (Seq<char>, Span, Option<u32>, Option<u32>)>,
    c: Seq<char>,
    lc: Seq<char>,
    sp: Span,
    slots: Seq<Seq<char>>,
) -> Map<Seq<char>, (Seq<char>, Span, Option<u32>, Option<u32>)>
    decreases slots.len(),
{
    if slots.len() == 0 {
        m
    } else {
        let s = slots.last();
        let m1 = slot_words(m, c, lc, sp, slots.drop_last());
        let m2 = put_absent(m1, lc + ">"@ + s, (c + ">"@ + s, sp, Some(1u32), Some(1u32)));
        let m3 = put_absent(m2, s + ">>"@ + lc, (s + ">>"@ + c, sp, Some(2u32), Some(1u32)));
        put_absent(m3, lc + "."@ + s + "!"@, (c + "."@ + s + "!"@, sp, Some(2u32), Some(0u32)))
    }
}

/// The words each class defines beside its own name, in program order:
/// the constructor `<c>` and the accessors of its slots.
pub open spec fn class_words(
    m: Map<Seq<char>, (Seq<char>, Span, Option<u32>, Option<u32>)>,
    items: Seq<Item>,
    tab: Map<Seq<char>, Seq<Seq<char>>>,
) -> Map<Seq<char>, (Seq<char>, Span, Option<u32>, Option<u32>)>
    decreases items.len(),
{
    if items.len() == 0 {
        m
    } else {
        let prev = class_words(m, items.drop_last(), tab);
        match items.last() {
            Item::Class(c) => {
                let lc = text::ascii_lower(c.name@);
                let sl = slots_of(tab, lc);
                let m1 = put_absent(prev, "<"@ + lc + ">"@, ("<"@ + c.name@ + ">"@, c.name_span, Some(clamp_u32(sl.len())), Some(1u32)));
                slot_words(m1, c.name@, lc, c.name_span, sl)
            },
            _ => prev,
        }
    }
}

fn put_user_word(uw: &mut NameMap<UserWord>, name: &String, def_span: Span, di: Option<u32>, do_: Option<u32>)
    ensures
        uw_map(final(uw)@) == uw_map(old(uw)@).insert(text::ascii_lower(name@), (name@, def_span, di, do_)),
{
    let w = UserWord { name: name.clone(), def_span, declared_inputs: di, declared_outputs: do_ };
    let k = text::to_lower(name.as_str());
    uw.insert(k, w);
    assert(uw_map(uw@) =~= uw_map(old(uw)@).insert(text::ascii_lower(name@), (name@, def_span, di, do_)));
}

fn put_if_absent(uw: &mut NameMap<UserWord>, key: String, name: String, def_span: Span, di: u32, do_: u32)
    ensures
        uw_map(final(uw)@) == put_absent(uw_map(old(uw)@), key@, (name@, def_span, Some(di), Some(do_))),
{
    if !uw.contains(key.as_str()) {
        let ghost kv = key@;
        let ghost w = (name@, def_span, Some(di), Some(do_));
        uw.insert(key, UserWord { name, def_span, declared_inputs: Some(di), declared_outputs: Some(do_) });
        assert(uw_map(uw@) =~= uw_map(old(uw)@).insert(kv, w));
    }
}

fn declare_item(uw: &mut NameMap<UserWord>, it: &Item)
    ensures
        uw_map(final(uw)@) == match declared_word(*it) {
            Some((n, w)) => uw_map(old(uw)@).insert(text::ascii_lower(n), w),
            None => uw_map(old(uw)@),
        },
{
    match it {
        Item::Definition(d) => {
            let (di, do_) = match &d.effect {
                Some(se) => (Some(count_u32(se.inputs.len())), Some(count_u32(se.outputs.len()))),
                None => (None, None),
            };
            put_user_word(uw, &d.name, d.name_span, di, do_);
        },
        Item::Variable(v) => put_user_word(uw, &v.name, v.name_span, None, None),
        Item::Constant(c) => put_user_word(uw, &c.name, c.name_span, None, None),
        Item::Create(c) => put_user_word(uw, &c.name, c.name_span, None, None),
        Item::Collection(c) => put_user_word(uw, &c.name, c.name_span, None, None),
        Item::Template(t) => put_user_word(uw, &t.name, t.name_span, None, None),
        Item::TemplateInstance(t) => put_user_word(uw, &t.name, t.name_span, None, None),
        Item::Value(v) => put_user_word(uw, &v.name, v.name_span, Some(0), Some(1)),
        Item::Class(c) => put_user_word(uw, &c.name, c.name_span, Some(0), Some(0)),
        Item::Generic(g) => put_user_word(
            uw, &g.name, g.name_span,
            Some(count_u32(g.effect.inputs.len())), Some(count_u32(g.effect.outputs.len())),
        ),
        _ => {},
    }
}

fn declare_class_words(uw: &mut NameMap<UserWord>, c: &ClassDef, class_slots: &NameMap<Vec<String>>)
    ensures
        ({
            let lc = text::ascii_lower(c.name@);
            let sl = slots_of(slot_table_view(class_slots@), lc);
            let m1 = put_absent(uw_map(old(uw)@), "<"@ + lc + ">"@, ("<"@ + c.name@ + ">"@, c.name_span, Some(clamp_u32(sl.len())), Some(1u32)));
            uw_map(final(uw)@) == slot_words(m1, c.name@, lc, c.name_span, sl)
        }),
{
    let ghost tab = slot_table_view(class_slots@);
    let lc = text::to_lower(c.name.as_str());
    let empty: Vec<String> = Vec::new();
    let slots = match class_slots.get(lc.as_str()) {
        Some(s) => s,
        None => &empty,
    };
    let ghost sl = slots_of(tab, lc@);
    proof {
        assert(names_view(slots@) =~= sl);
    }
    let n = count_u32(slots.len());
    let mut key = text::owned("<");
    key.push_str(lc.as_str());
    key.push_str(">");
    let mut shown = text::owned("<");
    shown.push_str(c.name.as_str());
    shown.push_str(">");
    put_if_absent(uw, key, shown, c.name_span, n, 1);
    let ghost base = uw_map(uw@);
    let mut k: usize = 0;
    assert(sl.take(0) =~= Seq::<Seq<char>>::empty());
    while k < slots.len()
        invariant
            k <= slots@.len(),
            names_view(slots@) == sl,
            uw_map(uw@) == slot_words(base, c.name@, lc@, c.name_span, sl.take(k as int)),
        decreases slots@.len() - k,
    {
        proof {
            assert(sl.take(k + 1).drop_last() =~= sl.take(k as int));
        }
        let s = &slots[k];
        let mut key = lc.clone();
        key.push_str(">");
        key.push_str(s.as_str());
        let mut shown = c.name.clone();
        shown.push_str(">");
        shown.push_str(s.as_str());
        put_if_absent(uw, key, shown, c.name_span, 1, 1);
        let mut key = s.clone();
        key.push_str(">>");
        key.push_str(lc.as_str());
        let mut shown = s.clone();
        shown.push_str(">>");
        shown.push_str(c.name.as_str());
        put_if_absent(uw, key, shown, c.name_span, 2, 1);
        let mut key = lc.clone();
        key.push_str(".");
        key.push_str(s.as_str());
        key.push_str("!");
        let mut shown = c.name.clone();
        shown.push_str(".");
        shown.push_str(s.as_str());
        shown.push_str("!");
        put_if_absent(uw, key, shown, c.name_span, 2, 0);
        k = k + 1;
    }
    assert(sl.take(slots@.len() as int) =~= sl);
}

/// The user-word table: every declared name, then the words classes
/// define beside their names.
fn collect_user_words(items: &Vec<Item>, class_slots: &NameMap<Vec<String>>) -> (uw: NameMap<UserWord>)
    ensures
        uw_map(uw@) == class_words(declared_words(items@), items@, slot_table_view(class_slots@)),
{
    let mut uw: NameMap<UserWord> = NameMap::new();
    let mut i: usize = 0;
    assert(items@.take(0) =~= Seq::<Item>::empty());
    assert(uw_map(uw@) =~= Map::empty());
    while i < items.len()
        invariant
            i <= items@.len(),
            uw_map(uw@) == declared_words(items@.take(i as int)),
        decreases items@.len() - i,
    {
        proof {
            assert(items@.take(i + 1).drop_last() =~= items@.take(i as int));
        }
        declare_item(&mut uw, &items[i]);
        i = i + 1;
    }
    assert(items@.take(items@.len() as int) =~= items@);
    let ghost dw = uw_map(uw@);
    let mut i: usize = 0;
    while i < items.len()
        invariant
            i <= items@.len(),
            uw_map(uw@) == class_words(dw, items@.take(i as int), slot_table_view(class_slots@)),
        decreases items@.len() - i,
    {
        proof {
            assert(items@.take(i + 1).drop_last() =~= items@.take(i as int));
        }
        match &items[i] {
            Item::Class(c) => declare_class_words(&mut uw, c, class_slots),
            _ => {},
        }
        i = i + 1;
    }
    assert(items@.take(items@.len() as int) =~= items@);
    uw
}

/// A constant's value as values.
pub enum ConstV {
    Int(i64),
    Float(Seq<char>),
    Computed(Seq<ExprV>),
}

pub open spec fn const_value_v(v: ConstValue) -> ConstV {
    match v {
        ConstValue::Int(n) => ConstV::Int(n),
        ConstValue::Float(raw) => ConstV::Float(raw@),
        ConstValue::Computed(ex) => ConstV::Computed(evs(ex@)),
    }
}

pub open spec fn var_v(v: VariableDef) -> (Seq<char>, Span, Span) {
    (v.name@, v.name_span, v.span)
}

pub open spec fn const_v(c: ConstantDef) -> (Seq<char>, Span, ConstV, Span, ConstFlavour) {
    (c.name@, c.name_span, const_value_v(c.value), c.span, c.flavour)
}

pub open spec fn create_v(c: CreateDef) -> (Seq<char>, Span, u32, Span) {
    (c.name@, c.name_span, c.allotted_bytes, c.span)
}

pub open spec fn coll_v(c: CollectionDef) -> (Seq<char>, Span, CollectionKind, u32, Span) {
    (c.name@, c.name_span, c.kind, c.count, c.span)
}

pub open spec fn tmpl_v(t: TemplateDef) -> (
    (Seq<char>, Seq<ExprV>, Seq<ExprV>),
    Span,
    Span,
    Option<(Seq<Seq<char>>, Seq<Seq<char>>, Span)>,
) {
    (tview(t), t.name_span, t.span, effect_v(t.effect))
}

pub open spec fn value_v(v: ValueDef) -> (Seq<char>, Span, Seq<ExprV>, Span) {
    (v.name@, v.name_span, evs(v.initial@), v.span)
}

/// The VARIABLEs by lower-cased name, the later winning.
pub open spec fn var_table(items: Seq<Item>) -> Map<Seq<char>, (Seq<char>, Span, Span)>
    decreases items.len(),
{
    if items.len() == 0 {
        Map::empty()
    } else {
        let m = var_table(items.drop_last());
        match items.last() {
            Item::Variable(v) => m.insert(text::ascii_lower(v.name@), var_v(v)),
            _ => m,
        }
    }
}

/// The constants by lower-cased name, the later winning.
pub open spec fn const_table(items: Seq<Item>) -> Map<Seq<char>, (Seq<char>, Span, ConstV, Span, ConstFlavour)>
    decreases items.len(),
{
    if items.len() == 0 {
        Map::empty()
    } else {
        let m = const_table(items.drop_last());
        match items.last() {
            Item::Constant(c) => m.insert(text::ascii_lower(c.name@), const_v(c)),
            _ => m,
        }
    }
}

/// The CREATEd words by lower-cased name, the later winning.
pub open spec fn create_table(items: Seq<Item>) -> Map<Seq<char>, (Seq<char>, Span, u32, Span)>
    decreases items.len(),
{
    if items.len() == 0 {
        Map::empty()
    } else {
        let m = create_table(items.drop_last());
        match items.last() {
            Item::Create(c) => m.insert(text::ascii_lower(c.name@), create_v(c)),
            _ => m,
        }
    }
}

/// The collections by lower-cased name, the later winning.
pub open spec fn coll_table(items: Seq<Item>) -> Map<Seq<char>, (Seq<char>, Span, CollectionKind, u32, Span)>
    decreases items.len(),
{
    if items.len() == 0 {
        Map::empty()
    } else {
        let m = coll_table(items.drop_last());
        match items.last() {
            Item::Collection(c) => m.insert(text::ascii_lower(c.name@), coll_v(c)),
            _ => m,
        }
    }
}

/// The templates by lower-cased name, the later winning.
pub open spec fn tmpl_table(items: Seq<Item>) -> Map<
    Seq<char>,
    ((Seq<char>, Seq<ExprV>, Seq<ExprV>), Span, Span, Option<(Seq<Seq<char>>, Seq<Seq<char>>, Span)>),
>
    decreases items.len(),
{
    if items.len() == 0 {
        Map::empty()
    } else {
        let m = tmpl_table(items.drop_last());
        match items.last() {
            Item::Template(t) => m.insert(text::ascii_lower(t.name@), tmpl_v(t)),
            _ => m,
        }
    }
}

/// The VALUEs by lower-cased name, the later winning.
pub open spec fn value_table(items: Seq<Item>) -> Map<Seq<char>, (Seq<char>, Span, Seq<ExprV>, Span)>
    decreases items.len(),
{
    if items.len() == 0 {
        Map::empty()
    } else {
        let m = value_table(items.drop_last());
        match items.last() {
            Item::Value(v) => m.insert(text::ascii_lower(v.name@), value_v(v)),
            _ => m,
        }
    }
}

fn copy_variable(v: &VariableDef) -> (c: VariableDef)
    ensures
        var_v(c) == var_v(*v),
{
    VariableDef { name: v.name.clone(), name_span: v.name_span, span: v.span }
}

fn copy_const_value(v: &ConstValue) -> (c: ConstValue)
    ensures
        const_value_v(c) == const_value_v(*v),
{
    match v {
        ConstValue::Int(n) => ConstValue::Int(*n),
        ConstValue::Float(raw) => ConstValue::Float(raw.clone()),
        ConstValue::Computed(ex) => ConstValue::Computed(copy_exprs(ex)),
    }
}

fn copy_constant(c: &ConstantDef) -> (r: ConstantDef)
    ensures
        const_v(r) == const_v(*c),
{
    ConstantDef { name: c.name.clone(), name_span: c.name_span, value: copy_const_value(&c.value), span: c.span, flavour: c.flavour }
}

fn copy_create(c: &CreateDef) -> (r: CreateDef)
    ensures
        create_v(r) == create_v(*c),
{
    CreateDef { name: c.name.clone(), name_span: c.name_span, allotted_bytes: c.allotted_bytes, span: c.span }
}

fn copy_collection(c: &CollectionDef) -> (r: CollectionDef)
    ensures
        coll_v(r) == coll_v(*c),
{
    CollectionDef { name: c.name.clone(), name_span: c.name_span, kind: c.kind, count: c.count, span: c.span }
}

fn copy_value(v: &ValueDef) -> (r: ValueDef)
    ensures
        value_v(r) == value_v(*v),
{
    ValueDef { name: v.name.clone(), name_span: v.name_span, initial: copy_exprs(&v.initial), span: v.span }
}

/// The data-carrying items, each in a table of its own keyed by
/// lower-cased name, the later definition winning.
fn collect_tables(items: &Vec<Item>) -> (r: (
    NameMap<VariableDef>,
    NameMap<ConstantDef>,
    NameMap<CreateDef>,
    NameMap<CollectionDef>,
    NameMap<TemplateDef>,
    NameMap<ValueDef>,
))
    ensures
        r.0@.map_values(|v: VariableDef| var_v(v)) == var_table(items@),
        r.1@.map_values(|c: ConstantDef| const_v(c)) == const_table(items@),
        r.2@.map_values(|c: CreateDef| create_v(c)) == create_table(items@),
        r.3@.map_values(|c: CollectionDef| coll_v(c)) == coll_table(items@),
        r.4@.map_values(|t: TemplateDef| tmpl_v(t)) == tmpl_table(items@),
        r.5@.map_values(|v: ValueDef| value_v(v)) == value_table(items@),
{
    let mut variables: NameMap<VariableDef> = NameMap::new();
    let mut constants: NameMap<ConstantDef> = NameMap::new();
    let mut creates: NameMap<CreateDef> = NameMap::new();
    let mut collections: NameMap<CollectionDef> = NameMap::new();
    let mut templates: NameMap<TemplateDef> = NameMap::new();
    let mut values: NameMap<ValueDef> = NameMap::new();
    let mut i: usize = 0;
    assert(items@.take(0) =~= Seq::<Item>::empty());
    assert(variables@.map_values(|v: VariableDef| var_v(v)) =~= Map::empty());
    assert(constants@.map_values(|c: ConstantDef| const_v(c)) =~= Map::empty());
    assert(creates@.map_values(|c: CreateDef| create_v(c)) =~= Map::empty());
    assert(collections@.map_values(|c: CollectionDef| coll_v(c)) =~= Map::empty());
    assert(templates@.map_values(|t: TemplateDef| tmpl_v(t)) =~= Map::empty());
    assert(values@.map_values(|v: ValueDef| value_v(v)) =~= Map::empty());
    while i < items.len()
        invariant
            i <= items@.len(),
            variables@.map_values(|v: VariableDef| var_v(v)) == var_table(items@.take(i as int)),
            constants@.map_values(|c: ConstantDef| const_v(c)) == const_table(items@.take(i as int)),
            creates@.map_values(|c: CreateDef| create_v(c)) == create_table(items@.take(i as int)),
            collections@.map_values(|c: CollectionDef| coll_v(c)) == coll_table(items@.take(i as int)),
            templates@.map_values(|t: TemplateDef| tmpl_v(t)) == tmpl_table(items@.take(i as int)),
            values@.map_values(|v: ValueDef| value_v(v)) == value_table(items@.take(i as int)),
        decreases items@.len() - i,
    {
        proof {
            assert(items@.take(i + 1).drop_last() =~= items@.take(i as int));
        }
        match &items[i] {
            Item::Variable(v) => {
                let c = copy_variable(v);
                let ghost old_m = variables@;
                variables.insert(text::to_lower(v.name.as_str()), c);
                assert(variables@.map_values(|v: VariableDef| var_v(v)) =~= old_m.map_values(|v: VariableDef| var_v(v)).insert(text::ascii_lower(v.name@), var_v(*v)));
            },
            Item::Constant(c) => {
                let x = copy_constant(c);
                let ghost old_m = constants@;
                constants.insert(text::to_lower(c.name.as_str()), x);
                assert(constants@.map_values(|c: ConstantDef| const_v(c)) =~= old_m.map_values(|c: ConstantDef| const_v(c)).insert(text::ascii_lower(c.name@), const_v(*c)));
            },
            Item::Create(c) => {
                let x = copy_create(c);
                let ghost old_m = creates@;
                creates.insert(text::to_lower(c.name.as_str()), x);
                assert(creates@.map_values(|c: CreateDef| create_v(c)) =~= old_m.map_values(|c: CreateDef| create_v(c)).insert(text::ascii_lower(c.name@), create_v(*c)));
            },
            Item::Collection(c) => {
                let x = copy_collection(c);
                let ghost old_m = collections@;
                collections.insert(text::to_lower(c.name.as_str()), x);
                assert(collections@.map_values(|c: CollectionDef| coll_v(c)) =~= old_m.map_values(|c: CollectionDef| coll_v(c)).insert(text::ascii_lower(c.name@), coll_v(*c)));
            },
            Item::Template(t) => {
                let x = copy_template(t);
                let ghost old_m = templates@;
                templates.insert(text::to_lower(t.name.as_str()), x);
                assert(templates@.map_values(|t: TemplateDef| tmpl_v(t)) =~= old_m.map_values(|t: TemplateDef| tmpl_v(t)).insert(text::ascii_lower(t.name@), tmpl_v(*t)));
            },
            Item::Value(v) => {
                let x = copy_value(v);
                let ghost old_m = values@;
                values.insert(text::to_lower(v.name.as_str()), x);
                assert(values@.map_values(|v: ValueDef| value_v(v)) =~= old_m.map_values(|v: ValueDef| value_v(v)).insert(text::ascii_lower(v.name@), value_v(*v)));
            },
            _ => {},
        }
        i = i + 1;
    }
    assert(items@.take(items@.len() as int) =~= items@);
    (variables, constants, creates, collections, templates, values)
}

/// Whether a table has recorded any entry.
pub open spec fn any_recorded(m: NameMap<TemplateDef>) -> bool {
    m.entries@.len() > 0
}

/// Template expansion of `items` with the earlier templates `prior`
/// (`prior_any` when any was recorded): nothing changes when there is no
/// template at all.
pub open spec fn expanded(items: Seq<Item>, prior: Map<Seq<char>, TemplateDef>, prior_any: bool, p1: Seq<Item>) -> bool {
    if !prior_any && forall|k: int| 0 <= k < items.len() ==> !(#[trigger] items[k] is Template) {
        p1 == items
    } else {
        exp_prog(items, tv_table(prior, items), p1)
    }
}

/// The passes before resolution: template expansion gives `p1`, `?DUP`
/// lowering (spans counted from `SYNTH_BASE`) gives `p2`, `RECURSE`
/// lowering gives `p3`.
pub open spec fn front_passes(
    items: Seq<Item>,
    prior: Map<Seq<char>, TemplateDef>,
    prior_any: bool,
    p1: Seq<Item>,
    p2: Seq<Item>,
    p3: Seq<Item>,
) -> bool {
    &&& expanded(items, prior, prior_any, p1)
    &&& p2.len() == p1.len()
    &&& forall|k: int| 0 <= k < p1.len() ==> qd_item(p1[k], #[trigger] p2[k], qd_count(p1.take(k), SYNTH_BASE))
    &&& p3.len() == p2.len()
    &&& forall|k: int| 0 <= k < p2.len() ==> rc_item(p2[k], #[trigger] p3[k])
}

/// `EXIT` lowering of one item: a definition's body is lowered, every
/// other part of every item is kept.
pub open spec fn exit_item(old: Item, new: Item, t: Seq<(Span, Target)>) -> bool {
    match old {
        Item::Definition(d) => new matches Item::Definition(d2) && d2.name == d.name && d2.name_span == d.name_span
            && d2.effect == d.effect && d2.locals == d.locals && d2.span == d.span
            && evs(d2.body@) == lx_seq(evs(d.body@), t).0,
        _ => new == old,
    }
}

/// The outcome of building from the lowered items `p2` and `p3`: the
/// first definition that uses `RECURSE` without a declared effect is an
/// error; otherwise resolution decides, and on success the program is
/// `p3` with `EXIT` lowered against the resolved targets.
pub open spec fn built_from(
    p2: Seq<Item>,
    p3: Seq<Item>,
    users: Map<Seq<char>, Span>,
    values: Map<Seq<char>, Span>,
    classes: Map<Seq<char>, Vec<String>>,
    r: Result<Sema, ResolveError>,
) -> bool {
    let miss = missing_effects(p2);
    if miss.len() > 0 {
        r matches Err(e) && e@ == ResolveErrorV::RecurseNeedsEffect { word: miss[0].0, at: miss[0].1 }
    } else {
        let slots = class_fold(slot_table_view(classes), p3);
        match resolve_result(p3, users, values, slots) {
            Err(e) => r matches Err(x) && x@ == e,
            Ok((log, _)) => r matches Ok(s) && targets_view(s.word_targets.entries@) == log
                && slot_table_view(s.class_slots@) == slots
                && s.program.items@.len() == p3.len()
                && forall|k: int| 0 <= k < p3.len() ==> exit_item(p3[k], #[trigger] s.program.items@[k], s.word_targets.entries@),
        }
    }
}

/// What a built model states of its final program: body effects and
/// effect diagnostics are the inference over it (seeded with the
/// earlier effects), no definition keeps an `EXIT` outside a loop body,
/// the escape table is right for every variable, the call graph, use
/// sites, callers' effects, user words and item tables are those of the
/// program, and no introspection record is made yet.
pub open spec fn model_of(s: Sema, prior_effects: Map<Seq<char>, Effect>) -> bool {
    let items = s.program.items@;
    let (u, b, errs) = walk(seeded(prior_effects, items), items, s.word_targets.entries@);
    &&& s.body_effects@ == b
    &&& errors_view(s.effect_errors@) == errs
    &&& escape_sound(s.escape@, var_names_of(items), items)
    &&& forall|k: int| 0 <= k < items.len() ==> (#[trigger] items[k] matches Item::Definition(d)
        ==> !block_stray(d.body@, s.word_targets.entries@))
    &&& calls_log(s.call_graph) == prog_calls(items)
    &&& uses_log(s.use_sites) == prog_uses(items)
    &&& s.user_effects@ == class_effects(u, items, slot_table_view(s.class_slots@))
    &&& uw_map(s.user_words@) == class_words(declared_words(items), items, slot_table_view(s.class_slots@))
    &&& s.variables@.map_values(|v: VariableDef| var_v(v)) == var_table(items)
    &&& s.constants@.map_values(|c: ConstantDef| const_v(c)) == const_table(items)
    &&& s.creates@.map_values(|c: CreateDef| create_v(c)) == create_table(items)
    &&& s.collections@.map_values(|c: CollectionDef| coll_v(c)) == coll_table(items)
    &&& s.templates@.map_values(|t: TemplateDef| tmpl_v(t)) == tmpl_table(items)
    &&& s.values@.map_values(|v: ValueDef| value_v(v)) == value_table(items)
    &&& s.docs@ == Map::<Seq<char>, WordDoc>::empty()
}

/// Building the model of `items` given what earlier compiles defined:
/// the result is decided by the front passes, `RECURSE` effects and
/// resolution (`built_from`), and a model states `model_of`.
pub open spec fn build_spec(
    items: Seq<Item>,
    users: Map<Seq<char>, Span>,
    effects: Map<Seq<char>, Effect>,
    templates: Map<Seq<char>, TemplateDef>,
    any_templates: bool,
    values: Map<Seq<char>, Span>,
    classes: Map<Seq<char>, Vec<String>>,
    r: Result<Sema, ResolveError>,
) -> bool {
    &&& r matches Ok(s) ==> model_of(s, effects)
    &&& exists|p1: Seq<Item>, p2: Seq<Item>, p3: Seq<Item>|
        #[trigger] front_passes(items, templates, any_templates, p1, p2, p3) && built_from(p2, p3, users, values, classes, r)
}

/// Build the semantic model, seeded with what earlier compiles of the
/// same session defined: names, effects, templates, VALUE names and
/// class slot lists (`build_spec`).
pub fn build_with_prior_state(
    program: Program,
    prior_user_words: &NameMap<Span>,
    prior_effects: &NameMap<Effect>,
    prior_templates: &NameMap<TemplateDef>,
    prior_values: &NameMap<Span>,
    prior_classes: &NameMap<Vec<String>>,
) -> (r: Result<Sema, ResolveError>)
    ensures
        build_spec(
            program.items@,
            prior_user_words@,
            prior_effects@,
            prior_templates@,
            any_recorded(*prior_templates),
            prior_values@,
            prior_classes@,
            r,
        ),
{
    let ghost items0 = program.items@;
    let program = expand_templates_pre_resolve_with_prior(program, prior_templates);
    let ghost p1 = program.items@;
    let mut next_span: u32 = super::lower_qdup::SYNTH_BASE;
    let program = super::lower_qdup::lower_program(program, &mut next_span);
    let ghost p2 = program.items@;
    let (program, missing) = super::lower_recurse::lower_program(program);
    let ghost p3 = program.items@;
    proof {
        assert(front_passes(items0, prior_templates@, any_recorded(*prior_templates), p1, p2, p3));
    }
    if missing.len() > 0 {
        proof {
            assert(missing@.map_values(|m: super::lower_recurse::MissingRecurseEffect| (m.word_name@, m.at))[0] == missing_effects(p2)[0]);
        }
        let r = Err(ResolveError::RecurseNeedsEffect { word: missing[0].word_name.clone(), at: missing[0].at });
        proof {
            assert(built_from(p2, p3, prior_user_words@, prior_values@, prior_classes@, r));
        }
        return r;
    }
    let class_slots = compute_class_slots(&program.items, prior_classes);
    let resolved = match resolve_with_prior_and_values_and_classes(program, prior_user_words, prior_values, &class_slots) {
        Ok(x) => x,
        Err(e) => {
            let r = Err(e);
            proof {
                assert(built_from(p2, p3, prior_user_words@, prior_values@, prior_classes@, r));
            }
            return r;
        },
    };
    let word_targets = resolved.word_targets;
    let mut items = resolved.program.items;
    let n = items.len();
    let mut i: usize = 0;
    while i < n
        invariant
            n == items@.len(),
            i <= n,
            p3.len() == n,
            forall|k: int| 0 <= k < i ==> (#[trigger] items@[k] matches Item::Definition(d)
                ==> !block_stray(d.body@, word_targets.entries@)),
            forall|k: int| 0 <= k < i ==> exit_item(p3[k], #[trigger] items@[k], word_targets.entries@),
            forall|k: int| i <= k < n ==> #[trigger] items@[k] == p3[k],
        decreases n - i,
    {
        let item = items.remove(i);
        let new_item = match item {
            Item::Definition(mut d) => {
                d.body = super::lower_exit::lower_body(&d.body, &word_targets);
                Item::Definition(d)
            },
            other => other,
        };
        items.insert(i, new_item);
        i = i + 1;
    }
    let ghost fin = items@;
    let (inferred, effect_errors) = infer_with_prior(&items, &word_targets, prior_effects);
    let mut user_effects = inferred.user_effects;
    seed_class_effects(&items, &class_slots, &mut user_effects);
    let user_words = collect_user_words(&items, &class_slots);
    let (variables, constants, creates, collections, templates, values) = collect_tables(&items);
    let escape = escape_table(&items);
    let (call_graph, use_sites) = analyse_call_graph(&items);
    let r = Ok(Sema {
        program: Program { items },
        word_targets,
        user_words,
        variables,
        constants,
        creates,
        collections,
        templates,
        values,
        class_slots,
        user_effects,
        body_effects: inferred.body_effects,
        effect_errors,
        call_graph,
        use_sites,
        escape,
        docs: NameMap::new(),
    });
    proof {
        assert(built_from(p2, p3, prior_user_words@, prior_values@, prior_classes@, r));
    }
    r
}

/// As [`build_with_prior_state`], with no prior VALUE names or classes.
pub fn build_with_prior_and_templates(
    program: Program,
    prior_user_words: &NameMap<Span>,
    prior_effects: &NameMap<Effect>,
    prior_templates: &NameMap<TemplateDef>,
) -> (r: Result<Sema, ResolveError>)
    ensures
        build_spec(
            program.items@,
            prior_user_words@,
            prior_effects@,
            prior_templates@,
            any_recorded(*prior_templates),
            Map::empty(),
            Map::empty(),
            r,
        ),
{
    let values: NameMap<Span> = NameMap::new();
    let classes: NameMap<Vec<String>> = NameMap::new();
    build_with_prior_state(program, prior_user_words, prior_effects, prior_templates, &values, &classes)
}

/// As [`build_with_prior_state`], with names and effects of earlier
/// compiles only.
pub fn build_with_prior(
    program: Program,
    prior_user_words: &NameMap<Span>,
    prior_effects: &NameMap<Effect>,
) -> (r: Result<Sema, ResolveError>)
    ensures
        build_spec(program.items@, prior_user_words@, prior_effects@, Map::empty(), false, Map::empty(), Map::empty(), r),
{
    let templates: NameMap<TemplateDef> = NameMap::new();
    let r = build_with_prior_and_templates(program, prior_user_words, prior_effects, &templates);
    assert(!any_recorded(templates));
    r
}

/// Build the semantic model of a program on its own.
pub fn build(program: Program) -> (r: Result<Sema, ResolveError>)
    ensures
        build_spec(program.items@, Map::empty(), Map::empty(), Map::empty(), false, Map::empty(), Map::empty(), r),
{
    let names: NameMap<Span> = NameMap::new();
    let effects: NameMap<Effect> = NameMap::new();
    let r = build_with_prior(program, &names, &effects);
    assert(effects@ =~= Map::<Seq<char>, Effect>::empty());
    assert(names@ =~= Map::<Seq<char>, Span>::empty());
    r
}

} // verus!
