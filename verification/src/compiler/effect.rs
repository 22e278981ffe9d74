//! Stack-effect inference.
//!
//! `Effect::Known { inputs, outputs }` means "consumes `inputs` items
//! from the data stack and leaves `outputs` items in their place".
//! Straight-line bodies compose exactly with [`Effect::then`].  Bodies
//! holding `IF`, `BEGIN`, `DO` or `CASE` give `Unknown`, and their
//! declared effect is trusted without a check.
use vstd::prelude::*;
use crate::text;
use super::ast::{Definition, Expr, Item, Literal};
use super::error::{Span, push_pos, pos_text};
use super::lex::StringKind;
use super::names::{NameMap, lookup_static, static_view, table_get};
use super::resolve::{Resolved, Target, Targets, span_target};

verus! {

/// Net stack effect: consume `inputs`, leave `outputs`.  `Unknown`
/// means the analyser could not derive one.
#[derive(Clone, Copy, Debug, PartialEq, Eq, Structural)]
pub enum Effect {
    Known { inputs: u32, outputs: u32 },
    Unknown,
}

/// Sequential composition of two effects, over unbounded counts.
/// When the first leaves at least what the second consumes, the second
/// eats into those outputs; otherwise it dips below the first's inputs.
pub open spec fn compose(a: Effect, b: Effect) -> Effect {
    match (a, b) {
        (Effect::Known { inputs: ai, outputs: ao }, Effect::Known { inputs: bi, outputs: bo }) => {
            if ao >= bi {
                Effect::Known { inputs: ai, outputs: (ao - bi + bo) as u32 }
            } else {
                Effect::Known { inputs: (ai + (bi - ao)) as u32, outputs: bo }
            }
        },
        _ => Effect::Unknown,
    }
}

/// The composition's counts fit in `u32`.
pub open spec fn compose_fits(a: Effect, b: Effect) -> bool {
    match (a, b) {
        (Effect::Known { inputs: ai, outputs: ao }, Effect::Known { inputs: bi, outputs: bo }) => {
            if ao >= bi { ao - bi + bo <= u32::MAX } else { ai + (bi - ao) <= u32::MAX }
        },
        _ => true,
    }
}

impl Effect {
    /// `Effect::Known { inputs, outputs }`.
    pub fn known(inputs: u32, outputs: u32) -> (e: Effect)
        ensures
            e == (Effect::Known { inputs, outputs }),
    {
        Effect::Known { inputs, outputs }
    }

    /// Compose `self` followed by `next`.  Unknown if either side is.
    pub fn then(self, next: Effect) -> (r: Effect)
        requires
            compose_fits(self, next),
        ensures
            r == compose(self, next),
    {
        match (self, next) {
            (Effect::Known { inputs: ai, outputs: ao }, Effect::Known { inputs: bi, outputs: bo }) => {
                if ao >= bi {
                    Effect::Known { inputs: ai, outputs: ao - bi + bo }
                } else {
                    Effect::Known { inputs: ai + (bi - ao), outputs: bo }
                }
            },
            _ => Effect::Unknown,
        }
    }

    /// `"( I -- O )"` for a known effect, `"( ? )"` otherwise.
    pub fn render(&self) -> (s: String)
        ensures
            s@ == effect_text(*self),
    {
        let mut out = String::new();
        match self {
            Effect::Known { inputs, outputs } => {
                out.push_str("( ");
                text::push_decimal(&mut out, *inputs as u64);
                out.push_str(" -- ");
                text::push_decimal(&mut out, *outputs as u64);
                out.push_str(" )");
            },
            Effect::Unknown => {
                out.push_str("( ? )");
            },
        }
        assert(out@ =~= effect_text(*self));
        out
    }
}

/// Display form of an effect.
pub open spec fn effect_text(e: Effect) -> Seq<char> {
    match e {
        Effect::Known { inputs, outputs } =>
            "( "@ + text::nat_decimal(inputs as nat) + " -- "@ + text::nat_decimal(outputs as nat) + " )"@,
        Effect::Unknown => "( ? )"@,
    }
}

/// Net change of stack depth of a known effect.
pub open spec fn net(e: Effect) -> int {
    match e {
        Effect::Known { inputs, outputs } => outputs - inputs,
        Effect::Unknown => 0,
    }
}

/// The empty effect `( 0 -- 0 )` is a left and right identity of
/// composition.
pub proof fn lemma_compose_identity(e: Effect)
    ensures
        compose(Effect::Known { inputs: 0, outputs: 0 }, e) == e,
        compose(e, Effect::Known { inputs: 0, outputs: 0 }) == e,
{
}

/// `Unknown` absorbs composition on either side.
pub proof fn lemma_compose_unknown(e: Effect)
    ensures
        compose(Effect::Unknown, e) == Effect::Unknown,
        compose(e, Effect::Unknown) == Effect::Unknown,
{
}

/// Composition of known effects adds their net stack-depth changes,
/// and needs at least as many inputs as the first effect.
pub proof fn lemma_compose_net(a: Effect, b: Effect)
    requires
        a is Known,
        b is Known,
        compose_fits(a, b),
    ensures
        compose(a, b) is Known,
        net(compose(a, b)) == net(a) + net(b),
        compose(a, b)->inputs >= a->inputs,
{
}

/// The stack depth after running code of effect `e` from depth `d`;
/// `None` when the stack is too shallow for it, or the effect unknown.
pub open spec fn run_depth(e: Effect, d: int) -> Option<int> {
    match e {
        Effect::Known { inputs, outputs } => if d >= inputs { Some(d - inputs + outputs) } else { None },
        Effect::Unknown => None,
    }
}

/// Composing two known effects is running one after the other: from
/// any depth the composite runs exactly when the first runs and the
/// second then can, and it leaves the depth the second leaves.
pub proof fn lemma_compose_runs(a: Effect, b: Effect, d: int)
    requires
        a is Known,
        b is Known,
        compose_fits(a, b),
    ensures
        run_depth(compose(a, b), d) == match run_depth(a, d) {
            Some(d1) => run_depth(b, d1),
            None => None,
        },
{
}

/// Composition is associative whenever every intermediate count fits,
/// so a body's effect does not depend on how it is grouped.
pub proof fn lemma_compose_assoc(a: Effect, b: Effect, c: Effect)
    requires
        compose_fits(a, b),
        compose_fits(b, c),
        compose_fits(compose(a, b), c),
        compose_fits(a, compose(b, c)),
    ensures
        compose(compose(a, b), c) == compose(a, compose(b, c)),
{
}

// ─── Builtin effects ───────────────────────────────────────────────────────

/// The data-stack effect of every ANS builtin the inference knows.
pub open spec fn builtin_effect_table() -> Seq<(Seq<char>, Effect)> {
    seq![
        ("dup"@, Effect::Known { inputs: 1, outputs: 2 }),
        ("drop"@, Effect::Known { inputs: 1, outputs: 0 }),
        ("swap"@, Effect::Known { inputs: 2, outputs: 2 }),
        ("over"@, Effect::Known { inputs: 2, outputs: 3 }),
        ("rot"@, Effect::Known { inputs: 3, outputs: 3 }),
        ("nip"@, Effect::Known { inputs: 2, outputs: 1 }),
        ("tuck"@, Effect::Known { inputs: 2, outputs: 3 }),
        ("+"@, Effect::Known { inputs: 2, outputs: 1 }),
        ("-"@, Effect::Known { inputs: 2, outputs: 1 }),
        ("*"@, Effect::Known { inputs: 2, outputs: 1 }),
        ("/"@, Effect::Known { inputs: 2, outputs: 1 }),
        ("mod"@, Effect::Known { inputs: 2, outputs: 1 }),
        ("negate"@, Effect::Known { inputs: 1, outputs: 1 }),
        ("="@, Effect::Known { inputs: 2, outputs: 1 }),
        ("<>"@, Effect::Known { inputs: 2, outputs: 1 }),
        ("<"@, Effect::Known { inputs: 2, outputs: 1 }),
        (">"@, Effect::Known { inputs: 2, outputs: 1 }),
        ("<="@, Effect::Known { inputs: 2, outputs: 1 }),
        (">="@, Effect::Known { inputs: 2, outputs: 1 }),
        ("0="@, Effect::Known { inputs: 1, outputs: 1 }),
        ("0<"@, Effect::Known { inputs: 1, outputs: 1 }),
        ("0>"@, Effect::Known { inputs: 1, outputs: 1 }),
        ("and"@, Effect::Known { inputs: 2, outputs: 1 }),
        ("or"@, Effect::Known { inputs: 2, outputs: 1 }),
        ("xor"@, Effect::Known { inputs: 2, outputs: 1 }),
        ("invert"@, Effect::Known { inputs: 1, outputs: 1 }),
        ("i"@, Effect::Known { inputs: 0, outputs: 1 }),
        ("j"@, Effect::Known { inputs: 0, outputs: 1 }),
        ("leave"@, Effect::Known { inputs: 0, outputs: 0 }),
        ("unloop"@, Effect::Known { inputs: 0, outputs: 0 }),
        ("."@, Effect::Known { inputs: 1, outputs: 0 }),
        ("cr"@, Effect::Known { inputs: 0, outputs: 0 }),
        ("emit"@, Effect::Known { inputs: 1, outputs: 0 }),
        ("space"@, Effect::Known { inputs: 0, outputs: 0 }),
        ("@"@, Effect::Known { inputs: 1, outputs: 1 }),
        ("!"@, Effect::Known { inputs: 2, outputs: 0 }),
        ("c@"@, Effect::Known { inputs: 1, outputs: 1 }),
        ("c!"@, Effect::Known { inputs: 2, outputs: 0 }),
        ("+!"@, Effect::Known { inputs: 2, outputs: 0 }),
    ]
}

/// The stack diagrams of the ANS standard for the builtins above, word
/// by word: the items the word takes, then the items it leaves, named
/// as the standard names them (`( x1 x2 -- x1 x2 x1 )` for `OVER`).
pub open spec fn ans_stack_diagrams() -> Seq<(Seq<char>, Seq<Seq<char>>, Seq<Seq<char>>)> {
    seq![
        ("dup"@, seq!["x"@], seq!["x"@, "x"@]),
        ("drop"@, seq!["x"@], Seq::empty()),
        ("swap"@, seq!["x1"@, "x2"@], seq!["x2"@, "x1"@]),
        ("over"@, seq!["x1"@, "x2"@], seq!["x1"@, "x2"@, "x1"@]),
        ("rot"@, seq!["x1"@, "x2"@, "x3"@], seq!["x2"@, "x3"@, "x1"@]),
        ("nip"@, seq!["x1"@, "x2"@], seq!["x2"@]),
        ("tuck"@, seq!["x1"@, "x2"@], seq!["x2"@, "x1"@, "x2"@]),
        ("+"@, seq!["n1"@, "n2"@], seq!["n3"@]),
        ("-"@, seq!["n1"@, "n2"@], seq!["n3"@]),
        ("*"@, seq!["n1"@, "n2"@], seq!["n3"@]),
        ("/"@, seq!["n1"@, "n2"@], seq!["n3"@]),
        ("mod"@, seq!["n1"@, "n2"@], seq!["n3"@]),
        ("negate"@, seq!["n1"@], seq!["n2"@]),
        ("="@, seq!["x1"@, "x2"@], seq!["flag"@]),
        ("<>"@, seq!["x1"@, "x2"@], seq!["flag"@]),
        ("<"@, seq!["n1"@, "n2"@], seq!["flag"@]),
        (">"@, seq!["n1"@, "n2"@], seq!["flag"@]),
        ("<="@, seq!["n1"@, "n2"@], seq!["flag"@]),
        (">="@, seq!["n1"@, "n2"@], seq!["flag"@]),
        ("0="@, seq!["x"@], seq!["flag"@]),
        ("0<"@, seq!["n"@], seq!["flag"@]),
        ("0>"@, seq!["n"@], seq!["flag"@]),
        ("and"@, seq!["x1"@, "x2"@], seq!["x3"@]),
        ("or"@, seq!["x1"@, "x2"@], seq!["x3"@]),
        ("xor"@, seq!["x1"@, "x2"@], seq!["x3"@]),
        ("invert"@, seq!["x1"@], seq!["x2"@]),
        ("i"@, Seq::empty(), seq!["n"@]),
        ("j"@, Seq::empty(), seq!["n"@]),
        ("leave"@, Seq::empty(), Seq::empty()),
        ("unloop"@, Seq::empty(), Seq::empty()),
        ("."@, seq!["n"@], Seq::empty()),
        ("cr"@, Seq::empty(), Seq::empty()),
        ("emit"@, seq!["x"@], Seq::empty()),
        ("space"@, Seq::empty(), Seq::empty()),
        ("@"@, seq!["a-addr"@], seq!["x"@]),
        ("!"@, seq!["x"@, "a-addr"@], Seq::empty()),
        ("c@"@, seq!["c-addr"@], seq!["char"@]),
        ("c!"@, seq!["char"@, "c-addr"@], Seq::empty()),
        ("+!"@, seq!["n"@, "a-addr"@], Seq::empty()),
    ]
}

/// The effect a stack diagram shows: as many inputs as items before
/// `--`, as many outputs as items after it.
pub open spec fn diagram_effect(d: (Seq<char>, Seq<Seq<char>>, Seq<Seq<char>>)) -> (Seq<char>, Effect) {
    (d.0, Effect::Known { inputs: d.1.len() as u32, outputs: d.2.len() as u32 })
}

/// Every builtin's effect is the one its ANS stack diagram shows, word
/// for word, and the table holds exactly the words with a diagram.
pub proof fn lemma_builtin_effects_follow_diagrams()
    ensures
        builtin_effect_table() == ans_stack_diagrams().map_values(|d| diagram_effect(d)),
{
    assert(builtin_effect_table() =~= ans_stack_diagrams().map_values(|d| diagram_effect(d)));
}

/// The effect of a builtin, by lower-cased name.
pub open spec fn builtin_effect(lc: Seq<char>) -> Option<Effect> {
    table_get(builtin_effect_table(), lc)
}

/// The table of builtin effects, keyed by lower-cased ANS name.
pub fn builtin_effects() -> (t: Vec<(&'static str, Effect)>)
    ensures
        static_view(t@) == builtin_effect_table(),
{
    let mut t: Vec<(&'static str, Effect)> = Vec::new();
    t.push(("dup", Effect::Known { inputs: 1, outputs: 2 }));
    t.push(("drop", Effect::Known { inputs: 1, outputs: 0 }));
    t.push(("swap", Effect::Known { inputs: 2, outputs: 2 }));
    t.push(("over", Effect::Known { inputs: 2, outputs: 3 }));
    t.push(("rot", Effect::Known { inputs: 3, outputs: 3 }));
    t.push(("nip", Effect::Known { inputs: 2, outputs: 1 }));
    t.push(("tuck", Effect::Known { inputs: 2, outputs: 3 }));
    t.push(("+", Effect::Known { inputs: 2, outputs: 1 }));
    t.push(("-", Effect::Known { inputs: 2, outputs: 1 }));
    t.push(("*", Effect::Known { inputs: 2, outputs: 1 }));
    t.push(("/", Effect::Known { inputs: 2, outputs: 1 }));
    t.push(("mod", Effect::Known { inputs: 2, outputs: 1 }));
    t.push(("negate", Effect::Known { inputs: 1, outputs: 1 }));
    t.push(("=", Effect::Known { inputs: 2, outputs: 1 }));
    t.push(("<>", Effect::Known { inputs: 2, outputs: 1 }));
    t.push(("<", Effect::Known { inputs: 2, outputs: 1 }));
    t.push((">", Effect::Known { inputs: 2, outputs: 1 }));
    t.push(("<=", Effect::Known { inputs: 2, outputs: 1 }));
    t.push((">=", Effect::Known { inputs: 2, outputs: 1 }));
    t.push(("0=", Effect::Known { inputs: 1, outputs: 1 }));
    t.push(("0<", Effect::Known { inputs: 1, outputs: 1 }));
    t.push(("0>", Effect::Known { inputs: 1, outputs: 1 }));
    t.push(("and", Effect::Known { inputs: 2, outputs: 1 }));
    t.push(("or", Effect::Known { inputs: 2, outputs: 1 }));
    t.push(("xor", Effect::Known { inputs: 2, outputs: 1 }));
    t.push(("invert", Effect::Known { inputs: 1, outputs: 1 }));
    t.push(("i", Effect::Known { inputs: 0, outputs: 1 }));
    t.push(("j", Effect::Known { inputs: 0, outputs: 1 }));
    t.push(("leave", Effect::Known { inputs: 0, outputs: 0 }));
    t.push(("unloop", Effect::Known { inputs: 0, outputs: 0 }));
    t.push((".", Effect::Known { inputs: 1, outputs: 0 }));
    t.push(("cr", Effect::Known { inputs: 0, outputs: 0 }));
    t.push(("emit", Effect::Known { inputs: 1, outputs: 0 }));
    t.push(("space", Effect::Known { inputs: 0, outputs: 0 }));
    t.push(("@", Effect::Known { inputs: 1, outputs: 1 }));
    t.push(("!", Effect::Known { inputs: 2, outputs: 0 }));
    t.push(("c@", Effect::Known { inputs: 1, outputs: 1 }));
    t.push(("c!", Effect::Known { inputs: 2, outputs: 0 }));
    t.push(("+!", Effect::Known { inputs: 2, outputs: 0 }));
    assert(static_view(t@) =~= builtin_effect_table());
    t
}

// ─── Inference ─────────────────────────────────────────────────────────────

/// One step of a left-to-right walk: compose, or give up (Unknown) when
/// the counts would leave `u32`.
pub open spec fn step(acc: Effect, one: Effect) -> Effect {
    if compose_fits(acc, one) { compose(acc, one) } else { Effect::Unknown }
}

fn step_exec(acc: Effect, one: Effect) -> (r: Effect)
    ensures
        r == step(acc, one),
{
    match (acc, one) {
        (Effect::Known { inputs: ai, outputs: ao }, Effect::Known { inputs: bi, outputs: bo }) => {
            if ao >= bi {
                if bo as u64 + (ao - bi) as u64 > u32::MAX as u64 {
                    return Effect::Unknown;
                }
                Effect::Known { inputs: ai, outputs: ao - bi + bo }
            } else {
                if ai as u64 + (bi - ao) as u64 > u32::MAX as u64 {
                    return Effect::Unknown;
                }
                Effect::Known { inputs: ai + (bi - ao), outputs: bo }
            }
        },
        _ => Effect::Unknown,
    }
}

/// The effect of a literal.  `."` prints and leaves nothing; `S"` leaves
/// an address and a length; every other literal leaves one item.
pub open spec fn lit_effect(l: Literal) -> Effect {
    match l {
        Literal::Str { kind, .. } => match kind {
            StringKind::DotQuote => Effect::Known { inputs: 0, outputs: 0 },
            StringKind::SQuote => Effect::Known { inputs: 0, outputs: 2 },
            _ => Effect::Known { inputs: 0, outputs: 1 },
        },
        _ => Effect::Known { inputs: 0, outputs: 1 },
    }
}

/// The effect of a word reference: a user word's known effect when the
/// reference resolved to a user word, else the builtin table's entry.
pub open spec fn word_effect(
    name: Seq<char>,
    sp: Span,
    user: Map<Seq<char>, Effect>,
    targets: Seq<(Span, Target)>,
) -> Effect {
    let lc = text::ascii_lower(name);
    if span_target(targets, sp) matches Some(Target::UserDefined { .. }) {
        if user.contains_key(lc) { user[lc] } else { Effect::Unknown }
    } else {
        match builtin_effect(lc) {
            Some(e) => e,
            None => Effect::Unknown,
        }
    }
}

/// `( a -- b )` counts of a sequence length, when they fit.
pub open spec fn count_fits(n: nat) -> bool {
    n <= u32::MAX
}

/// The effect of one expression.  Control structures (`IF`, `BEGIN`,
/// `DO`, `CASE`) are not analysed: they give `Unknown`, so a body that
/// holds one is `Unknown` and its declared effect is trusted unchecked.
pub open spec fn expr_effect(e: Expr, user: Map<Seq<char>, Effect>, targets: Seq<(Span, Target)>) -> Effect {
    match e {
        Expr::Lit(l) => lit_effect(l),
        Expr::WordRef { name, span } => word_effect(name@, span, user, targets),
        Expr::If { .. } | Expr::BeginUntil { .. } | Expr::BeginWhileRepeat { .. } | Expr::BeginAgain { .. }
        | Expr::DoLoop { .. } | Expr::Case { .. } => Effect::Unknown,
        Expr::Tick { .. } => Effect::Known { inputs: 0, outputs: 1 },
        Expr::To { .. } => Effect::Known { inputs: 1, outputs: 0 },
        Expr::See { .. } => Effect::Known { inputs: 0, outputs: 0 },
        Expr::LetForm { form, .. } =>
            if count_fits(form.inputs@.len()) && count_fits(form.outputs@.len()) {
                Effect::Known { inputs: form.inputs@.len() as u32, outputs: form.outputs@.len() as u32 }
            } else {
                Effect::Unknown
            },
    }
}

/// The effect of a body: its expressions composed left to right,
/// starting from `( 0 -- 0 )`.
pub open spec fn block_effect(s: Seq<Expr>, user: Map<Seq<char>, Effect>, targets: Seq<(Span, Target)>) -> Effect
    decreases s,
{
    if s.len() == 0 {
        Effect::Known { inputs: 0, outputs: 0 }
    } else {
        step(block_effect(s.drop_last(), user, targets), expr_effect(s.last(), user, targets))
    }
}

fn lit_effect_exec(l: &Literal) -> (r: Effect)
    ensures
        r == lit_effect(*l),
{
    match l {
        Literal::Str { kind, .. } => match kind {
            StringKind::DotQuote => Effect::known(0, 0),
            StringKind::SQuote => Effect::known(0, 2),
            _ => Effect::known(0, 1),
        },
        _ => Effect::known(0, 1),
    }
}

fn word_effect_exec(
    name: &String,
    sp: Span,
    builtins: &Vec<(&'static str, Effect)>,
    user: &NameMap<Effect>,
    targets: &Targets,
) -> (r: Effect)
    requires
        static_view(builtins@) == builtin_effect_table(),
    ensures
        r == word_effect(name@, sp, user@, targets.entries@),
{
    let lc = text::to_lower(name.as_str());
    let is_user = match targets.get(sp) {
        Some(Target::UserDefined { .. }) => true,
        _ => false,
    };
    if is_user {
        match user.get(lc.as_str()) {
            Some(e) => *e,
            None => Effect::Unknown,
        }
    } else {
        match lookup_static(builtins, lc.as_str()) {
            Some(e) => e,
            None => Effect::Unknown,
        }
    }
}

/// The effect of one expression (see [`expr_effect`]).
fn effect_of_expr(
    e: &Expr,
    builtins: &Vec<(&'static str, Effect)>,
    user: &NameMap<Effect>,
    targets: &Targets,
) -> (r: Effect)
    requires
        static_view(builtins@) == builtin_effect_table(),
    ensures
        r == expr_effect(*e, user@, targets.entries@),
{
    match e {
        Expr::Lit(l) => lit_effect_exec(l),
        Expr::WordRef { name, span } => word_effect_exec(name, *span, builtins, user, targets),
        Expr::If { .. } | Expr::BeginUntil { .. } | Expr::BeginWhileRepeat { .. } | Expr::BeginAgain { .. }
        | Expr::DoLoop { .. } | Expr::Case { .. } => Effect::Unknown,
        Expr::Tick { .. } => Effect::known(0, 1),
        Expr::To { .. } => Effect::known(1, 0),
        Expr::See { .. } => Effect::known(0, 0),
        Expr::LetForm { form, .. } => {
            let ni = form.inputs.len();
            let no = form.outputs.len();
            if ni as u64 <= u32::MAX as u64 && no as u64 <= u32::MAX as u64 {
                Effect::known(ni as u32, no as u32)
            } else {
                Effect::Unknown
            }
        },
    }
}

/// Walk a body and return its net effect (see [`block_effect`]).
fn infer_block(
    exprs: &Vec<Expr>,
    builtins: &Vec<(&'static str, Effect)>,
    user: &NameMap<Effect>,
    targets: &Targets,
) -> (r: Effect)
    requires
        static_view(builtins@) == builtin_effect_table(),
    ensures
        r == block_effect(exprs@, user@, targets.entries@),
{
    let mut acc = Effect::known(0, 0);
    let mut i: usize = 0;
    assert(exprs@.take(0) =~= Seq::<Expr>::empty());
    while i < exprs.len()
        invariant
            i <= exprs@.len(),
            static_view(builtins@) == builtin_effect_table(),
            acc == block_effect(exprs@.take(i as int), user@, targets.entries@),
        decreases exprs@.len() - i,
    {
        let one = effect_of_expr(&exprs[i], builtins, user, targets);
        acc = step_exec(acc, one);
        proof {
            let t = exprs@.take(i + 1);
            assert(t.drop_last() =~= exprs@.take(i as int));
            assert(t.last() == exprs@[i as int]);
        }
        i = i + 1;
    }
    assert(exprs@.take(i as int) =~= exprs@);
    acc
}

// ─── Diagnostics ───────────────────────────────────────────────────────────

/// A definition whose declared annotation disagrees with its body.
#[derive(Debug, PartialEq)]
pub enum EffectError {
    Mismatch { name: String, at: Span, declared: (u32, u32), inferred: (u32, u32) },
}

impl Clone for EffectError {
    fn clone(&self) -> (r: Self)
        ensures
            r@ == self@,
    {
        match self {
            EffectError::Mismatch { name, at, declared, inferred } => EffectError::Mismatch {
                name: name.clone(),
                at: *at,
                declared: (declared.0, declared.1),
                inferred: (inferred.0, inferred.1),
            },
        }
    }
}

/// Model of an effect diagnostic.
pub struct EffectErrorV {
    pub name: Seq<char>,
    pub at: Span,
    pub declared: (u32, u32),
    pub inferred: (u32, u32),
}

impl View for EffectError {
    type V = EffectErrorV;

    open spec fn view(&self) -> EffectErrorV {
        match self {
            EffectError::Mismatch { name, at, declared, inferred } =>
                EffectErrorV { name: name@, at: *at, declared: *declared, inferred: *inferred },
        }
    }
}

/// `"item"` for one, `"items "` otherwise.
pub open spec fn items_word(n: u32) -> Seq<char> {
    if n == 1 { "item"@ } else { "items "@ }
}

/// The message of an effect diagnostic.
pub open spec fn effect_error_text(e: EffectErrorV) -> Seq<char> {
    "`"@ + e.name + "` at "@ + pos_text(e.at.start) + ": declared ( -- "@
        + text::nat_decimal(e.declared.1 as nat) + " "@ + items_word(e.declared.1)
        + ") but body produces ( -- "@ + text::nat_decimal(e.inferred.1 as nat) + " "@
        + items_word(e.inferred.1) + ")"@
        + (if e.declared.0 != e.inferred.0 {
            "; also consumes "@ + text::nat_decimal(e.inferred.0 as nat) + " (declared "@
                + text::nat_decimal(e.declared.0 as nat) + ")"@
        } else {
            Seq::empty()
        })
}

fn push_items_word(out: &mut String, n: u32)
    ensures
        final(out)@ == old(out)@ + items_word(n),
{
    if n == 1 {
        out.push_str("item");
    } else {
        out.push_str("items ");
    }
}

impl EffectError {
    /// The ready-to-print message.
    pub fn message(&self) -> (s: String)
        ensures
            s@ == effect_error_text(self@),
    {
        match self {
            EffectError::Mismatch { name, at, declared, inferred } => {
                let mut out = String::new();
                out.push_str("`");
                out.push_str(name.as_str());
                out.push_str("` at ");
                push_pos(&mut out, at.start);
                out.push_str(": declared ( -- ");
                text::push_decimal(&mut out, declared.1 as u64);
                out.push_str(" ");
                push_items_word(&mut out, declared.1);
                out.push_str(") but body produces ( -- ");
                text::push_decimal(&mut out, inferred.1 as u64);
                out.push_str(" ");
                push_items_word(&mut out, inferred.1);
                out.push_str(")");
                let ghost mid = out@;
                if declared.0 != inferred.0 {
                    out.push_str("; also consumes ");
                    text::push_decimal(&mut out, inferred.0 as u64);
                    out.push_str(" (declared ");
                    text::push_decimal(&mut out, declared.0 as u64);
                    out.push_str(")");
                } else {
                    assert(out@ =~= mid + Seq::<char>::empty());
                }
                assert(out@ =~= effect_error_text(self@));
                out
            },
        }
    }
}

/// The declared counts of a definition's annotation.
pub open spec fn declared_counts(d: Definition) -> Option<(u32, u32)> {
    match d.effect {
        Some(se) => Some((se.inputs@.len() as u32, se.outputs@.len() as u32)),
        None => None,
    }
}

/// The diagnostic, if any, for a definition whose body has effect `b`:
/// both sides known and different.
pub open spec fn mismatch(d: Definition, b: Effect) -> Option<EffectErrorV> {
    match (declared_counts(d), b) {
        (Some(dc), Effect::Known { inputs, outputs }) =>
            if dc != (inputs, outputs) {
                Some(EffectErrorV { name: d.name@, at: d.name_span, declared: dc, inferred: (inputs, outputs) })
            } else {
                None
            },
        _ => None,
    }
}

/// The model of a diagnostic list.
pub open spec fn errors_view(v: Seq<EffectError>) -> Seq<EffectErrorV> {
    v.map_values(|e: EffectError| e@)
}

/// Compare a definition's declared and inferred effects; a mismatch is
/// appended to `errors`.
pub fn check_definition(d: &Definition, body_eff: Effect, errors: &mut Vec<EffectError>)
    ensures
        errors_view(final(errors)@) == match mismatch(*d, body_eff) {
            Some(m) => errors_view(old(errors)@).push(m),
            None => errors_view(old(errors)@),
        },
{
    let se = match &d.effect {
        Some(se) => se,
        None => {
            assert(errors_view(errors@) =~= errors_view(old(errors)@));
            return;
        },
    };
    let declared: (u32, u32) = (se.inputs.len() as u32, se.outputs.len() as u32);
    match body_eff {
        Effect::Known { inputs: bi, outputs: bo } => {
            if declared.0 != bi || declared.1 != bo {
                errors.push(EffectError::Mismatch {
                    name: d.name.clone(),
                    at: d.name_span,
                    declared,
                    inferred: (bi, bo),
                });
                assert(errors_view(errors@) =~= errors_view(old(errors)@).push(mismatch(*d, body_eff)->Some_0));
            } else {
                assert(errors_view(errors@) =~= errors_view(old(errors)@));
            }
        },
        Effect::Unknown => {
            assert(errors_view(errors@) =~= errors_view(old(errors)@));
        },
    }
}

// ─── Whole-program driver ──────────────────────────────────────────────────

/// Result of running effect inference over a program.
#[derive(Debug)]
pub struct Inferred {
    /// Callers' view: the declared effect when present, else the
    /// inferred one.  Keyed by lower-cased name.
    pub user_effects: NameMap<Effect>,
    /// The effect of each definition's body, declared or not.
    pub body_effects: NameMap<Effect>,
}

/// The effect a name-introducing item presents to its callers before
/// any body is examined.
pub open spec fn seed_one(m: Map<Seq<char>, Effect>, it: Item) -> Map<Seq<char>, Effect> {
    match it {
        Item::Definition(d) => m.insert(text::ascii_lower(d.name@), match declared_counts(d) {
            Some(dc) => Effect::Known { inputs: dc.0, outputs: dc.1 },
            None => Effect::Unknown,
        }),
        Item::Variable(v) => m.insert(text::ascii_lower(v.name@), Effect::Known { inputs: 0, outputs: 1 }),
        Item::Constant(c) => m.insert(text::ascii_lower(c.name@), Effect::Known { inputs: 0, outputs: 1 }),
        Item::Value(v) => m.insert(text::ascii_lower(v.name@), Effect::Known { inputs: 0, outputs: 1 }),
        Item::Create(c) => m.insert(text::ascii_lower(c.name@), Effect::Known { inputs: 0, outputs: 1 }),
        Item::Collection(c) => m.insert(text::ascii_lower(c.name@), Effect::Known { inputs: 1, outputs: 1 }),
        Item::TemplateInstance(t) => m.insert(text::ascii_lower(t.name@), Effect::Known { inputs: 1, outputs: 1 }),
        Item::Generic(g) => m.insert(text::ascii_lower(g.name@), Effect::Known {
            inputs: g.effect.inputs@.len() as u32,
            outputs: g.effect.outputs@.len() as u32,
        }),
        _ => m,
    }
}

/// Seeding over a run of items, in order.
pub open spec fn seeded(m: Map<Seq<char>, Effect>, items: Seq<Item>) -> Map<Seq<char>, Effect>
    decreases items.len(),
{
    if items.len() == 0 { m } else { seed_one(seeded(m, items.drop_last()), items.last()) }
}

/// The inference state after visiting `items` in order, starting from
/// callers' effects `ue`: callers' effects, body effects, diagnostics.
/// Each definition's body is inferred against the effects known at its
/// own point in the source; an undeclared definition then publishes its
/// body effect.
pub open spec fn walk(
    ue: Map<Seq<char>, Effect>,
    items: Seq<Item>,
    targets: Seq<(Span, Target)>,
) -> (Map<Seq<char>, Effect>, Map<Seq<char>, Effect>, Seq<EffectErrorV>)
    decreases items.len(),
{
    if items.len() == 0 {
        (ue, Map::empty(), Seq::empty())
    } else {
        let (u, b, errs) = walk(ue, items.drop_last(), targets);
        match items.last() {
            Item::Definition(d) => {
                let lc = text::ascii_lower(d.name@);
                let eff = block_effect(d.body@, u, targets);
                (
                    if d.effect is None { u.insert(lc, eff) } else { u },
                    b.insert(lc, eff),
                    match mismatch(d, eff) { Some(m) => errs.push(m), None => errs },
                )
            },
            _ => (u, b, errs),
        }
    }
}

fn seed_effects(items: &Vec<Item>, ue: &mut NameMap<Effect>)
    ensures
        final(ue)@ == seeded(old(ue)@, items@),
{
    let mut i: usize = 0;
    assert(items@.take(0) =~= Seq::<Item>::empty());
    while i < items.len()
        invariant
            i <= items@.len(),
            ue@ == seeded(old(ue)@, items@.take(i as int)),
        decreases items@.len() - i,
    {
        match &items[i] {
            Item::Definition(d) => {
                let eff = match &d.effect {
                    Some(se) => Effect::known(se.inputs.len() as u32, se.outputs.len() as u32),
                    None => Effect::Unknown,
                };
                ue.insert(text::to_lower(d.name.as_str()), eff);
            },
            Item::Variable(v) => ue.insert(text::to_lower(v.name.as_str()), Effect::known(0, 1)),
            Item::Constant(c) => ue.insert(text::to_lower(c.name.as_str()), Effect::known(0, 1)),
            Item::Value(v) => ue.insert(text::to_lower(v.name.as_str()), Effect::known(0, 1)),
            Item::Create(c) => ue.insert(text::to_lower(c.name.as_str()), Effect::known(0, 1)),
            Item::Collection(c) => ue.insert(text::to_lower(c.name.as_str()), Effect::known(1, 1)),
            Item::TemplateInstance(t) => ue.insert(text::to_lower(t.name.as_str()), Effect::known(1, 1)),
            Item::Generic(g) => ue.insert(
                text::to_lower(g.name.as_str()),
                Effect::known(g.effect.inputs.len() as u32, g.effect.outputs.len() as u32),
            ),
            _ => {},
        }
        proof {
            let t = items@.take(i + 1);
            assert(t.drop_last() =~= items@.take(i as int));
            assert(t.last() == items@[i as int]);
        }
        i = i + 1;
    }
    assert(items@.take(i as int) =~= items@);
}

/// Run inference and checking over a resolved program, seeded with the
/// effects of words defined by earlier compiles.  Returns callers'
/// effects, body effects and the declared-vs-inferred mismatches.
pub fn infer_with_prior(
    items: &Vec<Item>,
    targets: &Targets,
    prior_effects: &NameMap<Effect>,
) -> (r: (Inferred, Vec<EffectError>))
    ensures
        ({
            let (u, b, errs) = walk(seeded(prior_effects@, items@), items@, targets.entries@);
            &&& r.0.user_effects@ == u
            &&& r.0.body_effects@ == b
            &&& errors_view(r.1@) == errs
        }),
{
    let builtins = builtin_effects();
    let mut user_effects: NameMap<Effect> = NameMap::new();
    merge_effects(&mut user_effects, prior_effects);
    seed_effects(items, &mut user_effects);
    let ghost start = user_effects@;
    let mut body_effects: NameMap<Effect> = NameMap::new();
    let mut errors: Vec<EffectError> = Vec::new();
    let mut i: usize = 0;
    assert(items@.take(0) =~= Seq::<Item>::empty());
    assert(errors_view(errors@) =~= Seq::<EffectErrorV>::empty());
    while i < items.len()
        invariant
            i <= items@.len(),
            static_view(builtins@) == builtin_effect_table(),
            start == seeded(prior_effects@, items@),
            ({
                let (u, b, errs) = walk(start, items@.take(i as int), targets.entries@);
                &&& user_effects@ == u
                &&& body_effects@ == b
                &&& errors_view(errors@) == errs
            }),
        decreases items@.len() - i,
    {
        proof {
            let t = items@.take(i + 1);
            assert(t.drop_last() =~= items@.take(i as int));
            assert(t.last() == items@[i as int]);
        }
        match &items[i] {
            Item::Definition(d) => {
                let eff = infer_block(&d.body, &builtins, &user_effects, targets);
                check_definition(d, eff, &mut errors);
                let lc = text::to_lower(d.name.as_str());
                if d.effect.is_none() {
                    user_effects.insert(lc.clone(), eff);
                }
                body_effects.insert(lc, eff);
            },
            _ => {},
        }
        i = i + 1;
    }
    assert(items@.take(i as int) =~= items@);
    (Inferred { user_effects, body_effects }, errors)
}

fn merge_effects(dst: &mut NameMap<Effect>, src: &NameMap<Effect>)
    requires
        old(dst)@ == Map::<Seq<char>, Effect>::empty(),
    ensures
        final(dst)@ == src@,
{
    super::names::merge_into(dst, src);
    assert(final(dst)@ =~= src@);
}

/// Run inference over a resolved program with no earlier compiles.
pub fn infer(r: &Resolved) -> (res: (Inferred, Vec<EffectError>))
    ensures
        ({
            let items = r.program.items@;
            let (u, b, errs) = walk(seeded(Map::empty(), items), items, r.word_targets.entries@);
            &&& res.0.user_effects@ == u
            &&& res.0.body_effects@ == b
            &&& errors_view(res.1@) == errs
        }),
{
    let prior: NameMap<Effect> = NameMap::new();
    infer_with_prior(&r.program.items, &r.word_targets, &prior)
}

} // verus!
