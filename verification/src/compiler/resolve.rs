//! Word resolution: every ANS word reference is bound to the Factor
//! word it is emitted as.
//!
//! Lexical locals shadow user definitions, which shadow builtins.  An
//! unknown word is an error carrying the ANS token's span.
use vstd::prelude::*;
use crate::text;
use super::ast::{ConstValue, Expr, Item, CaseArm, Program};
use super::builtins::{Builtin, builtin_entries, builtin_of, builtin_table, lookup_builtin};
use super::error::{Span, push_pos, pos_text};
use super::lower_classes::{class_synthesised_names, names_view, synth_names};
use super::names::{NameMap, static_view};

verus! {

/// Which Factor name to emit for a given ANS word.
#[derive(Clone, Debug, PartialEq)]
pub enum Target {
    /// Emit `factor_name` bare; `vocab` must be in `USING:`.
    Builtin { vocab: &'static str, factor_name: &'static str },
    /// Emit `vocab:factor_name`.
    QualifiedBuiltin { vocab: &'static str, factor_name: &'static str },
    /// A user-defined word, under its mangled name.
    UserDefined { factor_name: String },
    /// A lexical local of the enclosing definition, emitted raw.
    Local { name: String },
}

/// The IR token a target is emitted as.
pub open spec fn target_token(t: Target) -> Seq<char> {
    match t {
        Target::Builtin { factor_name, .. } => factor_name@,
        Target::QualifiedBuiltin { vocab, factor_name } => vocab@ + ":"@ + factor_name@,
        Target::UserDefined { factor_name } => factor_name@,
        Target::Local { name } => name@,
    }
}

/// The vocab a target needs imported, if any.
pub open spec fn target_vocab(t: Target) -> Option<&'static str> {
    match t {
        Target::Builtin { vocab, .. } => Some(vocab),
        Target::QualifiedBuiltin { vocab, .. } => Some(vocab),
        _ => None,
    }
}

impl Target {
    /// What goes into the IR for this word reference.
    pub fn to_factor_token(&self) -> (s: String)
        ensures
            s@ == target_token(*self),
    {
        match self {
            Target::Builtin { factor_name, .. } => text::owned(factor_name),
            Target::QualifiedBuiltin { vocab, factor_name } => {
                let mut s = text::owned(vocab);
                s.push_str(":");
                s.push_str(factor_name);
                proof { reveal_strlit(":"); }
                s
            },
            Target::UserDefined { factor_name } => factor_name.clone(),
            Target::Local { name } => name.clone(),
        }
    }

    /// Which Factor vocab the IR needs to import for this word.
    pub fn vocab(&self) -> (r: Option<&'static str>)
        ensures
            r == target_vocab(*self),
    {
        match self {
            Target::Builtin { vocab, .. } => Some(*vocab),
            Target::QualifiedBuiltin { vocab, .. } => Some(*vocab),
            Target::UserDefined { .. } => None,
            Target::Local { .. } => None,
        }
    }
}

/// The mangled Factor name of a (lower-cased) user word: `z-` in front
/// of the name, after renaming the three spellings Factor's parser
/// cannot take.
pub open spec fn mangle(lc: Seq<char>) -> Seq<char> {
    "z-"@ + (if lc == "->"@ {
        "arrow"@
    } else if lc == "}t"@ {
        "end-test"@
    } else if lc == "t{"@ {
        "begin-test"@
    } else {
        lc
    })
}

/// Mangle an ANS word name into a Factor-safe identifier.  Every
/// definition site and every reference goes through here, so both
/// agree.
pub fn factor_user_name(ans_lc: &str) -> (s: String)
    ensures
        s@ == mangle(ans_lc@),
{
    let mut s = String::new();
    s.push_str("z-");
    if text::str_eq(ans_lc, "->") {
        s.push_str("arrow");
    } else if text::str_eq(ans_lc, "}t") {
        s.push_str("end-test");
    } else if text::str_eq(ans_lc, "t{") {
        s.push_str("begin-test");
    } else {
        s.push_str(ans_lc);
    }
    s
}

/// Word targets keyed by the span of the referencing token; the newest
/// entry for a span wins.
pub open spec fn span_target(s: Seq<(Span, Target)>, sp: Span) -> Option<Target>
    decreases s.len(),
{
    if s.len() == 0 {
        None
    } else if s.last().0 == sp {
        Some(s.last().1)
    } else {
        span_target(s.drop_last(), sp)
    }
}

/// The resolved target of each word-reference token.
#[derive(Debug, Clone)]
pub struct Targets {
    pub entries: Vec<(Span, Target)>,
}

impl Targets {
    pub fn new() -> (t: Targets)
        ensures
            t.entries@.len() == 0,
    {
        Targets { entries: Vec::new() }
    }

    pub fn insert(&mut self, sp: Span, t: Target)
        ensures
            final(self).entries@ == old(self).entries@.push((sp, t)),
    {
        self.entries.push((sp, t));
    }

    /// The target recorded for the token at `sp`.
    pub fn get(&self, sp: Span) -> (r: Option<&Target>)
        ensures
            match r {
                Some(t) => span_target(self.entries@, sp) == Some(*t),
                None => span_target(self.entries@, sp) is None,
            },
    {
        let mut i: usize = self.entries.len();
        assert(self.entries@.take(i as int) =~= self.entries@);
        while i > 0
            invariant
                i <= self.entries@.len(),
                span_target(self.entries@, sp) == span_target(self.entries@.take(i as int), sp),
            decreases i,
        {
            proof {
                assert(self.entries@.take(i as int).drop_last() =~= self.entries@.take(i - 1));
            }
            if self.entries[i - 1].0 == sp {
                return Some(&self.entries[i - 1].1);
            }
            i = i - 1;
        }
        None
    }

    pub fn len(&self) -> (n: usize)
        ensures
            n == self.entries@.len(),
    {
        self.entries.len()
    }
}

/// Model of a target.
pub enum TargetV {
    Builtin { vocab: &'static str, factor_name: &'static str },
    QualifiedBuiltin { vocab: &'static str, factor_name: &'static str },
    UserDefined { factor_name: Seq<char> },
    Local { name: Seq<char> },
}

impl View for Target {
    type V = TargetV;

    open spec fn view(&self) -> TargetV {
        match self {
            Target::Builtin { vocab, factor_name } => TargetV::Builtin { vocab: *vocab, factor_name: *factor_name },
            Target::QualifiedBuiltin { vocab, factor_name } =>
                TargetV::QualifiedBuiltin { vocab: *vocab, factor_name: *factor_name },
            Target::UserDefined { factor_name } => TargetV::UserDefined { factor_name: factor_name@ },
            Target::Local { name } => TargetV::Local { name: name@ },
        }
    }
}

/// The model of a target log.
pub open spec fn targets_view(s: Seq<(Span, Target)>) -> Seq<(Span, TargetV)> {
    s.map_values(|p: (Span, Target)| (p.0, p.1@))
}

/// The target a builtin entry is emitted as.
pub open spec fn builtin_target(b: Builtin) -> TargetV {
    if b.qualified {
        TargetV::QualifiedBuiltin { vocab: b.vocab, factor_name: b.factor_name }
    } else {
        TargetV::Builtin { vocab: b.vocab, factor_name: b.factor_name }
    }
}

pub fn target_of_builtin(b: Builtin) -> (t: Target)
    ensures
        t@ == builtin_target(b),
{
    if b.qualified {
        Target::QualifiedBuiltin { vocab: b.vocab, factor_name: b.factor_name }
    } else {
        Target::Builtin { vocab: b.vocab, factor_name: b.factor_name }
    }
}

/// A builtin is written as its Factor word, preceded by `vocab:` when
/// the dictionary marks it qualified, and its vocab is the one to
/// import.
pub proof fn lemma_builtin_written(b: Builtin, t: Target)
    requires
        t@ == builtin_target(b),
    ensures
        target_token(t) == (if b.qualified { b.vocab@ + ":"@ + b.factor_name@ } else { b.factor_name@ }),
        target_vocab(t) == Some(b.vocab),
{
}

/// Resolution errors.
#[derive(Clone, Debug, PartialEq)]
pub enum ResolveError {
    UnknownWord { name: String, at: Span },
    RedefinedWord { name: String, at: Span, prev: Span },
    /// A definition uses `RECURSE` but declares no stack effect.
    RecurseNeedsEffect { word: String, at: Span },
    /// `TO name` where `name` is not a VALUE.
    ToNotValue { name: String, at: Span },
}

pub enum ResolveErrorV {
    UnknownWord { name: Seq<char>, at: Span },
    RedefinedWord { name: Seq<char>, at: Span, prev: Span },
    RecurseNeedsEffect { word: Seq<char>, at: Span },
    ToNotValue { name: Seq<char>, at: Span },
}

impl View for ResolveError {
    type V = ResolveErrorV;

    open spec fn view(&self) -> ResolveErrorV {
        match self {
            ResolveError::UnknownWord { name, at } => ResolveErrorV::UnknownWord { name: name@, at: *at },
            ResolveError::RedefinedWord { name, at, prev } =>
                ResolveErrorV::RedefinedWord { name: name@, at: *at, prev: *prev },
            ResolveError::RecurseNeedsEffect { word, at } =>
                ResolveErrorV::RecurseNeedsEffect { word: word@, at: *at },
            ResolveError::ToNotValue { name, at } => ResolveErrorV::ToNotValue { name: name@, at: *at },
        }
    }
}

/// The message of a resolution error.
pub open spec fn resolve_error_text(e: ResolveErrorV) -> Seq<char> {
    match e {
        ResolveErrorV::UnknownWord { name, at } =>
            "unknown word `"@ + name + "` at "@ + pos_text(at.start),
        ResolveErrorV::RedefinedWord { name, at, prev } =>
            "redefinition of `"@ + name + "` at "@ + pos_text(at.start) + " (previously defined at "@
                + pos_text(prev.start) + ")"@,
        ResolveErrorV::RecurseNeedsEffect { word, at } =>
            "`"@ + word + "` at "@ + pos_text(at.start)
                + " uses RECURSE but has no stack-effect annotation — add `( ... -- ... )` after the name"@,
        ResolveErrorV::ToNotValue { name, at } =>
            "`TO "@ + name + "` at "@ + pos_text(at.start) + ": `"@ + name
                + "` is not a VALUE (TO only works on VALUEs)"@,
    }
}

impl ResolveError {
    /// The ready-to-print message.
    pub fn message(&self) -> (s: String)
        ensures
            s@ == resolve_error_text(self@),
    {
        let mut out = String::new();
        match self {
            ResolveError::UnknownWord { name, at } => {
                out.push_str("unknown word `");
                out.push_str(name.as_str());
                out.push_str("` at ");
                push_pos(&mut out, at.start);
            },
            ResolveError::RedefinedWord { name, at, prev } => {
                out.push_str("redefinition of `");
                out.push_str(name.as_str());
                out.push_str("` at ");
                push_pos(&mut out, at.start);
                out.push_str(" (previously defined at ");
                push_pos(&mut out, prev.start);
                out.push_str(")");
            },
            ResolveError::RecurseNeedsEffect { word, at } => {
                out.push_str("`");
                out.push_str(word.as_str());
                out.push_str("` at ");
                push_pos(&mut out, at.start);
                out.push_str(" uses RECURSE but has no stack-effect annotation — add `( ... -- ... )` after the name");
            },
            ResolveError::ToNotValue { name, at } => {
                out.push_str("`TO ");
                out.push_str(name.as_str());
                out.push_str("` at ");
                push_pos(&mut out, at.start);
                out.push_str(": `");
                out.push_str(name.as_str());
                out.push_str("` is not a VALUE (TO only works on VALUEs)");
            },
        }
        assert(out@ =~= resolve_error_text(self@));
        out
    }
}

// ─── Reference resolution ──────────────────────────────────────────────────

/// What a body's references resolve against: the lexical locals in
/// scope, the user dictionary, and the VALUE names.
pub struct ResCtx {
    pub locals: Seq<Seq<char>>,
    pub users: Map<Seq<char>, Span>,
    pub values: Map<Seq<char>, Span>,
}

/// The binding of a lower-cased name: a local, else a user word, else
/// a builtin.
pub open spec fn ref_target(lc: Seq<char>, ctx: ResCtx) -> Option<TargetV> {
    if ctx.locals.contains(lc) {
        Some(TargetV::Local { name: lc })
    } else if ctx.users.contains_key(lc) {
        Some(TargetV::UserDefined { factor_name: mangle(lc) })
    } else {
        match builtin_of(lc) {
            Some(b) => Some(builtin_target(b)),
            None => None,
        }
    }
}

/// Sequencing of two resolution results: the first error wins.
pub open spec fn join(
    a: Result<Seq<(Span, TargetV)>, ResolveErrorV>,
    b: Result<Seq<(Span, TargetV)>, ResolveErrorV>,
) -> Result<Seq<(Span, TargetV)>, ResolveErrorV> {
    match a {
        Err(e) => Err(e),
        Ok(x) => match b {
            Err(e) => Err(e),
            Ok(y) => Ok(x + y),
        },
    }
}

/// Resolution of one reference-bearing name at `span`.
pub open spec fn res_ref(name: Seq<char>, span: Span, ctx: ResCtx) -> Result<Seq<(Span, TargetV)>, ResolveErrorV> {
    match ref_target(text::ascii_lower(name), ctx) {
        Some(t) => Ok(seq![(span, t)]),
        None => Err(ResolveErrorV::UnknownWord { name, at: span }),
    }
}

/// The targets recorded for one expression, in walk order, or the first
/// error.
pub open spec fn res_expr(e: Expr, ctx: ResCtx) -> Result<Seq<(Span, TargetV)>, ResolveErrorV>
    decreases e,
{
    match e {
        Expr::WordRef { name, span } => res_ref(name@, span, ctx),
        Expr::Tick { name, span } => res_ref(name@, span, ctx),
        Expr::To { name, span } =>
            if ctx.values.contains_key(text::ascii_lower(name@)) { Ok(Seq::empty()) }
            else { Err(ResolveErrorV::ToNotValue { name: name@, at: span }) },
        Expr::If { then_body, else_body, .. } => join(
            res_block(then_body@, ctx),
            match else_body { Some(eb) => res_block(eb@, ctx), None => Ok(Seq::empty()) },
        ),
        Expr::BeginUntil { body, .. } => res_block(body@, ctx),
        Expr::BeginAgain { body, .. } => res_block(body@, ctx),
        Expr::DoLoop { body, .. } => res_block(body@, ctx),
        Expr::BeginWhileRepeat { pred, body, .. } => join(res_block(pred@, ctx), res_block(body@, ctx)),
        Expr::Case { arms, default, .. } => join(
            res_arms(arms@, ctx),
            match default { Some(d) => res_block(d@, ctx), None => Ok(Seq::empty()) },
        ),
        _ => Ok(Seq::empty()),
    }
}

/// Resolution of a body, left to right.
pub open spec fn res_block(s: Seq<Expr>, ctx: ResCtx) -> Result<Seq<(Span, TargetV)>, ResolveErrorV>
    decreases s,
{
    if s.len() == 0 { Ok(Seq::empty()) } else { join(res_block(s.drop_last(), ctx), res_expr(s.last(), ctx)) }
}

/// Resolution of CASE arms: each arm's match expression, then its body.
pub open spec fn res_arms(s: Seq<CaseArm>, ctx: ResCtx) -> Result<Seq<(Span, TargetV)>, ResolveErrorV>
    decreases s,
{
    if s.len() == 0 {
        Ok(Seq::empty())
    } else {
        join(res_arms(s.drop_last(), ctx), join(res_block(s.last().match_expr@, ctx), res_block(s.last().body@, ctx)))
    }
}

/// The exec counterpart of [`ResCtx`].
pub struct Scope<'a> {
    pub locals: &'a Vec<String>,
    pub users: &'a NameMap<Span>,
    pub values: &'a NameMap<Span>,
    pub builtins: &'a Vec<(&'static str, Builtin)>,
}

impl<'a> Scope<'a> {
    pub open spec fn ctx(&self) -> ResCtx {
        ResCtx { locals: names_view(self.locals@), users: self.users@, values: self.values@ }
    }

    pub open spec fn wf(&self) -> bool {
        static_view(self.builtins@) == builtin_entries()
    }
}

/// Whether a name is among the lexical locals.
pub fn is_local_name(locals: &Vec<String>, lc: &str) -> (r: bool)
    ensures
        r == names_view(locals@).contains(lc@),
{
    let mut i: usize = 0;
    while i < locals.len()
        invariant
            i <= locals@.len(),
            forall|k: int| 0 <= k < i ==> names_view(locals@)[k] != lc@,
        decreases locals@.len() - i,
    {
        if text::str_eq(locals[i].as_str(), lc) {
            assert(names_view(locals@)[i as int] == lc@);
            return true;
        }
        i = i + 1;
    }
    false
}

fn resolve_ref(name: &String, span: Span, sc: &Scope, out: &mut Targets) -> (r: Result<(), ResolveError>)
    requires
        sc.wf(),
    ensures
        match res_ref(name@, span, sc.ctx()) {
            Ok(log) => r is Ok && targets_view(final(out).entries@) == targets_view(old(out).entries@) + log,
            Err(e) => r is Err && r->Err_0@ == e,
        },
{
    let lc = text::to_lower(name.as_str());
    let t = if is_local_name(sc.locals, lc.as_str()) {
        Target::Local { name: lc }
    } else if sc.users.contains(lc.as_str()) {
        Target::UserDefined { factor_name: factor_user_name(lc.as_str()) }
    } else {
        match lookup_builtin(sc.builtins, lc.as_str()) {
            Some(b) => target_of_builtin(b),
            None => {
                return Err(ResolveError::UnknownWord { name: name.clone(), at: span });
            },
        }
    };
    out.insert(span, t);
    assert(targets_view(out.entries@) =~= targets_view(old(out).entries@) + res_ref(name@, span, sc.ctx())->Ok_0);
    Ok(())
}

/// Resolve every reference in one expression.
fn resolve_expr(e: &Expr, sc: &Scope, out: &mut Targets) -> (r: Result<(), ResolveError>)
    requires
        sc.wf(),
    ensures
        match res_expr(*e, sc.ctx()) {
            Ok(log) => r is Ok && targets_view(final(out).entries@) == targets_view(old(out).entries@) + log,
            Err(err) => r is Err && r->Err_0@ == err,
        },
    decreases e,
{
    match e {
        Expr::WordRef { name, span } => resolve_ref(name, *span, sc, out),
        Expr::Tick { name, span } => resolve_ref(name, *span, sc, out),
        Expr::To { name, span } => {
            let lc = text::to_lower(name.as_str());
            if !sc.values.contains(lc.as_str()) {
                return Err(ResolveError::ToNotValue { name: name.clone(), at: *span });
            }
            assert(targets_view(out.entries@) =~= targets_view(old(out).entries@) + Seq::<(Span, TargetV)>::empty());
            Ok(())
        },
        Expr::If { then_body, else_body, .. } => {
            resolve_exprs(then_body, sc, out)?;
            let ghost mid = targets_view(out.entries@);
            match else_body {
                Some(eb) => {
                    resolve_exprs(eb, sc, out)?;
                },
                None => {
                    assert(targets_view(out.entries@) =~= mid + Seq::<(Span, TargetV)>::empty());
                },
            }
            assert(targets_view(out.entries@) =~= targets_view(old(out).entries@) + res_expr(*e, sc.ctx())->Ok_0);
            Ok(())
        },
        Expr::BeginUntil { body, .. } => resolve_exprs(body, sc, out),
        Expr::BeginAgain { body, .. } => resolve_exprs(body, sc, out),
        Expr::DoLoop { body, .. } => resolve_exprs(body, sc, out),
        Expr::BeginWhileRepeat { pred, body, .. } => {
            resolve_exprs(pred, sc, out)?;
            resolve_exprs(body, sc, out)?;
            assert(targets_view(out.entries@) =~= targets_view(old(out).entries@) + res_expr(*e, sc.ctx())->Ok_0);
            Ok(())
        },
        Expr::Case { arms, default, .. } => {
            resolve_arms(arms, sc, out)?;
            let ghost mid = targets_view(out.entries@);
            match default {
                Some(d) => {
                    resolve_exprs(d, sc, out)?;
                },
                None => {
                    assert(targets_view(out.entries@) =~= mid + Seq::<(Span, TargetV)>::empty());
                },
            }
            assert(targets_view(out.entries@) =~= targets_view(old(out).entries@) + res_expr(*e, sc.ctx())->Ok_0);
            Ok(())
        },
        _ => {
            assert(targets_view(out.entries@) =~= targets_view(old(out).entries@) + Seq::<(Span, TargetV)>::empty());
            Ok(())
        },
    }
}

/// Resolve every reference in a body, in order.
fn resolve_exprs(exprs: &Vec<Expr>, sc: &Scope, out: &mut Targets) -> (r: Result<(), ResolveError>)
    requires
        sc.wf(),
    ensures
        match res_block(exprs@, sc.ctx()) {
            Ok(log) => r is Ok && targets_view(final(out).entries@) == targets_view(old(out).entries@) + log,
            Err(err) => r is Err && r->Err_0@ == err,
        },
    decreases exprs,
{
    let mut i: usize = 0;
    assert(exprs@.take(0) =~= Seq::<Expr>::empty());
    assert(targets_view(out.entries@) =~= targets_view(old(out).entries@) + Seq::<(Span, TargetV)>::empty());
    while i < exprs.len()
        invariant
            i <= exprs@.len(),
            sc.wf(),
            res_block(exprs@.take(i as int), sc.ctx()) is Ok,
            targets_view(out.entries@) == targets_view(old(out).entries@)
                + res_block(exprs@.take(i as int), sc.ctx())->Ok_0,
        decreases exprs@.len() - i,
    {
        proof {
            let t = exprs@.take(i + 1);
            assert(t.drop_last() =~= exprs@.take(i as int));
            assert(t.last() == exprs@[i as int]);
        }
        let ghost before = targets_view(out.entries@);
        match resolve_expr(&exprs[i], sc, out) {
            Ok(()) => {},
            Err(err) => {
                proof {
                    lemma_join_err_prefix(exprs@, i as int, sc.ctx());
                }
                return Err(err);
            },
        }
        i = i + 1;
        assert(targets_view(out.entries@) =~= targets_view(old(out).entries@)
            + res_block(exprs@.take(i as int), sc.ctx())->Ok_0);
    }
    assert(exprs@.take(i as int) =~= exprs@);
    Ok(())
}

/// An error at position `i` of a body whose prefix resolved is the
/// body's error.
proof fn lemma_join_err_prefix(s: Seq<Expr>, i: int, ctx: ResCtx)
    requires
        0 <= i < s.len(),
        res_block(s.take(i), ctx) is Ok,
        res_expr(s[i], ctx) is Err,
    ensures
        res_block(s, ctx) == res_expr(s[i], ctx),
    decreases s.len(),
{
    if s.len() == i + 1 {
        assert(s.drop_last() =~= s.take(i));
    } else {
        assert(s.drop_last().take(i) =~= s.take(i));
        assert(s.drop_last()[i] == s[i]);
        lemma_join_err_prefix(s.drop_last(), i, ctx);
    }
}

fn resolve_arms(arms: &Vec<CaseArm>, sc: &Scope, out: &mut Targets) -> (r: Result<(), ResolveError>)
    requires
        sc.wf(),
    ensures
        match res_arms(arms@, sc.ctx()) {
            Ok(log) => r is Ok && targets_view(final(out).entries@) == targets_view(old(out).entries@) + log,
            Err(err) => r is Err && r->Err_0@ == err,
        },
    decreases arms,
{
    let mut i: usize = 0;
    assert(arms@.take(0) =~= Seq::<CaseArm>::empty());
    assert(targets_view(out.entries@) =~= targets_view(old(out).entries@) + Seq::<(Span, TargetV)>::empty());
    while i < arms.len()
        invariant
            i <= arms@.len(),
            sc.wf(),
            res_arms(arms@.take(i as int), sc.ctx()) is Ok,
            targets_view(out.entries@) == targets_view(old(out).entries@)
                + res_arms(arms@.take(i as int), sc.ctx())->Ok_0,
        decreases arms@.len() - i,
    {
        proof {
            let t = arms@.take(i + 1);
            assert(t.drop_last() =~= arms@.take(i as int));
            assert(t.last() == arms@[i as int]);
        }
        let arm = &arms[i];
        let r1 = resolve_exprs(&arm.match_expr, sc, out);
        match r1 {
            Ok(()) => {},
            Err(err) => {
                proof { lemma_arms_err_prefix(arms@, i as int, sc.ctx()); }
                return Err(err);
            },
        }
        let r2 = resolve_exprs(&arm.body, sc, out);
        match r2 {
            Ok(()) => {},
            Err(err) => {
                proof { lemma_arms_err_prefix(arms@, i as int, sc.ctx()); }
                return Err(err);
            },
        }
        i = i + 1;
        assert(targets_view(out.entries@) =~= targets_view(old(out).entries@)
            + res_arms(arms@.take(i as int), sc.ctx())->Ok_0);
    }
    assert(arms@.take(i as int) =~= arms@);
    Ok(())
}

proof fn lemma_arms_err_prefix(s: Seq<CaseArm>, i: int, ctx: ResCtx)
    requires
        0 <= i < s.len(),
        res_arms(s.take(i), ctx) is Ok,
        join(res_block(s[i].match_expr@, ctx), res_block(s[i].body@, ctx)) is Err,
    ensures
        res_arms(s, ctx) == join(res_block(s[i].match_expr@, ctx), res_block(s[i].body@, ctx)),
    decreases s.len(),
{
    if s.len() == i + 1 {
        assert(s.drop_last() =~= s.take(i));
    } else {
        assert(s.drop_last().take(i) =~= s.take(i));
        assert(s.drop_last()[i] == s[i]);
        lemma_arms_err_prefix(s.drop_last(), i, ctx);
    }
}

// ─── Registration and the driver ───────────────────────────────────────────

/// The names a compile defines: every name, and the VALUE names.
pub struct RegState {
    pub users: Map<Seq<char>, Span>,
    pub values: Map<Seq<char>, Span>,
}

/// Register one name; a name already defined in this compile is an
/// error pointing at both definitions.
pub open spec fn reg_name(st: Result<RegState, ResolveErrorV>, name: Seq<char>, at: Span) -> Result<RegState, ResolveErrorV> {
    match st {
        Err(e) => Err(e),
        Ok(s) => {
            let lc = text::ascii_lower(name);
            if s.users.contains_key(lc) {
                Err(ResolveErrorV::RedefinedWord { name, at, prev: s.users[lc] })
            } else {
                Ok(RegState { users: s.users.insert(lc, at), values: s.values })
            }
        },
    }
}

pub open spec fn reg_names(st: Result<RegState, ResolveErrorV>, names: Seq<Seq<char>>, at: Span) -> Result<RegState, ResolveErrorV>
    decreases names.len(),
{
    if names.len() == 0 { st } else { reg_name(reg_names(st, names.drop_last(), at), names.last(), at) }
}

/// The flattened slots of a class in a slot table (none when unknown).
pub open spec fn slots_in(classes: Map<Seq<char>, Seq<Seq<char>>>, lc: Seq<char>) -> Seq<Seq<char>> {
    if classes.contains_key(lc) { classes[lc] } else { Seq::empty() }
}

/// Registration of one item's names.
pub open spec fn reg_item(st: Result<RegState, ResolveErrorV>, it: Item, classes: Map<Seq<char>, Seq<Seq<char>>>) -> Result<RegState, ResolveErrorV> {
    match it {
        Item::Definition(d) => reg_name(st, d.name@, d.name_span),
        Item::Variable(v) => reg_name(st, v.name@, v.name_span),
        Item::Constant(c) => reg_name(st, c.name@, c.name_span),
        Item::Create(c) => reg_name(st, c.name@, c.name_span),
        Item::Collection(c) => reg_name(st, c.name@, c.name_span),
        Item::Template(t) => reg_name(st, t.name@, t.name_span),
        Item::TemplateInstance(t) => reg_name(st, t.name@, t.name_span),
        Item::Value(v) => match reg_name(st, v.name@, v.name_span) {
            Ok(s) => Ok(RegState { users: s.users, values: s.values.insert(text::ascii_lower(v.name@), v.name_span) }),
            Err(e) => Err(e),
        },
        Item::Class(c) => {
            let lc = text::ascii_lower(c.name@);
            reg_names(st, synth_names(lc, slots_in(classes, lc)), c.name_span)
        },
        Item::Generic(g) => reg_name(st, g.name@, g.name_span),
        _ => st,
    }
}

pub open spec fn reg_items(st: Result<RegState, ResolveErrorV>, items: Seq<Item>, classes: Map<Seq<char>, Seq<Seq<char>>>) -> Result<RegState, ResolveErrorV>
    decreases items.len(),
{
    if items.len() == 0 { st } else { reg_item(reg_items(st, items.drop_last(), classes), items.last(), classes) }
}

/// The lower-cased names of a definition's head locals.
pub open spec fn local_names(d: super::ast::Definition) -> Seq<Seq<char>> {
    d.locals@.map_values(|l: super::ast::LocalDecl| text::ascii_lower(l.name@))
}

/// The targets recorded for one item's bodies.
pub open spec fn res_item(it: Item, users: Map<Seq<char>, Span>, values: Map<Seq<char>, Span>) -> Result<Seq<(Span, TargetV)>, ResolveErrorV> {
    let plain = ResCtx { locals: Seq::empty(), users, values };
    match it {
        Item::Definition(d) => res_block(d.body@, ResCtx { locals: local_names(d), users, values }),
        Item::TopLevel { exprs, .. } => res_block(exprs@, plain),
        Item::Constant(c) => match c.value {
            ConstValue::Computed(ex) => res_block(ex@, plain),
            _ => Ok(Seq::empty()),
        },
        Item::Value(v) => res_block(v.initial@, plain),
        Item::Template(t) => join(res_block(t.constructor@, plain), res_block(t.does_body@, plain)),
        Item::Method(m) => res_block(m.body@, plain),
        _ => Ok(Seq::empty()),
    }
}

pub open spec fn res_items(items: Seq<Item>, users: Map<Seq<char>, Span>, values: Map<Seq<char>, Span>) -> Result<Seq<(Span, TargetV)>, ResolveErrorV>
    decreases items.len(),
{
    if items.len() == 0 { Ok(Seq::empty()) } else { join(res_items(items.drop_last(), users, values), res_item(items.last(), users, values)) }
}

/// A program after resolution.
#[derive(Debug)]
pub struct Resolved {
    pub program: Program,
    /// Target of every word-reference and tick token.
    pub word_targets: Targets,
    /// Names this compile defines, with the span of each definition.
    pub user_words: NameMap<Span>,
}

fn register(name: &String, at: Span, users: &mut NameMap<Span>) -> (r: Result<(), ResolveError>)
    ensures
        ({
            let st = Ok::<RegState, ResolveErrorV>(RegState { users: old(users)@, values: Map::empty() });
            match reg_name(st, name@, at) {
                Ok(s) => r is Ok && final(users)@ == s.users,
                Err(e) => r is Err && r->Err_0@ == e,
            }
        }),
{
    let lc = text::to_lower(name.as_str());
    match users.get(lc.as_str()) {
        Some(prev) => {
            return Err(ResolveError::RedefinedWord { name: name.clone(), at, prev: *prev });
        },
        None => {},
    }
    users.insert(lc, at);
    Ok(())
}

proof fn lemma_reg_name_values(st: RegState, name: Seq<char>, at: Span)
    ensures
        reg_name(Ok(st), name, at) is Ok ==> reg_name(Ok(st), name, at)->Ok_0.values == st.values,
        reg_name(Ok(st), name, at) is Ok <==> reg_name(
            Ok(RegState { users: st.users, values: Map::empty() }), name, at) is Ok,
        reg_name(Ok(st), name, at) is Ok ==> reg_name(Ok(st), name, at)->Ok_0.users == reg_name(
            Ok(RegState { users: st.users, values: Map::empty() }), name, at)->Ok_0.users,
        reg_name(Ok(st), name, at) is Err ==> reg_name(Ok(st), name, at) == reg_name(
            Ok(RegState { users: st.users, values: Map::empty() }), name, at),
{
}

fn register_class(
    c: &super::ast::ClassDef,
    slots: &Vec<String>,
    users: &mut NameMap<Span>,
    Ghost(values): Ghost<Map<Seq<char>, Span>>,
) -> (r: Result<(), ResolveError>)
    ensures
        ({
            let st = Ok::<RegState, ResolveErrorV>(RegState { users: old(users)@, values });
            match reg_names(st, synth_names(text::ascii_lower(c.name@), names_view(slots@)), c.name_span) {
                Ok(s) => r is Ok && final(users)@ == s.users && s.values == values,
                Err(e) => r is Err && r->Err_0@ == e,
            }
        }),
{
    let names = class_synthesised_names(c, slots);
    let ghost nv = names@.map_values(|p: (String, Span)| p.0@);
    let ghost st0 = Ok::<RegState, ResolveErrorV>(RegState { users: old(users)@, values });
    let mut i: usize = 0;
    assert(nv.take(0) =~= Seq::<Seq<char>>::empty());
    while i < names.len()
        invariant
            i <= names@.len(),
            nv == names@.map_values(|p: (String, Span)| p.0@),
            nv == synth_names(text::ascii_lower(c.name@), names_view(slots@)),
            st0 == Ok::<RegState, ResolveErrorV>(RegState { users: old(users)@, values }),
            forall|k: int| 0 <= k < names@.len() ==> (#[trigger] names@[k]).1 == c.name_span,
            reg_names(st0, nv.take(i as int), c.name_span) is Ok,
            reg_names(st0, nv.take(i as int), c.name_span)->Ok_0.users == users@,
            reg_names(st0, nv.take(i as int), c.name_span)->Ok_0.values == values,
        decreases names@.len() - i,
    {
        proof {
            let t = nv.take(i + 1);
            assert(t.drop_last() =~= nv.take(i as int));
            assert(t.last() == names@[i as int].0@);
            let cur = reg_names(st0, nv.take(i as int), c.name_span)->Ok_0;
            lemma_reg_name_values(cur, names@[i as int].0@, c.name_span);
        }
        let rr = register(&names[i].0, names[i].1, users);
        match rr {
            Ok(()) => {},
            Err(e) => {
                proof {
                    let t = nv.take(i + 1);
                    assert(reg_names(st0, t.drop_last(), c.name_span) is Ok);
                    assert(t.last() == names@[i as int].0@);
                    assert(names@[i as int].1 == c.name_span);
                    assert(reg_names(st0, t, c.name_span) == reg_name(reg_names(st0, t.drop_last(), c.name_span), t.last(), c.name_span));
                    assert(reg_names(st0, t, c.name_span) is Err);
                    assert(reg_names(st0, t, c.name_span)->Err_0 == e@);
                    lemma_reg_names_err(st0, nv, i as int, c.name_span);
                    assert(reg_names(st0, nv, c.name_span) is Err);
                    assert(reg_names(st0, nv, c.name_span)->Err_0 == e@);
                }
                return Err(e);
            },
        }
        i = i + 1;
    }
    assert(nv.take(i as int) =~= nv);
    Ok(())
}

proof fn lemma_reg_name_err_prop(e: ResolveErrorV, name: Seq<char>, at: Span)
    ensures
        reg_name(Err(e), name, at) == Err::<RegState, ResolveErrorV>(e),
{
}

proof fn lemma_reg_names_prop(e: ResolveErrorV, names: Seq<Seq<char>>, at: Span)
    ensures
        reg_names(Err(e), names, at) == Err::<RegState, ResolveErrorV>(e),
    decreases names.len(),
{
    if names.len() > 0 {
        lemma_reg_names_prop(e, names.drop_last(), at);
    }
}

proof fn lemma_reg_item_prop(e: ResolveErrorV, it: Item, classes: Map<Seq<char>, Seq<Seq<char>>>)
    ensures
        reg_item(Err(e), it, classes) == Err::<RegState, ResolveErrorV>(e),
{
    match it {
        Item::Class(c) => {
            let lc = text::ascii_lower(c.name@);
            lemma_reg_names_prop(e, synth_names(lc, slots_in(classes, lc)), c.name_span);
        },
        _ => {},
    }
}

proof fn lemma_reg_names_err(st: Result<RegState, ResolveErrorV>, names: Seq<Seq<char>>, i: int, at: Span)
    requires
        0 <= i < names.len(),
        reg_names(st, names.take(i + 1), at) is Err,
    ensures
        reg_names(st, names, at) == reg_names(st, names.take(i + 1), at),
    decreases names.len(),
{
    if names.len() == i + 1 {
        assert(names.take(i + 1) =~= names);
    } else {
        assert(names.drop_last().take(i + 1) =~= names.take(i + 1));
        lemma_reg_names_err(st, names.drop_last(), i, at);
        lemma_reg_name_err_prop(reg_names(st, names.drop_last(), at)->Err_0, names.last(), at);
    }
}

proof fn lemma_reg_items_err(st: Result<RegState, ResolveErrorV>, items: Seq<Item>, i: int, classes: Map<Seq<char>, Seq<Seq<char>>>)
    requires
        0 <= i < items.len(),
        reg_items(st, items.take(i + 1), classes) is Err,
    ensures
        reg_items(st, items, classes) == reg_items(st, items.take(i + 1), classes),
    decreases items.len(),
{
    if items.len() == i + 1 {
        assert(items.take(i + 1) =~= items);
    } else {
        assert(items.drop_last().take(i + 1) =~= items.take(i + 1));
        lemma_reg_items_err(st, items.drop_last(), i, classes);
        lemma_reg_item_prop(reg_items(st, items.drop_last(), classes)->Err_0, items.last(), classes);
    }
}

proof fn lemma_res_items_err(items: Seq<Item>, i: int, users: Map<Seq<char>, Span>, values: Map<Seq<char>, Span>)
    requires
        0 <= i < items.len(),
        res_items(items.take(i + 1), users, values) is Err,
    ensures
        res_items(items, users, values) == res_items(items.take(i + 1), users, values),
    decreases items.len(),
{
    if items.len() == i + 1 {
        assert(items.take(i + 1) =~= items);
    } else {
        assert(items.drop_last().take(i + 1) =~= items.take(i + 1));
        lemma_res_items_err(items.drop_last(), i, users, values);
    }
}

/// Pass 1: register every name this compile defines.
fn register_items(
    items: &Vec<Item>,
    class_slots: &NameMap<Vec<String>>,
    users: &mut NameMap<Span>,
    values: &mut NameMap<Span>,
) -> (r: Result<(), ResolveError>)
    requires
        old(users)@ == Map::<Seq<char>, Span>::empty(),
        old(values)@ == Map::<Seq<char>, Span>::empty(),
    ensures
        ({
            let st0 = Ok::<RegState, ResolveErrorV>(RegState { users: Map::empty(), values: Map::empty() });
            match reg_items(st0, items@, super::lower_classes::slot_table_view(class_slots@)) {
                Ok(s) => r is Ok && final(users)@ == s.users && final(values)@ == s.values,
                Err(e) => r is Err && r->Err_0@ == e,
            }
        }),
{
    let ghost classes = super::lower_classes::slot_table_view(class_slots@);
    let ghost st0 = Ok::<RegState, ResolveErrorV>(RegState { users: Map::empty(), values: Map::empty() });
    let empty: Vec<String> = Vec::new();
    let mut i: usize = 0;
    assert(items@.take(0) =~= Seq::<Item>::empty());
    while i < items.len()
        invariant
            i <= items@.len(),
            empty@.len() == 0,
            classes == super::lower_classes::slot_table_view(class_slots@),
            st0 == Ok::<RegState, ResolveErrorV>(RegState { users: Map::empty(), values: Map::empty() }),
            reg_items(st0, items@.take(i as int), classes) is Ok,
            reg_items(st0, items@.take(i as int), classes)->Ok_0.users == users@,
            reg_items(st0, items@.take(i as int), classes)->Ok_0.values == values@,
        decreases items@.len() - i,
    {
        proof {
            let t = items@.take(i + 1);
            assert(t.drop_last() =~= items@.take(i as int));
            assert(t.last() == items@[i as int]);
        }
        let ghost cur = reg_items(st0, items@.take(i as int), classes)->Ok_0;
        let rr: Result<(), ResolveError> = match &items[i] {
            Item::Definition(d) => {
                proof { lemma_reg_name_values(cur, d.name@, d.name_span); }
                register(&d.name, d.name_span, users)
            },
            Item::Variable(v) => {
                proof { lemma_reg_name_values(cur, v.name@, v.name_span); }
                register(&v.name, v.name_span, users)
            },
            Item::Constant(c) => {
                proof { lemma_reg_name_values(cur, c.name@, c.name_span); }
                register(&c.name, c.name_span, users)
            },
            Item::Create(c) => {
                proof { lemma_reg_name_values(cur, c.name@, c.name_span); }
                register(&c.name, c.name_span, users)
            },
            Item::Collection(c) => {
                proof { lemma_reg_name_values(cur, c.name@, c.name_span); }
                register(&c.name, c.name_span, users)
            },
            Item::Template(t) => {
                proof { lemma_reg_name_values(cur, t.name@, t.name_span); }
                register(&t.name, t.name_span, users)
            },
            Item::TemplateInstance(t) => {
                proof { lemma_reg_name_values(cur, t.name@, t.name_span); }
                register(&t.name, t.name_span, users)
            },
            Item::Generic(g) => {
                proof { lemma_reg_name_values(cur, g.name@, g.name_span); }
                register(&g.name, g.name_span, users)
            },
            Item::Value(v) => {
                proof { lemma_reg_name_values(cur, v.name@, v.name_span); }
                let r0 = register(&v.name, v.name_span, users);
                if r0.is_ok() {
                    values.insert(text::to_lower(v.name.as_str()), v.name_span);
                }
                r0
            },
            Item::Class(c) => {
                let lc = text::to_lower(c.name.as_str());
                let slots: &Vec<String> = match class_slots.get(lc.as_str()) {
                    Some(s) => s,
                    None => &empty,
                };
                proof {
                    assert(names_view(slots@) =~= slots_in(classes, lc@));
                }
                register_class(c, slots, users, Ghost(values@))
            },
            _ => Ok(()),
        };
        match rr {
            Ok(()) => {},
            Err(e) => {
                proof { lemma_reg_items_err(st0, items@, i as int, classes); }
                return Err(e);
            },
        }
        i = i + 1;
    }
    assert(items@.take(i as int) =~= items@);
    Ok(())
}

fn resolve_item(it: &Item, sc: &Scope, out: &mut Targets) -> (r: Result<(), ResolveError>)
    requires
        sc.wf(),
        sc.locals@.len() == 0,
    ensures
        match res_item(*it, sc.users@, sc.values@) {
            Ok(log) => r is Ok && targets_view(final(out).entries@) == targets_view(old(out).entries@) + log,
            Err(err) => r is Err && r->Err_0@ == err,
        },
{
    assert(names_view(sc.locals@) =~= Seq::<Seq<char>>::empty());
    match it {
        Item::Definition(d) => {
            let mut scope: Vec<String> = Vec::new();
            let mut k: usize = 0;
            while k < d.locals.len()
                invariant
                    k <= d.locals@.len(),
                    names_view(scope@) == d.locals@.take(k as int).map_values(
                        |l: super::ast::LocalDecl| text::ascii_lower(l.name@)),
                decreases d.locals@.len() - k,
            {
                let ghost before = scope@;
                scope.push(text::to_lower(d.locals[k].name.as_str()));
                proof {
                    assert(names_view(scope@) =~= names_view(before).push(text::ascii_lower(d.locals@[k as int].name@)));
                    assert(d.locals@.take(k + 1).map_values(|l: super::ast::LocalDecl| text::ascii_lower(l.name@))
                        =~= d.locals@.take(k as int).map_values(|l: super::ast::LocalDecl| text::ascii_lower(l.name@))
                            .push(text::ascii_lower(d.locals@[k as int].name@)));
                }
                k = k + 1;
            }
            assert(d.locals@.take(k as int) =~= d.locals@);
            let sc2 = Scope { locals: &scope, users: sc.users, values: sc.values, builtins: sc.builtins };
            resolve_exprs(&d.body, &sc2, out)
        },
        Item::TopLevel { exprs, .. } => resolve_exprs(exprs, sc, out),
        Item::Constant(c) => match &c.value {
            ConstValue::Computed(ex) => resolve_exprs(ex, sc, out),
            _ => {
                assert(targets_view(out.entries@) =~= targets_view(old(out).entries@) + Seq::<(Span, TargetV)>::empty());
                Ok(())
            },
        },
        Item::Value(v) => resolve_exprs(&v.initial, sc, out),
        Item::Template(t) => {
            resolve_exprs(&t.constructor, sc, out)?;
            resolve_exprs(&t.does_body, sc, out)?;
            assert(targets_view(out.entries@) =~= targets_view(old(out).entries@) + res_item(*it, sc.users@, sc.values@)->Ok_0);
            Ok(())
        },
        Item::Method(m) => resolve_exprs(&m.body, sc, out),
        _ => {
            assert(targets_view(out.entries@) =~= targets_view(old(out).entries@) + Seq::<(Span, TargetV)>::empty());
            Ok(())
        },
    }
}

/// Resolution of `items` as values: registration of every name (with
/// the class slot lists `slots`), then resolution of every reference
/// against the earlier names overridden by these; the reference log and
/// the names the items define, or the first error.
pub open spec fn resolve_result(
    items: Seq<Item>,
    prior_users: Map<Seq<char>, Span>,
    prior_values: Map<Seq<char>, Span>,
    slots: Map<Seq<char>, Seq<Seq<char>>>,
) -> Result<(Seq<(Span, TargetV)>, Map<Seq<char>, Span>), ResolveErrorV> {
    let st0 = Ok::<RegState, ResolveErrorV>(RegState { users: Map::empty(), values: Map::empty() });
    match reg_items(st0, items, slots) {
        Err(e) => Err(e),
        Ok(st) => match res_items(items, prior_users.union_prefer_right(st.users), prior_values.union_prefer_right(st.values)) {
            Err(e) => Err(e),
            Ok(log) => Ok((log, st.users)),
        },
    }
}

/// Resolve a program against the names of earlier compiles (`prior_*`)
/// and the flattened class slot lists.  Names this compile defines may
/// shadow earlier ones but not each other.
pub fn resolve_with_prior_and_values_and_classes(
    prog: Program,
    prior_user_words: &NameMap<Span>,
    prior_value_names: &NameMap<Span>,
    class_slots: &NameMap<Vec<String>>,
) -> (r: Result<Resolved, ResolveError>)
    ensures
        match resolve_result(prog.items@, prior_user_words@, prior_value_names@, super::lower_classes::slot_table_view(class_slots@)) {
            Err(e) => r is Err && r->Err_0@ == e,
            Ok((log, users)) => r is Ok && r->Ok_0.program == prog
                && targets_view(r->Ok_0.word_targets.entries@) == log
                && r->Ok_0.user_words@ == users,
        },
{
    let builtins = builtin_table();
    let mut user_words: NameMap<Span> = NameMap::new();
    let mut local_values: NameMap<Span> = NameMap::new();
    register_items(&prog.items, class_slots, &mut user_words, &mut local_values)?;

    let mut combined: NameMap<Span> = NameMap::new();
    super::names::merge_into(&mut combined, prior_user_words);
    super::names::merge_into(&mut combined, &user_words);
    let mut combined_values: NameMap<Span> = NameMap::new();
    super::names::merge_into(&mut combined_values, prior_value_names);
    super::names::merge_into(&mut combined_values, &local_values);
    proof {
        assert(Map::<Seq<char>, Span>::empty().union_prefer_right(prior_user_words@) =~= prior_user_words@);
        assert(Map::<Seq<char>, Span>::empty().union_prefer_right(prior_value_names@) =~= prior_value_names@);
    }

    let ghost st = reg_items(
        Ok::<RegState, ResolveErrorV>(RegState { users: Map::empty(), values: Map::empty() }),
        prog.items@,
        super::lower_classes::slot_table_view(class_slots@),
    )->Ok_0;
    let no_locals: Vec<String> = Vec::new();
    let sc = Scope { locals: &no_locals, users: &combined, values: &combined_values, builtins: &builtins };
    let mut word_targets = Targets::new();
    let mut i: usize = 0;
    assert(prog.items@.take(0) =~= Seq::<Item>::empty());
    assert(targets_view(word_targets.entries@) =~= Seq::<(Span, TargetV)>::empty());
    while i < prog.items.len()
        invariant
            i <= prog.items@.len(),
            sc.wf(),
            sc.locals@.len() == 0,
            sc.users@ == combined@,
            sc.values@ == combined_values@,
            reg_items(
                Ok::<RegState, ResolveErrorV>(RegState { users: Map::empty(), values: Map::empty() }),
                prog.items@,
                super::lower_classes::slot_table_view(class_slots@),
            ) == Ok::<RegState, ResolveErrorV>(st),
            combined@ == prior_user_words@.union_prefer_right(st.users),
            combined_values@ == prior_value_names@.union_prefer_right(st.values),
            user_words@ == st.users,
            res_items(prog.items@.take(i as int), combined@, combined_values@) is Ok,
            targets_view(word_targets.entries@) == res_items(prog.items@.take(i as int), combined@, combined_values@)->Ok_0,
        decreases prog.items@.len() - i,
    {
        proof {
            let t = prog.items@.take(i + 1);
            assert(t.drop_last() =~= prog.items@.take(i as int));
            assert(t.last() == prog.items@[i as int]);
        }
        match resolve_item(&prog.items[i], &sc, &mut word_targets) {
            Ok(()) => {},
            Err(e) => {
                proof { lemma_res_items_err(prog.items@, i as int, combined@, combined_values@); }
                return Err(e);
            },
        }
        i = i + 1;
    }
    assert(prog.items@.take(i as int) =~= prog.items@);
    Ok(Resolved { program: prog, word_targets, user_words })
}

/// Resolve against earlier compiles' names and VALUE names.
pub fn resolve_with_prior_and_values(
    prog: Program,
    prior_user_words: &NameMap<Span>,
    prior_value_names: &NameMap<Span>,
) -> (r: Result<Resolved, ResolveError>)
    ensures
        ({
            let st0 = Ok::<RegState, ResolveErrorV>(RegState { users: Map::empty(), values: Map::empty() });
            match reg_items(st0, prog.items@, Map::empty()) {
                Err(e) => r is Err && r->Err_0@ == e,
                Ok(st) => {
                    let users = prior_user_words@.union_prefer_right(st.users);
                    let values = prior_value_names@.union_prefer_right(st.values);
                    match res_items(prog.items@, users, values) {
                        Err(e) => r is Err && r->Err_0@ == e,
                        Ok(log) => r is Ok && r->Ok_0.program == prog
                            && targets_view(r->Ok_0.word_targets.entries@) == log
                            && r->Ok_0.user_words@ == st.users,
                    }
                },
            }
        }),
{
    let classes: NameMap<Vec<String>> = NameMap::new();
    assert(super::lower_classes::slot_table_view(classes@) =~= Map::empty());
    resolve_with_prior_and_values_and_classes(prog, prior_user_words, prior_value_names, &classes)
}

/// Resolve against earlier compiles' names.
pub fn resolve_with_prior(prog: Program, prior_user_words: &NameMap<Span>) -> (r: Result<Resolved, ResolveError>)
    ensures
        ({
            let st0 = Ok::<RegState, ResolveErrorV>(RegState { users: Map::empty(), values: Map::empty() });
            match reg_items(st0, prog.items@, Map::empty()) {
                Err(e) => r is Err && r->Err_0@ == e,
                Ok(st) => {
                    let users = prior_user_words@.union_prefer_right(st.users);
                    match res_items(prog.items@, users, st.values) {
                        Err(e) => r is Err && r->Err_0@ == e,
                        Ok(log) => r is Ok && r->Ok_0.program == prog
                            && targets_view(r->Ok_0.word_targets.entries@) == log
                            && r->Ok_0.user_words@ == st.users,
                    }
                },
            }
        }),
{
    let values: NameMap<Span> = NameMap::new();
    let r = resolve_with_prior_and_values(prog, prior_user_words, &values);
    proof {
        let st0 = Ok::<RegState, ResolveErrorV>(RegState { users: Map::empty(), values: Map::empty() });
        let rg = reg_items(st0, prog.items@, Map::empty());
        if rg is Ok {
            assert(values@.union_prefer_right(rg->Ok_0.values) =~= rg->Ok_0.values);
        }
    }
    r
}

/// Resolve a program on its own.
pub fn resolve(prog: Program) -> (r: Result<Resolved, ResolveError>)
    ensures
        ({
            let st0 = Ok::<RegState, ResolveErrorV>(RegState { users: Map::empty(), values: Map::empty() });
            match reg_items(st0, prog.items@, Map::empty()) {
                Err(e) => r is Err && r->Err_0@ == e,
                Ok(st) => match res_items(prog.items@, st.users, st.values) {
                    Err(e) => r is Err && r->Err_0@ == e,
                    Ok(log) => r is Ok && r->Ok_0.program == prog
                        && targets_view(r->Ok_0.word_targets.entries@) == log
                        && r->Ok_0.user_words@ == st.users,
                },
            }
        }),
{
    let prior: NameMap<Span> = NameMap::new();
    let r = resolve_with_prior(prog, &prior);
    proof {
        let st0 = Ok::<RegState, ResolveErrorV>(RegState { users: Map::empty(), values: Map::empty() });
        let rg = reg_items(st0, prog.items@, Map::empty());
        if rg is Ok {
            assert(prior@.union_prefer_right(rg->Ok_0.users) =~= rg->Ok_0.users);
        }
    }
    r
}

} // verus!
