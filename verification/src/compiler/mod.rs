//! The ANS Forth compiler front end.
//!
//! Stages, in order: lex → parse → sema (template expansion, lowering
//! passes, resolve, stack-effect inference, escape analysis) → emit.
//! The drivers here run the whole pipeline, once or within a session
//! whose later compiles see the names earlier ones defined.
use vstd::prelude::*;
use vstd::string::StringSliceAdditionalSpecFns;

pub mod error;
pub mod effect;
pub mod lex;
pub mod ast;
pub mod let_lang;
pub mod names;
pub mod resolve;
pub mod builtins;
pub mod lower_classes;
pub mod parse;
pub mod grammar;
pub mod lower_qdup;
pub mod lower_recurse;
pub mod lower_exit;
pub mod sema;
pub mod emit;
pub mod decimal;
pub mod dump;

pub use ast::{
    CaseArm, CollectionDef, CollectionKind, ConstFlavour, ConstValue, ConstantDef, CreateDef, Definition, Expr, Item,
    Literal, LoopKind, Program, StackEffect, TemplateDef, TemplateInstanceDef, VariableDef,
};
pub use effect::{infer, Effect, EffectError, Inferred};
pub use emit::{emit, EmitOpts};
pub use error::{CompileError, Pos, Span};
pub use lex::{lex, NumBase, StringKind, Tok, Token};
pub use parse::{parse, ParseError};
pub use resolve::{resolve, ResolveError, Resolved, Target};
pub use sema::{
    build as build_sema, build_with_prior as build_sema_with_prior,
    build_with_prior_and_templates as build_sema_with_prior_and_templates, EscapeReason, EscapeState, Sema, UserWord,
};

use ast::ValueDef;
use effect::errors_view;
use error::pos_text;
use lex::{CompileErrorV, spec_lex};
use let_lang::parser::{LetError, LetForm};
use parse::{slots_fit, parsed_as};
use names::{NameMap, absorb, merge_into, lemma_log_const, log_map};

verus! {

/// Names, effects, templates, VALUEs and classes defined by the earlier
/// compiles of one session, so that a later compile can use them.  The
/// newest definition of a name wins, as in Factor's dictionary.
#[derive(Clone, Debug)]
pub struct CompileContext {
    /// Lower-cased name → span of its definition.
    pub user_words: NameMap<Span>,
    /// Lower-cased name → inferred stack effect.
    pub user_effects: NameMap<Effect>,
    /// Lower-cased template name → its CREATE/DOES> definition.
    pub templates: NameMap<TemplateDef>,
    /// Lower-cased VALUE name → span of its definition.
    pub values: NameMap<Span>,
    /// Lower-cased class name → flattened slot list.
    pub classes: NameMap<Vec<String>>,
}

impl CompileContext {
    pub open spec fn is_empty(&self) -> bool {
        &&& self.user_words@ == Map::<Seq<char>, Span>::empty()
        &&& self.user_effects@ == Map::<Seq<char>, Effect>::empty()
        &&& self.templates@ == Map::<Seq<char>, TemplateDef>::empty()
        &&& !sema::any_recorded(self.templates)
        &&& self.values@ == Map::<Seq<char>, Span>::empty()
        &&& self.classes@ == Map::<Seq<char>, Vec<String>>::empty()
    }

    /// A context that knows nothing yet.
    pub fn new() -> (c: Self)
        ensures
            c.is_empty(),
    {
        CompileContext {
            user_words: NameMap::new(),
            user_effects: NameMap::new(),
            templates: NameMap::new(),
            values: NameMap::new(),
            classes: NameMap::new(),
        }
    }
}

impl Default for CompileContext {
    fn default() -> (c: Self)
        ensures
            c.is_empty(),
    {
        CompileContext::new()
    }
}

/// The message of a lexing error.
pub open spec fn lex_error_text(e: CompileErrorV) -> Seq<char> {
    match e {
        CompileErrorV::UnterminatedString { kind, opened_at } =>
            "unterminated "@ + kind@ + " string opened at "@ + pos_text(opened_at.start),
        CompileErrorV::UnterminatedBlockComment { opened_at } =>
            "unterminated ( comment opened at "@ + pos_text(opened_at.start),
        CompileErrorV::MalformedNumber { token, at, reason } =>
            "malformed number `"@ + token + "` at "@ + pos_text(at.start) + ": "@ + reason@,
    }
}

/// The span that marks a variable forced wide by a session.
pub open spec fn session_span() -> Span {
    Span { start: Pos { line: 0, col: 0, byte_offset: 0 }, end: Pos { line: 0, col: 0, byte_offset: 0 } }
}

/// Every variable of `after` is the one of `before`, forced wide for the
/// session.
pub open spec fn all_wide(before: Map<Seq<char>, EscapeState>, after: Map<Seq<char>, EscapeState>) -> bool {
    &&& after.dom() == before.dom()
    &&& forall|k: Seq<char>| #[trigger] after.contains_key(k) ==> after[k] == (EscapeState::Wide {
        reason: EscapeReason::InteractiveSession,
        at: session_span(),
    })
}

pub open spec fn def_spans(m: Map<Seq<char>, UserWord>) -> Map<Seq<char>, Span> {
    Map::new(|k: Seq<char>| m.contains_key(k), |k: Seq<char>| m[k].def_span)
}

pub open spec fn value_spans(m: Map<Seq<char>, ValueDef>) -> Map<Seq<char>, Span> {
    Map::new(|k: Seq<char>| m.contains_key(k), |k: Seq<char>| m[k].name_span)
}

/// `after` is `before` with what compile `s` defined merged in, the new
/// definitions winning.
pub open spec fn merged(before: CompileContext, after: CompileContext, s: Sema) -> bool {
    &&& after.user_words@ == before.user_words@.union_prefer_right(def_spans(s.user_words@))
    &&& after.user_effects@ == before.user_effects@.union_prefer_right(s.user_effects@)
    &&& after.templates@ == before.templates@.union_prefer_right(s.templates@)
    &&& after.values@ == before.values@.union_prefer_right(value_spans(s.values@))
    &&& after.classes@ == before.classes@.union_prefer_right(s.class_slots@)
}

fn force_wide(esc: &mut NameMap<EscapeState>)
    ensures
        all_wide(old(esc)@, final(esc)@),
{
    let ghost orig = esc.entries@;
    let n = esc.entries.len();
    let mut i: usize = 0;
    while i < n
        invariant
            n == esc.entries@.len(),
            n == orig.len(),
            i <= n,
            forall|j: int| 0 <= j < n ==> (#[trigger] esc.entries@[j]).0@ == orig[j].0@,
            forall|j: int| 0 <= j < i ==> (#[trigger] esc.entries@[j]).1 == (EscapeState::Wide {
                reason: EscapeReason::InteractiveSession,
                at: session_span(),
            }),
        decreases n - i,
    {
        let k = esc.entries[i].0.clone();
        let w = EscapeState::Wide {
            reason: EscapeReason::InteractiveSession,
            at: Span {
                start: Pos { line: 0, col: 0, byte_offset: 0 },
                end: Pos { line: 0, col: 0, byte_offset: 0 },
            },
        };
        esc.entries.set(i, (k, w));
        i = i + 1;
    }
    proof {
        lemma_log_const(
            orig,
            esc.entries@,
            EscapeState::Wide { reason: EscapeReason::InteractiveSession, at: session_span() },
        );
    }
}

fn spans_of_words(m: &NameMap<UserWord>) -> (r: NameMap<Span>)
    ensures
        r@ == def_spans(m@),
{
    let mut r: NameMap<Span> = NameMap::new();
    let mut i: usize = 0;
    assert(def_spans(log_map(m.entries@.take(0))) =~= Map::<Seq<char>, Span>::empty());
    while i < m.entries.len()
        invariant
            i <= m.entries@.len(),
            r@ == def_spans(log_map(m.entries@.take(i as int))),
        decreases m.entries@.len() - i,
    {
        r.insert(m.entries[i].0.clone(), m.entries[i].1.def_span);
        proof {
            assert(m.entries@.take(i + 1).drop_last() =~= m.entries@.take(i as int));
        }
        i = i + 1;
        assert(r@ =~= def_spans(log_map(m.entries@.take(i as int))));
    }
    assert(m.entries@.take(i as int) =~= m.entries@);
    r
}

fn spans_of_values(m: &NameMap<ValueDef>) -> (r: NameMap<Span>)
    ensures
        r@ == value_spans(m@),
{
    let mut r: NameMap<Span> = NameMap::new();
    let mut i: usize = 0;
    assert(value_spans(log_map(m.entries@.take(0))) =~= Map::<Seq<char>, Span>::empty());
    while i < m.entries.len()
        invariant
            i <= m.entries@.len(),
            r@ == value_spans(log_map(m.entries@.take(i as int))),
        decreases m.entries@.len() - i,
    {
        r.insert(m.entries[i].0.clone(), m.entries[i].1.name_span);
        proof {
            assert(m.entries@.take(i + 1).drop_last() =~= m.entries@.take(i as int));
        }
        i = i + 1;
        assert(r@ =~= value_spans(log_map(m.entries@.take(i as int))));
    }
    assert(m.entries@.take(i as int) =~= m.entries@);
    r
}

/// The front end on the bytes of a source: lexing gives `toks`, the
/// LET blocks parse as `ls`, and the grammar gives `pr`.
pub open spec fn front_end(
    bytes: Seq<u8>,
    toks: Seq<Token>,
    ls: Seq<Option<Result<LetForm, LetError>>>,
    pr: Result<Program, ParseError>,
) -> bool {
    &&& spec_lex(bytes) == Ok::<Seq<lex::TokenV>, CompileErrorV>(toks.map_values(|t: Token| t@))
    &&& slots_fit(toks, ls)
    &&& parsed_as(toks, ls, pr)
}

/// `s` is `s0` with every variable's address forced wide.
pub open spec fn widened(s0: Sema, s: Sema) -> bool {
    &&& all_wide(s0.escape@, s.escape@)
    &&& s.program == s0.program
    &&& s.word_targets == s0.word_targets
    &&& s.user_words == s0.user_words
    &&& s.variables == s0.variables
    &&& s.constants == s0.constants
    &&& s.creates == s0.creates
    &&& s.collections == s0.collections
    &&& s.templates == s0.templates
    &&& s.values == s0.values
    &&& s.class_slots == s0.class_slots
    &&& s.user_effects == s0.user_effects
    &&& s.body_effects == s0.body_effects
    &&& s.effect_errors == s0.effect_errors
    &&& s.call_graph == s0.call_graph
    &&& s.use_sites == s0.use_sites
    &&& s.docs == s0.docs
}

/// What compiling the parse result `pr` in context `before` gives, as
/// the code or the error message `r` and the effect diagnostics `warns`
/// (when the caller keeps them): a parse error or a build error is
/// reported and changes nothing; otherwise the code is the emission of
/// the model built in that context, with every variable forced wide,
/// and the context takes in what the program defined.
#[verifier::opaque]
pub open spec fn compiled(
    pr: Result<Program, ParseError>,
    before: CompileContext,
    after: CompileContext,
    r: Result<Seq<char>, Seq<char>>,
    warns: Option<Seq<effect::EffectErrorV>>,
) -> bool {
    match pr {
        Err(pe) => r == Err::<Seq<char>, Seq<char>>(parse::parse_error_text(pe)) && after == before,
        Ok(p) => exists|br: Result<Sema, ResolveError>|
            #[trigger] sema::build_spec(
                p.items@,
                before.user_words@,
                before.user_effects@,
                before.templates@,
                sema::any_recorded(before.templates),
                before.values@,
                before.classes@,
                br,
            ) && match br {
                Err(e) => r == Err::<Seq<char>, Seq<char>>(resolve::resolve_error_text(e@)) && after == before,
                Ok(s0) => merged(before, after, s0)
                    && (warns matches Some(w) ==> w == errors_view(s0.effect_errors@))
                    && exists|s: Sema| #[trigger] widened(s0, s) && r == Ok::<Seq<char>, Seq<char>>(emit::emit_text(s, true)),
            },
    }
}

/// Forgetting the effect diagnostics keeps what a compile states.
pub proof fn lemma_compiled_drop_warns(
    pr: Result<Program, ParseError>,
    before: CompileContext,
    after: CompileContext,
    r: Result<Seq<char>, Seq<char>>,
    w: Option<Seq<effect::EffectErrorV>>,
)
    requires
        compiled(pr, before, after, r, w),
    ensures
        compiled(pr, before, after, r, None),
{
    reveal(compiled);
    if let Ok(p) = pr {
        let br = choose|br: Result<Sema, ResolveError>|
            #[trigger] sema::build_spec(
                p.items@,
                before.user_words@,
                before.user_effects@,
                before.templates@,
                sema::any_recorded(before.templates),
                before.values@,
                before.classes@,
                br,
            ) && match br {
                Err(e) => r == Err::<Seq<char>, Seq<char>>(resolve::resolve_error_text(e@)) && after == before,
                Ok(s0) => merged(before, after, s0)
                    && (w matches Some(x) ==> x == errors_view(s0.effect_errors@))
                    && exists|s: Sema| #[trigger] widened(s0, s) && r == Ok::<Seq<char>, Seq<char>>(emit::emit_text(s, true)),
            };
        assert(sema::build_spec(
            p.items@,
            before.user_words@,
            before.user_effects@,
            before.templates@,
            sema::any_recorded(before.templates),
            before.values@,
            before.classes@,
            br,
        ));
    }
}

/// The code or message of a compile, as text.
pub open spec fn text_of(r: Result<(String, Vec<EffectError>), String>) -> Result<Seq<char>, Seq<char>> {
    match r {
        Ok((ir, _)) => Ok(ir@),
        Err(m) => Err(m@),
    }
}

/// The effect diagnostics of a compile that kept them.
pub open spec fn warns_of(r: Result<(String, Vec<EffectError>), String>) -> Option<Seq<effect::EffectErrorV>> {
    match r {
        Ok((_, w)) => Some(errors_view(w@)),
        Err(_) => None,
    }
}

pub open spec fn text_of1(r: Result<String, String>) -> Result<Seq<char>, Seq<char>> {
    match r {
        Ok(ir) => Ok(ir@),
        Err(m) => Err(m@),
    }
}

/// What a compile with diagnostics of the source bytes `bytes` in
/// context `before` gives: the lexing error, or what the front end and
/// `compiled` say of the result and of the context after it.
pub open spec fn diag_outcome(
    bytes: Seq<u8>,
    before: CompileContext,
    after: CompileContext,
    r: Result<(String, Vec<EffectError>), String>,
) -> bool {
    match spec_lex(bytes) {
        Err(e) => r is Err && r->Err_0@ == lex_error_text(e) && after == before,
        Ok(_) => exists|toks: Seq<Token>, ls: Seq<Option<Result<LetForm, LetError>>>, pr: Result<Program, ParseError>|
            #[trigger] front_end(bytes, toks, ls, pr) && compiled(pr, before, after, text_of(r), warns_of(r)),
    }
}

/// What a compile without diagnostics of `bytes` in context `before`
/// gives: the lexing error, or what the front end and `compiled` say of
/// the code or message and of the context after it.
pub open spec fn plain_outcome(bytes: Seq<u8>, before: CompileContext, after: CompileContext, r: Result<String, String>) -> bool {
    match spec_lex(bytes) {
        Err(e) => r is Err && r->Err_0@ == lex_error_text(e) && after == before,
        Ok(_) => exists|toks: Seq<Token>, ls: Seq<Option<Result<LetForm, LetError>>>, pr: Result<Program, ParseError>|
            #[trigger] front_end(bytes, toks, ls, pr) && compiled(pr, before, after, text_of1(r), None),
    }
}

/// A compile without diagnostics gives what the compile with
/// diagnostics gives, the diagnostics dropped: every outcome of the
/// latter in a context, with the same code or message, is an outcome of
/// the former in that context, leaving the same context after it.
/// (`compile_in_context` states the converse of its own result.)
pub proof fn lemma_plain_of_diag(
    bytes: Seq<u8>,
    before: CompileContext,
    after: CompileContext,
    d: Result<(String, Vec<EffectError>), String>,
    r: Result<String, String>,
)
    requires
        diag_outcome(bytes, before, after, d),
        text_of(d) == text_of1(r),
    ensures
        plain_outcome(bytes, before, after, r),
{
    if spec_lex(bytes) is Ok {
        let (toks, ls, pr) = choose|toks: Seq<Token>, ls: Seq<Option<Result<LetForm, LetError>>>, pr: Result<Program, ParseError>|
            #[trigger] front_end(bytes, toks, ls, pr) && compiled(pr, before, after, text_of(d), warns_of(d));
        lemma_compiled_drop_warns(pr, before, after, text_of(d), warns_of(d));
        assert(front_end(bytes, toks, ls, pr) && compiled(pr, before, after, text_of1(r), None));
    }
}

/// Compile within a session: lex, parse, build the semantic model
/// against what `ctx` remembers, force every variable wide (a later
/// compile may take its address), emit, and merge this compile's
/// definitions into `ctx`.  Stage errors are returned as messages and
/// leave `ctx` unchanged; effect diagnostics are warnings returned with
/// the code.
pub fn compile_in_context_with_diagnostics(source: &str, ctx: &mut CompileContext) -> (r: Result<
    (String, Vec<EffectError>),
    String,
>)
    requires
        source.spec_bytes().len() + 3 <= u32::MAX,
    ensures
        diag_outcome(source.spec_bytes(), *old(ctx), *final(ctx), r),
{
    proof {
        reveal(compiled);
    }
    let ghost bytes = source.spec_bytes();
    let ghost before = *ctx;
    let toks = match lex(source) {
        Ok(t) => t,
        Err(e) => {
            let m = e.message();
            assert(m@ =~= lex_error_text(e@));
            return Err(m);
        },
    };
    let pres = parse(&toks);
    let ghost ls = choose|ls: Seq<Option<Result<LetForm, LetError>>>| slots_fit(toks@, ls) && parsed_as(toks@, ls, pres);
    assert(front_end(bytes, toks@, ls, pres));
    let prog = match pres {
        Ok(p) => p,
        Err(e) => {
            let r = Err(e.message());
            assert(compiled(pres, before, *ctx, text_of(r), warns_of(r)));
            return r;
        },
    };
    let bres = sema::build_with_prior_state(
        prog,
        &ctx.user_words,
        &ctx.user_effects,
        &ctx.templates,
        &ctx.values,
        &ctx.classes,
    );
    let mut sema = match bres {
        Ok(s) => s,
        Err(e) => {
            let r = Err(e.message());
            assert(compiled(pres, before, *ctx, text_of(r), warns_of(r)));
            return r;
        },
    };
    let ghost s0 = sema;
    force_wide(&mut sema.escape);
    let opts = EmitOpts::default();
    let ir = emit(&sema, &opts);
    let ghost s = sema;
    assert(widened(s0, s));
    let words = spans_of_words(&sema.user_words);
    merge_into(&mut ctx.user_words, &words);
    merge_into(&mut ctx.user_effects, &sema.user_effects);
    let vals = spans_of_values(&sema.values);
    merge_into(&mut ctx.values, &vals);
    let Sema { templates, class_slots, effect_errors, .. } = sema;
    absorb(&mut ctx.templates, templates);
    absorb(&mut ctx.classes, class_slots);
    let r = Ok((ir, effect_errors));
    assert(compiled(pres, before, *ctx, text_of(r), warns_of(r)));
    r
}

/// [`compile_in_context_with_diagnostics`] without the warnings.
pub fn compile_in_context(source: &str, ctx: &mut CompileContext) -> (r: Result<String, String>)
    requires
        source.spec_bytes().len() + 3 <= u32::MAX,
    ensures
        plain_outcome(source.spec_bytes(), *old(ctx), *final(ctx), r),
        exists|d: Result<(String, Vec<EffectError>), String>|
            #[trigger] diag_outcome(source.spec_bytes(), *old(ctx), *final(ctx), d) && text_of(d) == text_of1(r),
{
    let ghost before = *ctx;
    let inner = compile_in_context_with_diagnostics(source, ctx);
    proof {
        if spec_lex(source.spec_bytes()) is Ok {
            let (toks, ls, pr) = choose|toks: Seq<Token>, ls: Seq<Option<Result<LetForm, LetError>>>, pr: Result<Program, ParseError>|
                #[trigger] front_end(source.spec_bytes(), toks, ls, pr)
                    && compiled(pr, before, *ctx, text_of(inner), warns_of(inner));
            lemma_compiled_drop_warns(pr, before, *ctx, text_of(inner), warns_of(inner));
        }
    }
    let r = match inner {
        Ok((ir, _warnings)) => Ok(ir),
        Err(e) => Err(e),
    };
    assert(text_of(inner) == text_of1(r));
    r
}

/// Compile one program on its own, returning the Factor code and the
/// effect diagnostics (warnings: the code is emitted with the inferred
/// effects regardless).
pub fn compile_with_diagnostics(source: &str) -> (r: Result<(String, Vec<EffectError>), String>)
    requires
        source.spec_bytes().len() + 3 <= u32::MAX,
    ensures
        match spec_lex(source.spec_bytes()) {
            Err(e) => r is Err && r->Err_0@ == lex_error_text(e),
            Ok(_) => exists|toks: Seq<Token>, ls: Seq<Option<Result<LetForm, LetError>>>, pr: Result<Program, ParseError>|
                #[trigger] front_end(source.spec_bytes(), toks, ls, pr)
                    && exists|c0: CompileContext, c1: CompileContext| #[trigger] compiled(pr, c0, c1, text_of(r), warns_of(r))
                        && c0.is_empty(),
        },
        exists|c0: CompileContext, c1: CompileContext| #[trigger] diag_outcome(source.spec_bytes(), c0, c1, r) && c0.is_empty(),
{
    let mut ctx = CompileContext::new();
    let ghost c0 = ctx;
    let r = compile_in_context_with_diagnostics(source, &mut ctx);
    assert(diag_outcome(source.spec_bytes(), c0, ctx, r));
    proof {
        if spec_lex(source.spec_bytes()) is Ok {
            let (toks, ls, pr) = choose|toks: Seq<Token>, ls: Seq<Option<Result<LetForm, LetError>>>, pr: Result<Program, ParseError>|
                #[trigger] front_end(source.spec_bytes(), toks, ls, pr)
                    && compiled(pr, c0, ctx, text_of(r), warns_of(r));
            assert(compiled(pr, c0, ctx, text_of(r), warns_of(r)));
        }
    }
    r
}

/// ANS Forth source → Factor code.  Effect diagnostics are dropped.
pub fn compile(source: &str) -> (r: Result<String, String>)
    requires
        source.spec_bytes().len() + 3 <= u32::MAX,
    ensures
        match spec_lex(source.spec_bytes()) {
            Err(e) => r is Err && r->Err_0@ == lex_error_text(e),
            Ok(_) => exists|toks: Seq<Token>, ls: Seq<Option<Result<LetForm, LetError>>>, pr: Result<Program, ParseError>|
                #[trigger] front_end(source.spec_bytes(), toks, ls, pr)
                    && exists|c0: CompileContext, c1: CompileContext| #[trigger] compiled(pr, c0, c1, text_of1(r), None)
                        && c0.is_empty(),
        },
        exists|d: Result<(String, Vec<EffectError>), String>, c0: CompileContext, c1: CompileContext|
            #[trigger] diag_outcome(source.spec_bytes(), c0, c1, d) && c0.is_empty() && text_of(d) == text_of1(r),
{
    let inner = compile_with_diagnostics(source);
    proof {
        if spec_lex(source.spec_bytes()) is Ok {
            let (toks, ls, pr) = choose|toks: Seq<Token>, ls: Seq<Option<Result<LetForm, LetError>>>, pr: Result<Program, ParseError>|
                #[trigger] front_end(source.spec_bytes(), toks, ls, pr)
                    && exists|c0: CompileContext, c1: CompileContext| #[trigger] compiled(pr, c0, c1, text_of(inner), warns_of(inner))
                        && c0.is_empty();
            let (c0, c1) = choose|c0: CompileContext, c1: CompileContext| #[trigger] compiled(pr, c0, c1, text_of(inner), warns_of(inner))
                && c0.is_empty();
            lemma_compiled_drop_warns(pr, c0, c1, text_of(inner), warns_of(inner));
        }
    }
    let r = match inner {
        Ok((ir, _warnings)) => Ok(ir),
        Err(e) => Err(e),
    };
    assert(text_of(inner) == text_of1(r));
    r
}

} // verus!
