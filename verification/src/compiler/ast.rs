//! Abstract syntax for ANS Forth.
//!
//! Every node carries its source `Span` so later stages can point at
//! the offending text.  Control-flow keywords (`IF`, `BEGIN`, `DO`,
//! `CASE`, ...) are folded by the parser into structured `Expr`
//! variants; they never appear as word references.
//!
//! Float literals keep their source text: the compiler never does
//! arithmetic on them, it only hands them on to the Factor side.
use vstd::prelude::*;
use super::error::Span;
use super::lex::StringKind;
use super::let_lang::parser::{LetForm, copy_let_form, form_v};
use super::let_lang::syntax::FormV;

verus! {

/// A full parsed source file.
#[derive(Clone, Debug, PartialEq)]
pub struct Program {
    pub items: Vec<Item>,
}

/// Top-level item.
#[derive(Clone, Debug, PartialEq)]
pub enum Item {
    /// `: name ( ... ) body ;`
    Definition(Definition),
    /// A run of interpreter-state expressions, executed at load time.
    TopLevel { exprs: Vec<Expr>, span: Span },
    /// `VARIABLE name`
    Variable(VariableDef),
    /// `<value> CONSTANT name` / `<value> FCONSTANT name`
    Constant(ConstantDef),
    /// `CREATE name [N [CELLS|CHARS] ALLOT]*`
    Create(CreateDef),
    /// `N array name`, `N farray name`, `N cbuffer name`
    Collection(CollectionDef),
    /// A `:` definition containing `CREATE` ... `DOES>`.
    Template(TemplateDef),
    /// An instantiation `N template newname` of a template.
    TemplateInstance(TemplateInstanceDef),
    /// `<expr> VALUE name`
    Value(ValueDef),
    /// `CLASS: name [EXTENDS parent] SLOT: x ... ;`
    Class(ClassDef),
    /// `GENERIC: name ( a -- b )`
    Generic(GenericDef),
    /// `METHOD: gname ( a:cls -- b ) body ;` and its aux flavours.
    Method(MethodDef),
    /// Raw Factor source, passed through by emit verbatim.
    RawFactor(RawFactorItem),
    /// `NEEDS path` include-once directive.
    Needs { path: String, span: Span },
}

/// Introspection record for one defined name, consumed by `SEE`.
#[derive(Clone, Debug, PartialEq, Eq, Default)]
pub struct WordDoc {
    pub kind: String,
    pub effect: String,
    pub source: String,
    pub detail: String,
}

/// `CLASS:` declaration.
#[derive(Clone, Debug, PartialEq)]
pub struct ClassDef {
    pub name: String,
    pub name_span: Span,
    pub extends: Option<String>,
    pub slots: Vec<SlotDef>,
    pub span: Span,
}

#[derive(Clone, Debug, PartialEq)]
pub struct SlotDef {
    pub name: String,
    pub name_span: Span,
}

/// `GENERIC:` declaration.
#[derive(Clone, Debug, PartialEq)]
pub struct GenericDef {
    pub name: String,
    pub name_span: Span,
    pub effect: StackEffect,
    pub span: Span,
}

/// `METHOD:` definition.
#[derive(Clone, Debug, PartialEq)]
pub struct MethodDef {
    pub generic_name: String,
    pub generic_name_span: Span,
    pub specializers: Vec<MethodSpecializer>,
    pub effect: StackEffect,
    pub body: Vec<Expr>,
    pub span: Span,
    pub kind: MethodKind,
}

#[derive(Clone, Copy, Debug, PartialEq, Eq, Structural)]
pub enum MethodKind {
    /// `METHOD:` — computes the value.
    Primary,
    /// `METHOD-BEFORE:` — runs before the primary method.
    Before,
    /// `METHOD-AFTER:` — runs after the primary method.
    After,
}

#[derive(Clone, Debug, PartialEq)]
pub struct MethodSpecializer {
    /// Parameter position (0 = first input).
    pub position: u32,
    pub param_name: String,
    pub class_name: String,
    pub at: Span,
}

#[derive(Clone, Debug, PartialEq)]
pub struct RawFactorItem {
    pub source: String,
    pub span: Span,
}

#[derive(Clone, Debug, PartialEq)]
pub struct TemplateDef {
    pub name: String,
    pub name_span: Span,
    pub effect: Option<StackEffect>,
    /// Expressions strictly between `CREATE` and `DOES>`.
    pub constructor: Vec<Expr>,
    /// Expressions after `DOES>`.
    pub does_body: Vec<Expr>,
    pub span: Span,
}

#[derive(Clone, Debug, PartialEq)]
pub struct TemplateInstanceDef {
    pub name: String,
    pub name_span: Span,
    pub template_name: String,
    pub allocated_bytes: u32,
    pub does_body: Vec<Expr>,
    pub span: Span,
}

#[derive(Clone, Debug, PartialEq)]
pub struct CollectionDef {
    pub name: String,
    pub name_span: Span,
    pub kind: CollectionKind,
    /// Number of elements (cells for array/farray, bytes for cbuffer).
    pub count: u32,
    pub span: Span,
}

#[derive(Clone, Copy, Debug, PartialEq, Eq, Structural)]
pub enum CollectionKind {
    Array,
    FArray,
    CBuffer,
}

/// Bytes per element of a collection kind.
pub open spec fn spec_elt_size(k: CollectionKind) -> u32 {
    match k {
        CollectionKind::Array | CollectionKind::FArray => 8,
        CollectionKind::CBuffer => 1,
    }
}

/// The ANS keyword introducing a collection kind.
pub open spec fn spec_keyword(k: CollectionKind) -> Seq<char> {
    match k {
        CollectionKind::Array => "array"@,
        CollectionKind::FArray => "farray"@,
        CollectionKind::CBuffer => "cbuffer"@,
    }
}

impl CollectionKind {
    /// Bytes per element.
    pub fn elt_size(self) -> (n: u32)
        ensures
            n == spec_elt_size(self),
    {
        match self {
            CollectionKind::Array | CollectionKind::FArray => 8,
            CollectionKind::CBuffer => 1,
        }
    }

    /// The ANS keyword used to introduce this collection.
    pub fn keyword(self) -> (s: &'static str)
        ensures
            s@ == spec_keyword(self),
    {
        match self {
            CollectionKind::Array => {
                proof { reveal_strlit("array"); }
                "array"
            },
            CollectionKind::FArray => {
                proof { reveal_strlit("farray"); }
                "farray"
            },
            CollectionKind::CBuffer => {
                proof { reveal_strlit("cbuffer"); }
                "cbuffer"
            },
        }
    }
}

#[derive(Clone, Debug, PartialEq)]
pub struct CreateDef {
    pub name: String,
    pub name_span: Span,
    /// Total bytes to allocate (0 when no ALLOT followed).
    pub allotted_bytes: u32,
    pub span: Span,
}

#[derive(Clone, Debug, PartialEq)]
pub struct VariableDef {
    pub name: String,
    pub name_span: Span,
    pub span: Span,
}

/// `<expr> VALUE name` — a settable named cell.
#[derive(Clone, Debug, PartialEq)]
pub struct ValueDef {
    pub name: String,
    pub name_span: Span,
    pub initial: Vec<Expr>,
    pub span: Span,
}

#[derive(Clone, Debug, PartialEq)]
pub struct ConstantDef {
    pub name: String,
    pub name_span: Span,
    pub value: ConstValue,
    pub span: Span,
    pub flavour: ConstFlavour,
}

#[derive(Clone, Copy, Debug, PartialEq, Eq, Structural)]
pub enum ConstFlavour {
    /// `CONSTANT` — integer cell.
    Cell,
    /// `FCONSTANT` — IEEE-754 double.
    Float,
}

#[derive(Clone, Debug, PartialEq)]
pub enum ConstValue {
    Int(i64),
    /// A float literal, as written in the source.
    Float(String),
    /// Expressions evaluated once at load time.
    Computed(Vec<Expr>),
}

impl ConstValue {
    pub fn as_int(&self) -> (r: Option<i64>)
        ensures
            r == (match *self {
                ConstValue::Int(v) => Some(v),
                _ => None::<i64>,
            }),
    {
        match self {
            ConstValue::Int(v) => Some(*v),
            _ => None,
        }
    }

    /// The float literal's source text, when this is a float constant.
    pub fn as_float(&self) -> (r: Option<&str>)
        ensures
            match *self {
                ConstValue::Float(t) => r is Some && r->0@ == t@,
                _ => r is None,
            },
    {
        match self {
            ConstValue::Float(t) => Some(t.as_str()),
            _ => None,
        }
    }
}

#[derive(Clone, Debug, PartialEq)]
pub struct Definition {
    pub name: String,
    pub name_span: Span,
    pub effect: Option<StackEffect>,
    /// Forth-2012 `{: ... :}` locals bound at the head of the body.
    pub locals: Vec<LocalDecl>,
    pub body: Vec<Expr>,
    pub span: Span,
}

#[derive(Clone, Debug, PartialEq)]
pub struct LocalDecl {
    pub name: String,
    pub name_span: Span,
}

/// One stack-effect annotation: `( a b -- c )`.
#[derive(Clone, Debug, PartialEq)]
pub struct StackEffect {
    pub inputs: Vec<String>,
    pub outputs: Vec<String>,
    pub span: Span,
}

/// An expression inside a body or at top level.
#[derive(Debug, PartialEq)]
pub enum Expr {
    Lit(Literal),
    WordRef { name: String, span: Span },
    /// `flag IF then [ELSE else] THEN`
    If { then_body: Vec<Expr>, else_body: Option<Vec<Expr>>, span: Span },
    /// `BEGIN body flag UNTIL`
    BeginUntil { body: Vec<Expr>, span: Span },
    /// `BEGIN pred WHILE body REPEAT`
    BeginWhileRepeat { pred: Vec<Expr>, body: Vec<Expr>, span: Span },
    /// `BEGIN body AGAIN`
    BeginAgain { body: Vec<Expr>, span: Span },
    /// `DO`/`?DO` ... `LOOP`/`+LOOP`
    DoLoop { is_qdo: bool, body: Vec<Expr>, loop_kind: LoopKind, span: Span },
    /// `CASE v1 OF b1 ENDOF ... [default] ENDCASE`
    Case { arms: Vec<CaseArm>, default: Option<Vec<Expr>>, span: Span },
    /// `' name` — push the execution token of `name`.
    Tick { name: String, span: Span },
    /// `TO name` — store into the VALUE `name`.
    To { name: String, span: Span },
    /// `SEE name` — print what the compiler knows about `name`.
    See { name: String, span: Span },
    /// `LET (ins) -> (outs) = ... END`
    LetForm { form: LetForm, span: Span },
}

#[derive(Debug, PartialEq)]
pub struct CaseArm {
    pub match_expr: Vec<Expr>,
    pub body: Vec<Expr>,
    pub span: Span,
}

#[derive(Clone, Copy, Debug, PartialEq, Eq, Structural)]
pub enum LoopKind {
    /// `LOOP`: step +1.
    Plus1,
    /// `+LOOP`: the body leaves the step.
    PlusN,
}

#[derive(Clone, Debug, PartialEq)]
pub enum Literal {
    Int { value: i64, span: Span },
    /// A float literal, as written in the source.
    Float { raw: String, span: Span },
    Str { value: String, kind: StringKind, span: Span },
}

/// The span an expression covers.
pub open spec fn expr_span(e: Expr) -> Span {
    match e {
        Expr::Lit(Literal::Int { span, .. }) => span,
        Expr::Lit(Literal::Float { span, .. }) => span,
        Expr::Lit(Literal::Str { span, .. }) => span,
        Expr::WordRef { span, .. } => span,
        Expr::If { span, .. } => span,
        Expr::BeginUntil { span, .. } => span,
        Expr::BeginWhileRepeat { span, .. } => span,
        Expr::BeginAgain { span, .. } => span,
        Expr::DoLoop { span, .. } => span,
        Expr::Case { span, .. } => span,
        Expr::Tick { span, .. } => span,
        Expr::To { span, .. } => span,
        Expr::See { span, .. } => span,
        Expr::LetForm { span, .. } => span,
    }
}

/// Number of expression nodes in an expression, counting itself.
pub open spec fn esize(e: Expr) -> nat
    decreases e,
{
    1 + match e {
        Expr::If { then_body, else_body, .. } =>
            bsize(then_body@) + match else_body { Some(b) => bsize(b@), None => 0 },
        Expr::BeginUntil { body, .. } => bsize(body@),
        Expr::BeginAgain { body, .. } => bsize(body@),
        Expr::DoLoop { body, .. } => bsize(body@),
        Expr::BeginWhileRepeat { pred, body, .. } => bsize(pred@) + bsize(body@),
        Expr::Case { arms, default, .. } => asize(arms@) + match default { Some(b) => bsize(b@), None => 0 },
        _ => 0,
    }
}

/// Number of expression nodes in a sequence.
pub open spec fn bsize(s: Seq<Expr>) -> nat
    decreases s,
{
    if s.len() == 0 { 0 } else { bsize(s.drop_last()) + esize(s.last()) }
}

/// Number of expression nodes in CASE arms.
pub open spec fn asize(s: Seq<CaseArm>) -> nat
    decreases s,
{
    if s.len() == 0 { 0 } else { asize(s.drop_last()) + bsize(s.last().match_expr@) + bsize(s.last().body@) }
}

// ─── Views ─────────────────────────────────────────────────────────────────

/// A literal, as values.
pub enum LitV {
    Int { value: i64, span: Span },
    Float { raw: Seq<char>, span: Span },
    Str { value: Seq<char>, kind: StringKind, span: Span },
}

/// An expression tree, as values.
pub enum ExprV {
    Lit(LitV),
    WordRef { name: Seq<char>, span: Span },
    If { then_body: Seq<ExprV>, else_body: Option<Seq<ExprV>>, span: Span },
    BeginUntil { body: Seq<ExprV>, span: Span },
    BeginWhileRepeat { pred: Seq<ExprV>, body: Seq<ExprV>, span: Span },
    BeginAgain { body: Seq<ExprV>, span: Span },
    DoLoop { is_qdo: bool, body: Seq<ExprV>, loop_kind: LoopKind, span: Span },
    Case { arms: Seq<ArmV>, default: Option<Seq<ExprV>>, span: Span },
    Tick { name: Seq<char>, span: Span },
    To { name: Seq<char>, span: Span },
    See { name: Seq<char>, span: Span },
    LetForm { form: FormV, span: Span },
}

/// A CASE arm, as values.
pub struct ArmV {
    pub match_expr: Seq<ExprV>,
    pub body: Seq<ExprV>,
    pub span: Span,
}

pub open spec fn lit_v(l: Literal) -> LitV {
    match l {
        Literal::Int { value, span } => LitV::Int { value, span },
        Literal::Float { raw, span } => LitV::Float { raw: raw@, span },
        Literal::Str { value, kind, span } => LitV::Str { value: value@, kind, span },
    }
}

/// The value of an expression tree.
pub open spec fn ev(e: Expr) -> ExprV
    decreases e,
{
    match e {
        Expr::Lit(l) => ExprV::Lit(lit_v(l)),
        Expr::WordRef { name, span } => ExprV::WordRef { name: name@, span },
        Expr::If { then_body, else_body, span } => ExprV::If {
            then_body: evs(then_body@),
            else_body: match else_body { Some(b) => Some(evs(b@)), None => None },
            span,
        },
        Expr::BeginUntil { body, span } => ExprV::BeginUntil { body: evs(body@), span },
        Expr::BeginWhileRepeat { pred, body, span } => ExprV::BeginWhileRepeat { pred: evs(pred@), body: evs(body@), span },
        Expr::BeginAgain { body, span } => ExprV::BeginAgain { body: evs(body@), span },
        Expr::DoLoop { is_qdo, body, loop_kind, span } => ExprV::DoLoop { is_qdo, body: evs(body@), loop_kind, span },
        Expr::Case { arms, default, span } => ExprV::Case {
            arms: avs(arms@),
            default: match default { Some(d) => Some(evs(d@)), None => None },
            span,
        },
        Expr::Tick { name, span } => ExprV::Tick { name: name@, span },
        Expr::To { name, span } => ExprV::To { name: name@, span },
        Expr::See { name, span } => ExprV::See { name: name@, span },
        Expr::LetForm { form, span } => ExprV::LetForm { form: form_v(form), span },
    }
}

/// The values of a sequence of expression trees.
pub open spec fn evs(s: Seq<Expr>) -> Seq<ExprV>
    decreases s,
{
    if s.len() == 0 { Seq::empty() } else { evs(s.drop_last()).push(ev(s.last())) }
}

/// The values of a sequence of CASE arms.
pub open spec fn avs(s: Seq<CaseArm>) -> Seq<ArmV>
    decreases s,
{
    if s.len() == 0 {
        Seq::empty()
    } else {
        avs(s.drop_last()).push(ArmV { match_expr: evs(s.last().match_expr@), body: evs(s.last().body@), span: s.last().span })
    }
}

/// The values of an optional sequence.
pub open spec fn oevs(o: Option<Vec<Expr>>) -> Option<Seq<ExprV>> {
    match o {
        Some(b) => Some(evs(b@)),
        None => None,
    }
}

/// `evs` maps element by element.
pub proof fn lemma_evs(s: Seq<Expr>)
    ensures
        evs(s).len() == s.len(),
        forall|k: int| 0 <= k < s.len() ==> #[trigger] evs(s)[k] == ev(s[k]),
    decreases s.len(),
{
    if s.len() > 0 {
        lemma_evs(s.drop_last());
    }
}

/// `evs` distributes over concatenation.
pub proof fn lemma_evs_add(a: Seq<Expr>, b: Seq<Expr>)
    ensures
        evs(a + b) == evs(a) + evs(b),
{
    lemma_evs(a);
    lemma_evs(b);
    lemma_evs(a + b);
    assert(evs(a + b) =~= evs(a) + evs(b));
}

/// `evs` commutes with dropping a prefix.
pub proof fn lemma_evs_skip(s: Seq<Expr>, k: int)
    requires
        0 <= k <= s.len(),
    ensures
        evs(s.skip(k)) == evs(s).skip(k),
{
    lemma_evs(s);
    lemma_evs(s.skip(k));
    assert(evs(s.skip(k)) =~= evs(s).skip(k));
}

/// `avs` maps element by element.
pub proof fn lemma_avs(s: Seq<CaseArm>)
    ensures
        avs(s).len() == s.len(),
        forall|k: int| 0 <= k < s.len() ==> #[trigger] avs(s)[k]
            == (ArmV { match_expr: evs(s[k].match_expr@), body: evs(s[k].body@), span: s[k].span }),
    decreases s.len(),
{
    if s.len() > 0 {
        lemma_avs(s.drop_last());
    }
}

/// Sizes add over concatenation.
pub proof fn lemma_bsize_append(a: Seq<Expr>, b: Seq<Expr>)
    ensures
        bsize(a + b) == bsize(a) + bsize(b),
    decreases b.len(),
{
    if b.len() == 0 {
        assert(a + b =~= a);
    } else {
        assert((a + b).drop_last() =~= a + b.drop_last());
        assert((a + b).last() == b.last());
        lemma_bsize_append(a, b.drop_last());
    }
}

/// A sequence's size splits around any element.
pub proof fn lemma_bsize_split(s: Seq<Expr>, i: int)
    requires
        0 <= i < s.len(),
    ensures
        bsize(s) == bsize(s.take(i)) + esize(s[i]) + bsize(s.skip(i + 1)),
{
    assert(s =~= s.take(i) + seq![s[i]] + s.skip(i + 1));
    lemma_bsize_append(s.take(i) + seq![s[i]], s.skip(i + 1));
    lemma_bsize_append(s.take(i), seq![s[i]]);
    let one = seq![s[i]];
    assert(one.drop_last() =~= Seq::<Expr>::empty());
    assert(one.last() == s[i]);
    assert(bsize(one) == bsize(one.drop_last()) + esize(one.last()));
    assert(bsize(Seq::<Expr>::empty()) == 0);
}

/// A deep copy of an expression.
pub fn copy_expr(e: &Expr) -> (r: Expr)
    ensures
        expr_span(r) == expr_span(*e),
        (e is Lit || e is WordRef || e is Tick || e is To || e is See) ==> r == *e,
        e is LetForm ==> r is LetForm,
        (e is If <==> r is If) && (e is Case <==> r is Case) && (e is WordRef <==> r is WordRef),
        esize(r) == esize(*e),
        ev(r) == ev(*e),
    decreases e,
{
    match e {
        Expr::Lit(Literal::Int { value, span }) => Expr::Lit(Literal::Int { value: *value, span: *span }),
        Expr::Lit(Literal::Float { raw, span }) => Expr::Lit(Literal::Float { raw: raw.clone(), span: *span }),
        Expr::Lit(Literal::Str { value, kind, span }) => Expr::Lit(Literal::Str { value: value.clone(), kind: *kind, span: *span }),
        Expr::WordRef { name, span } => Expr::WordRef { name: name.clone(), span: *span },
        Expr::If { then_body, else_body, span } => Expr::If {
            then_body: copy_exprs(then_body),
            else_body: copy_opt_exprs(else_body),
            span: *span,
        },
        Expr::BeginUntil { body, span } => Expr::BeginUntil { body: copy_exprs(body), span: *span },
        Expr::BeginWhileRepeat { pred, body, span } => Expr::BeginWhileRepeat {
            pred: copy_exprs(pred),
            body: copy_exprs(body),
            span: *span,
        },
        Expr::BeginAgain { body, span } => Expr::BeginAgain { body: copy_exprs(body), span: *span },
        Expr::DoLoop { is_qdo, body, loop_kind, span } => Expr::DoLoop {
            is_qdo: *is_qdo,
            body: copy_exprs(body),
            loop_kind: *loop_kind,
            span: *span,
        },
        Expr::Case { arms, default, span } => Expr::Case {
            arms: copy_arms(arms),
            default: copy_opt_exprs(default),
            span: *span,
        },
        Expr::Tick { name, span } => Expr::Tick { name: name.clone(), span: *span },
        Expr::To { name, span } => Expr::To { name: name.clone(), span: *span },
        Expr::See { name, span } => Expr::See { name: name.clone(), span: *span },
        Expr::LetForm { form, span } => Expr::LetForm { form: copy_let_form(form), span: *span },
    }
}

/// A deep copy of an expression list.
pub fn copy_exprs(v: &Vec<Expr>) -> (r: Vec<Expr>)
    ensures
        r.len() == v.len(),
        forall|i: int| 0 <= i < v.len() ==> expr_span(#[trigger] r@[i]) == expr_span(v@[i]),
        bsize(r@) == bsize(v@),
        evs(r@) == evs(v@),
    decreases v,
{
    let mut r: Vec<Expr> = Vec::new();
    let mut i: usize = 0;
    assert(v@.take(0) =~= Seq::<Expr>::empty());
    while i < v.len()
        invariant
            i <= v.len(),
            r.len() == i,
            forall|k: int| 0 <= k < i ==> expr_span(#[trigger] r@[k]) == expr_span(v@[k]),
            bsize(r@) == bsize(v@.take(i as int)),
            evs(r@) == evs(v@.take(i as int)),
        decreases v.len() - i,
    {
        let ghost before = r@;
        r.push(copy_expr(&v[i]));
        proof {
            assert(r@.drop_last() =~= before);
            let t = v@.take(i + 1);
            assert(t.drop_last() =~= v@.take(i as int));
            assert(t.last() == v@[i as int]);
        }
        i = i + 1;
    }
    assert(v@.take(i as int) =~= v@);
    r
}

pub fn copy_opt_exprs(v: &Option<Vec<Expr>>) -> (r: Option<Vec<Expr>>)
    ensures
        r is Some <==> v is Some,
        r is Some ==> bsize(r->Some_0@) == bsize(v->Some_0@),
        oevs(r) == oevs(*v),
    decreases v,
{
    match v {
        Some(b) => Some(copy_exprs(b)),
        None => None,
    }
}

pub fn copy_arm(a: &CaseArm) -> (r: CaseArm)
    ensures
        r.span == a.span,
        bsize(r.match_expr@) == bsize(a.match_expr@),
        bsize(r.body@) == bsize(a.body@),
        evs(r.match_expr@) == evs(a.match_expr@),
        evs(r.body@) == evs(a.body@),
    decreases a,
{
    CaseArm { match_expr: copy_exprs(&a.match_expr), body: copy_exprs(&a.body), span: a.span }
}

pub fn copy_arms(v: &Vec<CaseArm>) -> (r: Vec<CaseArm>)
    ensures
        r.len() == v.len(),
        asize(r@) == asize(v@),
        avs(r@) == avs(v@),
    decreases v,
{
    let mut r: Vec<CaseArm> = Vec::new();
    let mut i: usize = 0;
    assert(v@.take(0) =~= Seq::<CaseArm>::empty());
    while i < v.len()
        invariant
            i <= v.len(),
            r.len() == i,
            asize(r@) == asize(v@.take(i as int)),
            avs(r@) == avs(v@.take(i as int)),
        decreases v.len() - i,
    {
        let ghost before = r@;
        r.push(copy_arm(&v[i]));
        proof {
            assert(r@.drop_last() =~= before);
            let t = v@.take(i + 1);
            assert(t.drop_last() =~= v@.take(i as int));
            assert(t.last() == v@[i as int]);
        }
        i = i + 1;
    }
    assert(v@.take(i as int) =~= v@);
    r
}

impl Clone for Expr {
    fn clone(&self) -> (r: Self)
        ensures
            ev(r) == ev(*self),
    {
        copy_expr(self)
    }
}

impl Clone for CaseArm {
    fn clone(&self) -> (r: Self)
        ensures
            r.span == self.span,
            evs(r.match_expr@) == evs(self.match_expr@),
            evs(r.body@) == evs(self.body@),
    {
        copy_arm(self)
    }
}

impl Expr {
    pub fn span(&self) -> (s: Span)
        ensures
            s == expr_span(*self),
    {
        match self {
            Expr::Lit(Literal::Int { span, .. }) => *span,
            Expr::Lit(Literal::Float { span, .. }) => *span,
            Expr::Lit(Literal::Str { span, .. }) => *span,
            Expr::WordRef { span, .. } => *span,
            Expr::If { span, .. } => *span,
            Expr::BeginUntil { span, .. } => *span,
            Expr::BeginWhileRepeat { span, .. } => *span,
            Expr::BeginAgain { span, .. } => *span,
            Expr::DoLoop { span, .. } => *span,
            Expr::Case { span, .. } => *span,
            Expr::Tick { span, .. } => *span,
            Expr::To { span, .. } => *span,
            Expr::See { span, .. } => *span,
            Expr::LetForm { span, .. } => *span,
        }
    }
}

} // verus!
