//! Lowering of a parsed LET form to a Factor quotation:
//!
//! ```text
//! [| in_1 ... | <destructure bindings> <where bindings> <results> ] call( in_1 ... -- out_1 ... )
//! ```
//!
//! The block consumes one stack item per input and leaves one per
//! output.  LET identifiers are prefixed `nfl-` so they cannot collide
//! with the surrounding Forth names.
use vstd::prelude::*;
use crate::compiler::decimal::{dec_of, dec_parts, is_integral, push_disp, shown};
use crate::text;
use crate::compiler::names::{NameMap, static_view, table_get, lookup_static};
use crate::compiler::lower_classes::{names_view, slot_table_view};
use super::parser::{BinOp, Expr, LetForm, LetInput};

verus! {

/// The Factor local a LET identifier becomes.
pub open spec fn local_text(n: Seq<char>) -> Seq<char> {
    "nfl-"@ + n
}

/// Mangle a LET identifier to a Factor local name.
pub fn factor_local(name: &str) -> (s: String)
    ensures
        s@ == local_text(name@),
{
    let mut s = text::owned("nfl-");
    s.push_str(name);
    s
}

/// A number literal in its source spelling, made a Factor float:
/// unchanged when it already has a `.` or an exponent, else with `.0`
/// appended.
pub open spec fn num_src_text(raw: Seq<char>) -> Seq<char> {
    if raw.contains('.') || raw.contains('e') || raw.contains('E') { raw } else { raw + ".0"@ }
}

fn push_num_src(out: &mut String, raw: &str)
    ensures
        final(out)@ == old(out)@ + num_src_text(raw@),
{
    let cs = text::chars_of(raw);
    let mut i: usize = 0;
    let mut floaty = false;
    while i < cs.len()
        invariant
            i <= cs@.len(),
            cs@ == raw@,
            floaty == exists|k: int| 0 <= k < i && (cs@[k] == '.' || cs@[k] == 'e' || cs@[k] == 'E'),
        decreases cs@.len() - i,
    {
        if cs[i] == '.' || cs[i] == 'e' || cs[i] == 'E' {
            floaty = true;
        }
        i = i + 1;
    }
    proof {
        if floaty {
            let k = choose|k: int| 0 <= k < i && (cs@[k] == '.' || cs@[k] == 'e' || cs@[k] == 'E');
            assert(raw@[k] == cs@[k]);
        } else {
            assert(!raw@.contains('.'));
            assert(!raw@.contains('e'));
            assert(!raw@.contains('E'));
        }
    }
    out.push_str(raw);
    if !floaty {
        out.push_str(".0");
    }
}

/// A number literal as Factor float text: its decimal value in
/// positional notation, with `.0` after a whole number below 10^15 so
/// Factor reads a float (`5` → `5.0`, `2.50` → `2.5`); a literal that is
/// no such value keeps its source spelling.
pub open spec fn num_text(raw: Seq<char>) -> Seq<char> {
    match dec_of(raw) {
        Some(d) => shown(d) + (if is_integral(d) && d.point <= 15 { ".0"@ } else { Seq::empty() }),
        None => num_src_text(raw),
    }
}

fn push_num(out: &mut String, raw: &str)
    ensures
        final(out)@ == old(out)@ + num_text(raw@),
{
    match dec_parts(raw) {
        Some((neg, ds, p)) => {
            if neg {
                out.push('-');
            }
            push_disp(out, &ds, p);
            if (ds.len() == 0 || (p >= 0 && (p as usize) >= ds.len())) && p <= 15 {
                out.push_str(".0");
            }
            assert(final(out)@ =~= old(out)@ + num_text(raw@));
        },
        None => push_num_src(out, raw),
    }
}

/// The Factor code of a binary operator.  Comparisons yield 1.0 / 0.0.
pub open spec fn bin_op_text(op: BinOp) -> Seq<char> {
    match op {
        BinOp::Add => "math:+"@,
        BinOp::Sub => "math:-"@,
        BinOp::Mul => "math:*"@,
        BinOp::Div => "math:/"@,
        BinOp::Pow => "math.functions:^"@,
        BinOp::Eq => "kernel:=  1.0 0.0 kernel:?"@,
        BinOp::Ne => "kernel:=  kernel:not  1.0 0.0 kernel:?"@,
        BinOp::Lt => "math.order:<   1.0 0.0 kernel:?"@,
        BinOp::Gt => "math.order:>   1.0 0.0 kernel:?"@,
        BinOp::Le => "math.order:<=  1.0 0.0 kernel:?"@,
        BinOp::Ge => "math.order:>=  1.0 0.0 kernel:?"@,
    }
}

pub fn factor_bin_op(op: BinOp) -> (s: &'static str)
    ensures
        s@ == bin_op_text(op),
{
    match op {
        BinOp::Add => "math:+",
        BinOp::Sub => "math:-",
        BinOp::Mul => "math:*",
        BinOp::Div => "math:/",
        BinOp::Pow => "math.functions:^",
        BinOp::Eq => "kernel:=  1.0 0.0 kernel:?",
        BinOp::Ne => "kernel:=  kernel:not  1.0 0.0 kernel:?",
        BinOp::Lt => "math.order:<   1.0 0.0 kernel:?",
        BinOp::Gt => "math.order:>   1.0 0.0 kernel:?",
        BinOp::Le => "math.order:<=  1.0 0.0 kernel:?",
        BinOp::Ge => "math.order:>=  1.0 0.0 kernel:?",
    }
}

/// How a binary operator is written in LET source (`**` may also be
/// written `^`).
pub open spec fn op_spelling(op: BinOp) -> Seq<char> {
    match op {
        BinOp::Add => "+"@,
        BinOp::Sub => "-"@,
        BinOp::Mul => "*"@,
        BinOp::Div => "/"@,
        BinOp::Pow => "^"@,
        BinOp::Eq => "=="@,
        BinOp::Ne => "!="@,
        BinOp::Lt => "<"@,
        BinOp::Gt => ">"@,
        BinOp::Le => "<="@,
        BinOp::Ge => ">="@,
    }
}

/// `n` blanks.
pub open spec fn blanks(n: nat) -> Seq<char> {
    Seq::new(n, |i: int| ' ')
}

/// What follows a Factor comparison in LET code: its `t`/`f` becomes
/// the number `1.0`/`0.0`.
pub open spec fn to_number_flag() -> Seq<char> {
    "1.0 0.0 kernel:?"@
}

/// Each LET operator lowers to the Factor word of the same operator:
/// `+ - * /` to the `math:` word spelt the same, `^` to
/// `math.functions:^`, `< > <= >=` to the `math.order:` word spelt the
/// same, `==` to `kernel:=`, and `!=` to `kernel:=` negated; every
/// comparison's result is then made a number.
pub proof fn lemma_bin_op_words(op: BinOp)
    ensures
        (op is Add || op is Sub || op is Mul || op is Div) ==> bin_op_text(op) == "math:"@ + op_spelling(op),
        op is Pow ==> bin_op_text(op) == "math.functions:"@ + op_spelling(op),
        (op is Lt || op is Gt || op is Le || op is Ge) ==> bin_op_text(op) == "math.order:"@ + op_spelling(op)
            + blanks((4 - op_spelling(op).len()) as nat) + to_number_flag(),
        op is Eq ==> bin_op_text(op) == "kernel:="@ + blanks(2) + to_number_flag(),
        op is Ne ==> bin_op_text(op) == "kernel:="@ + blanks(2) + "kernel:not"@ + blanks(2) + to_number_flag(),
{
    reveal_strlit("1.0 0.0 kernel:?");
    reveal_strlit("math:");
    reveal_strlit("math.functions:");
    reveal_strlit("math.order:");
    reveal_strlit("kernel:=");
    reveal_strlit("kernel:not");
    match op {
        BinOp::Add => {
            reveal_strlit("math:+");
            reveal_strlit("+");
            assert(bin_op_text(op) =~= "math:"@ + op_spelling(op));
        },
        BinOp::Sub => {
            reveal_strlit("math:-");
            reveal_strlit("-");
            assert(bin_op_text(op) =~= "math:"@ + op_spelling(op));
        },
        BinOp::Mul => {
            reveal_strlit("math:*");
            reveal_strlit("*");
            assert(bin_op_text(op) =~= "math:"@ + op_spelling(op));
        },
        BinOp::Div => {
            reveal_strlit("math:/");
            reveal_strlit("/");
            assert(bin_op_text(op) =~= "math:"@ + op_spelling(op));
        },
        BinOp::Pow => {
            reveal_strlit("math.functions:^");
            reveal_strlit("^");
            assert(bin_op_text(op) =~= "math.functions:"@ + op_spelling(op));
        },
        BinOp::Eq => {
            reveal_strlit("kernel:=  1.0 0.0 kernel:?");
            assert(bin_op_text(op) =~= "kernel:="@ + blanks(2) + to_number_flag());
        },
        BinOp::Ne => {
            reveal_strlit("kernel:=  kernel:not  1.0 0.0 kernel:?");
            assert(bin_op_text(op) =~= "kernel:="@ + blanks(2) + "kernel:not"@ + blanks(2) + to_number_flag());
        },
        BinOp::Lt => {
            reveal_strlit("math.order:<   1.0 0.0 kernel:?");
            reveal_strlit("<");
            assert(bin_op_text(op) =~= "math.order:"@ + op_spelling(op) + blanks(3) + to_number_flag());
        },
        BinOp::Gt => {
            reveal_strlit("math.order:>   1.0 0.0 kernel:?");
            reveal_strlit(">");
            assert(bin_op_text(op) =~= "math.order:"@ + op_spelling(op) + blanks(3) + to_number_flag());
        },
        BinOp::Le => {
            reveal_strlit("math.order:<=  1.0 0.0 kernel:?");
            reveal_strlit("<=");
            assert(bin_op_text(op) =~= "math.order:"@ + op_spelling(op) + blanks(2) + to_number_flag());
        },
        BinOp::Ge => {
            reveal_strlit("math.order:>=  1.0 0.0 kernel:?");
            reveal_strlit(">=");
            assert(bin_op_text(op) =~= "math.order:"@ + op_spelling(op) + blanks(2) + to_number_flag());
        },
    }
}

/// The functions a LET body may call, and the Factor word of each.
pub open spec fn call_table() -> Seq<(Seq<char>, &'static str)> {
    seq![
        ("sqrt"@, "math.functions:sqrt"),
        ("abs"@, "math:abs"),
        ("min"@, "math.order:min"),
        ("max"@, "math.order:max"),
        ("floor"@, "math.functions:floor"),
        ("ceil"@, "math.functions:ceiling"),
        ("round"@, "math.functions:round"),
        ("trunc"@, "math.functions:truncate"),
        ("sin"@, "math.functions:sin"),
        ("cos"@, "math.functions:cos"),
        ("tan"@, "math.functions:tan"),
        ("asin"@, "math.functions:asin"),
        ("acos"@, "math.functions:acos"),
        ("atan"@, "math.functions:atan"),
        ("atan2"@, "math.functions:atan2"),
        ("exp"@, "math.functions:exp"),
        ("log"@, "math.functions:log"),
        ("pow"@, "math.functions:^"),
        ("hypot"@, "math.functions:hypot"),
        ("pi"@, "math.constants:pi"),
        ("e"@, "math.constants:e"),
    ]
}

/// The LET functions and the Factor words that compute them: the
/// rounding and arithmetic intrinsics, the libm functions (`pow` is
/// Factor's `^`), and the constants `pi` and `e`.
pub open spec fn let_function_words() -> Seq<(Seq<char>, Seq<char>)> {
    seq![
        ("sqrt"@, "math.functions:sqrt"@),
        ("abs"@, "math:abs"@),
        ("min"@, "math.order:min"@),
        ("max"@, "math.order:max"@),
        ("floor"@, "math.functions:floor"@),
        ("ceil"@, "math.functions:ceiling"@),
        ("round"@, "math.functions:round"@),
        ("trunc"@, "math.functions:truncate"@),
        ("sin"@, "math.functions:sin"@),
        ("cos"@, "math.functions:cos"@),
        ("tan"@, "math.functions:tan"@),
        ("asin"@, "math.functions:asin"@),
        ("acos"@, "math.functions:acos"@),
        ("atan"@, "math.functions:atan"@),
        ("atan2"@, "math.functions:atan2"@),
        ("exp"@, "math.functions:exp"@),
        ("log"@, "math.functions:log"@),
        ("pow"@, "math.functions:^"@),
        ("hypot"@, "math.functions:hypot"@),
        ("pi"@, "math.constants:pi"@),
        ("e"@, "math.constants:e"@),
    ]
}

/// Every LET function the lowering knows goes to the Factor word that
/// computes it, and no other function is known.
pub proof fn lemma_call_words()
    ensures
        call_table().map_values(|p: (Seq<char>, &'static str)| (p.0, p.1@)) == let_function_words(),
{
    assert(call_table().map_values(|p: (Seq<char>, &'static str)| (p.0, p.1@)) =~= let_function_words());
}

/// The Factor word a LET call lowers to; an unknown function becomes a
/// word that fails at run time.
pub open spec fn call_target_text(name: Seq<char>) -> Seq<char> {
    match table_get(call_table(), name) {
        Some(w) => w@,
        None => "kernel:throw-LET-unknown-call"@,
    }
}

fn call_targets() -> (t: Vec<(&'static str, &'static str)>)
    ensures
        static_view(t@) == call_table(),
{
    let mut t: Vec<(&'static str, &'static str)> = Vec::new();
    t.push(("sqrt", "math.functions:sqrt"));
    t.push(("abs", "math:abs"));
    t.push(("min", "math.order:min"));
    t.push(("max", "math.order:max"));
    t.push(("floor", "math.functions:floor"));
    t.push(("ceil", "math.functions:ceiling"));
    t.push(("round", "math.functions:round"));
    t.push(("trunc", "math.functions:truncate"));
    t.push(("sin", "math.functions:sin"));
    t.push(("cos", "math.functions:cos"));
    t.push(("tan", "math.functions:tan"));
    t.push(("asin", "math.functions:asin"));
    t.push(("acos", "math.functions:acos"));
    t.push(("atan", "math.functions:atan"));
    t.push(("atan2", "math.functions:atan2"));
    t.push(("exp", "math.functions:exp"));
    t.push(("log", "math.functions:log"));
    t.push(("pow", "math.functions:^"));
    t.push(("hypot", "math.functions:hypot"));
    t.push(("pi", "math.constants:pi"));
    t.push(("e", "math.constants:e"));
    assert(static_view(t@) =~= call_table());
    t
}

/// Map a LET function name to a Factor word.
pub fn factor_call_target(name: &str) -> (s: &'static str)
    ensures
        s@ == call_target_text(name@),
{
    let t = call_targets();
    match lookup_static(&t, name) {
        Some(w) => w,
        None => {
            proof { reveal_strlit("kernel:throw-LET-unknown-call"); }
            "kernel:throw-LET-unknown-call"
        },
    }
}

/// Postfix Factor code of a LET expression.
pub open spec fn expr_text(e: Expr) -> Seq<char>
    decreases e,
{
    match e {
        Expr::Lit(raw) => num_text(raw@),
        Expr::Var(n) => local_text(n@),
        Expr::Neg(x) => expr_text(*x) + " math:neg"@,
        Expr::Bin(op, l, r) => expr_text(*l) + " "@ + expr_text(*r) + " "@ + bin_op_text(op),
        Expr::Call(n, args) => args_text(args@) + call_target_text(n@),
    }
}

/// Each argument's code followed by a blank.
pub open spec fn args_text(s: Seq<Expr>) -> Seq<char>
    decreases s,
{
    if s.len() == 0 { Seq::empty() } else { args_text(s.drop_last()) + expr_text(s.last()) + " "@ }
}

fn emit_expr(e: &Expr, out: &mut String)
    ensures
        final(out)@ == old(out)@ + expr_text(*e),
    decreases e,
{
    match e {
        Expr::Lit(raw) => push_num(out, raw.as_str()),
        Expr::Var(name) => {
            out.push_str("nfl-");
            out.push_str(name.as_str());
        },
        Expr::Neg(inner) => {
            emit_expr(inner, out);
            out.push_str(" math:neg");
        },
        Expr::Bin(op, l, r) => {
            emit_expr(l, out);
            out.push_str(" ");
            emit_expr(r, out);
            out.push_str(" ");
            out.push_str(factor_bin_op(*op));
        },
        Expr::Call(name, args) => {
            emit_args(args, out);
            out.push_str(factor_call_target(name.as_str()));
        },
    }
    assert(final(out)@ =~= old(out)@ + expr_text(*e));
}

fn emit_args(args: &Vec<Expr>, out: &mut String)
    ensures
        final(out)@ == old(out)@ + args_text(args@),
    decreases args,
{
    let mut i: usize = 0;
    assert(args@.take(0) =~= Seq::<Expr>::empty());
    while i < args.len()
        invariant
            i <= args@.len(),
            out@ == old(out)@ + args_text(args@.take(i as int)),
        decreases args@.len() - i,
    {
        emit_expr(&args[i], out);
        out.push_str(" ");
        proof {
            let t = args@.take(i + 1);
            assert(t.drop_last() =~= args@.take(i as int));
            assert(t.last() == args@[i as int]);
        }
        i = i + 1;
        assert(out@ =~= old(out)@ + args_text(args@.take(i as int)));
    }
    assert(args@.take(i as int) =~= args@);
}

/// `nfl-a nfl-b ... ` for a list of input names.
pub open spec fn inputs_text(s: Seq<LetInput>) -> Seq<char>
    decreases s.len(),
{
    if s.len() == 0 { Seq::empty() } else { inputs_text(s.drop_last()) + local_text(s.last().name@) + " "@ }
}

/// `nfl-a nfl-b ... ` for a list of names.
pub open spec fn locals_text(s: Seq<String>) -> Seq<char>
    decreases s.len(),
{
    if s.len() == 0 { Seq::empty() } else { locals_text(s.drop_last()) + local_text(s.last()@) + " "@ }
}

/// Bindings `nfl-p cls>slot :> nfl-alias ` for the first `k` aliases.
pub open spec fn alias_text(p: Seq<char>, cls: Seq<char>, actual: Seq<Seq<char>>, aliases: Seq<String>, k: nat) -> Seq<char>
    decreases k,
{
    if k == 0 {
        Seq::empty()
    } else {
        alias_text(p, cls, actual, aliases, (k - 1) as nat) + local_text(p) + " "@ + cls + ">"@ + actual[k - 1]
            + " :> "@ + local_text(aliases[k - 1]@) + " "@
    }
}

/// The destructure bindings of the inputs, or the first error.
pub open spec fn destructure_text(s: Seq<LetInput>, classes: Map<Seq<char>, Seq<Seq<char>>>) -> Result<Seq<char>, Seq<char>>
    decreases s.len(),
{
    if s.len() == 0 {
        Ok(Seq::empty())
    } else {
        match destructure_text(s.drop_last(), classes) {
            Err(e) => Err(e),
            Ok(prev) => match s.last().destructure {
                None => Ok(prev),
                Some(d) => {
                    let cls = text::ascii_lower(d.class@);
                    if !classes.contains_key(cls) {
                        Err("class `"@ + d.class@ + "` not found (in destructure of `"@ + s.last().name@ + "`)"@)
                    } else if d.slots@.len() > classes[cls].len() {
                        Err("`"@ + s.last().name@ + ":"@ + d.class@ + " as ...` lists "@
                            + text::nat_decimal(d.slots@.len()) + " aliases but `"@ + d.class@ + "` has "@
                            + text::nat_decimal(classes[cls].len()) + " slots"@)
                    } else {
                        Ok(prev + alias_text(s.last().name@, cls, classes[cls], d.slots@, d.slots@.len()))
                    }
                },
            },
        }
    }
}

/// `expr :> nfl-name ` per WHERE binding.
pub open spec fn wheres_text(s: Seq<(String, Expr)>) -> Seq<char>
    decreases s.len(),
{
    if s.len() == 0 {
        Seq::empty()
    } else {
        wheres_text(s.drop_last()) + expr_text(s.last().1) + " "@ + ":> "@ + local_text(s.last().0@) + " "@
    }
}

/// `expr ` per result.
pub open spec fn results_text(s: Seq<Expr>) -> Seq<char>
    decreases s.len(),
{
    if s.len() == 0 { Seq::empty() } else { results_text(s.drop_last()) + expr_text(s.last()) + " "@ }
}

/// The whole lowered LET form, or the destructuring error.
pub open spec fn let_text(f: LetForm, classes: Map<Seq<char>, Seq<Seq<char>>>) -> Result<Seq<char>, Seq<char>> {
    match destructure_text(f.inputs@, classes) {
        Err(e) => Err(e),
        Ok(d) => Ok("[| "@ + inputs_text(f.inputs@) + "| "@ + d + wheres_text(f.wheres@) + results_text(f.results@)
            + "] call( "@ + inputs_text(f.inputs@) + "-- "@ + locals_text(f.outputs@) + ")"@),
    }
}

fn push_inputs(out: &mut String, inputs: &Vec<LetInput>)
    ensures
        final(out)@ == old(out)@ + inputs_text(inputs@),
{
    let mut i: usize = 0;
    assert(inputs@.take(0) =~= Seq::<LetInput>::empty());
    while i < inputs.len()
        invariant
            i <= inputs@.len(),
            out@ == old(out)@ + inputs_text(inputs@.take(i as int)),
        decreases inputs@.len() - i,
    {
        out.push_str("nfl-");
        out.push_str(inputs[i].name.as_str());
        out.push_str(" ");
        proof {
            let t = inputs@.take(i + 1);
            assert(t.drop_last() =~= inputs@.take(i as int));
            assert(t.last() == inputs@[i as int]);
        }
        i = i + 1;
        assert(out@ =~= old(out)@ + inputs_text(inputs@.take(i as int)));
    }
    assert(inputs@.take(i as int) =~= inputs@);
}

fn push_destructures(out: &mut String, inputs: &Vec<LetInput>, class_slots: &NameMap<Vec<String>>) -> (r: Result<(), String>)
    ensures
        match destructure_text(inputs@, slot_table_view(class_slots@)) {
            Ok(d) => r is Ok && final(out)@ == old(out)@ + d,
            Err(e) => r is Err && r->Err_0@ == e,
        },
{
    let ghost classes = slot_table_view(class_slots@);
    let mut i: usize = 0;
    assert(inputs@.take(0) =~= Seq::<LetInput>::empty());
    while i < inputs.len()
        invariant
            i <= inputs@.len(),
            classes == slot_table_view(class_slots@),
            destructure_text(inputs@.take(i as int), classes) is Ok,
            out@ == old(out)@ + destructure_text(inputs@.take(i as int), classes)->Ok_0,
        decreases inputs@.len() - i,
    {
        let inp = &inputs[i];
        proof {
            let t = inputs@.take(i + 1);
            assert(t.drop_last() =~= inputs@.take(i as int));
            assert(t.last() == inputs@[i as int]);
        }
        match &inp.destructure {
            None => {},
            Some(d) => {
                let cls = text::to_lower(d.class.as_str());
                let actual = match class_slots.get(cls.as_str()) {
                    Some(a) => a,
                    None => {
                        let mut m = text::owned("class `");
                        m.push_str(d.class.as_str());
                        m.push_str("` not found (in destructure of `");
                        m.push_str(inp.name.as_str());
                        m.push_str("`)");
                        proof { lemma_destructure_err(inputs@, i as int, classes); }
                        return Err(m);
                    },
                };
                proof {
                    assert(classes.contains_key(cls@));
                    assert(classes[cls@] == names_view(actual@));
                }
                if d.slots.len() > actual.len() {
                    let mut m = text::owned("`");
                    m.push_str(inp.name.as_str());
                    m.push_str(":");
                    m.push_str(d.class.as_str());
                    m.push_str(" as ...` lists ");
                    text::push_decimal(&mut m, d.slots.len() as u64);
                    m.push_str(" aliases but `");
                    m.push_str(d.class.as_str());
                    m.push_str("` has ");
                    text::push_decimal(&mut m, actual.len() as u64);
                    m.push_str(" slots");
                    proof { lemma_destructure_err(inputs@, i as int, classes); }
                    return Err(m);
                }
                let ghost base = out@;
                let mut k: usize = 0;
                while k < d.slots.len()
                    invariant
                        k <= d.slots@.len(),
                        d.slots@.len() <= actual@.len(),
                        out@ == base + alias_text(inp.name@, cls@, names_view(actual@), d.slots@, k as nat),
                    decreases d.slots@.len() - k,
                {
                    out.push_str("nfl-");
                    out.push_str(inp.name.as_str());
                    out.push_str(" ");
                    out.push_str(cls.as_str());
                    out.push_str(">");
                    out.push_str(actual[k].as_str());
                    out.push_str(" :> ");
                    out.push_str("nfl-");
                    out.push_str(d.slots[k].as_str());
                    out.push_str(" ");
                    k = k + 1;
                    assert(out@ =~= base + alias_text(inp.name@, cls@, names_view(actual@), d.slots@, k as nat));
                }
            },
        }
        i = i + 1;
        assert(out@ =~= old(out)@ + destructure_text(inputs@.take(i as int), classes)->Ok_0);
    }
    assert(inputs@.take(i as int) =~= inputs@);
    Ok(())
}

proof fn lemma_destructure_err(s: Seq<LetInput>, i: int, classes: Map<Seq<char>, Seq<Seq<char>>>)
    requires
        0 <= i < s.len(),
        destructure_text(s.take(i + 1), classes) is Err,
    ensures
        destructure_text(s, classes) == destructure_text(s.take(i + 1), classes),
    decreases s.len(),
{
    if s.len() == i + 1 {
        assert(s.take(i + 1) =~= s);
    } else {
        assert(s.drop_last().take(i + 1) =~= s.take(i + 1));
        lemma_destructure_err(s.drop_last(), i, classes);
    }
}

/// Produce the Factor code for a LET form.  `class_slots` maps each
/// (lower-cased) class name to its slot list; destructuring aliases
/// bind the class's slots in order.
pub fn lower_to_factor(form: &LetForm, class_slots: &NameMap<Vec<String>>) -> (r: Result<String, String>)
    ensures
        match let_text(*form, slot_table_view(class_slots@)) {
            Ok(t) => r is Ok && r->Ok_0@ == t,
            Err(e) => r is Err && r->Err_0@ == e,
        },
{
    let mut out = String::new();
    out.push_str("[| ");
    push_inputs(&mut out, &form.inputs);
    out.push_str("| ");
    push_destructures(&mut out, &form.inputs, class_slots)?;
    let ghost after_d = out@;
    let mut i: usize = 0;
    assert(form.wheres@.take(0) =~= Seq::<(String, Expr)>::empty());
    while i < form.wheres.len()
        invariant
            i <= form.wheres@.len(),
            out@ == after_d + wheres_text(form.wheres@.take(i as int)),
        decreases form.wheres@.len() - i,
    {
        emit_expr(&form.wheres[i].1, &mut out);
        out.push_str(" ");
        out.push_str(":> ");
        out.push_str("nfl-");
        out.push_str(form.wheres[i].0.as_str());
        out.push_str(" ");
        proof {
            let t = form.wheres@.take(i + 1);
            assert(t.drop_last() =~= form.wheres@.take(i as int));
            assert(t.last() == form.wheres@[i as int]);
        }
        i = i + 1;
        assert(out@ =~= after_d + wheres_text(form.wheres@.take(i as int)));
    }
    assert(form.wheres@.take(i as int) =~= form.wheres@);
    let ghost after_w = out@;
    let mut j: usize = 0;
    assert(form.results@.take(0) =~= Seq::<Expr>::empty());
    while j < form.results.len()
        invariant
            j <= form.results@.len(),
            out@ == after_w + results_text(form.results@.take(j as int)),
        decreases form.results@.len() - j,
    {
        emit_expr(&form.results[j], &mut out);
        out.push_str(" ");
        proof {
            let t = form.results@.take(j + 1);
            assert(t.drop_last() =~= form.results@.take(j as int));
            assert(t.last() == form.results@[j as int]);
        }
        j = j + 1;
    }
    assert(form.results@.take(j as int) =~= form.results@);
    out.push_str("] call( ");
    push_inputs(&mut out, &form.inputs);
    out.push_str("-- ");
    let ghost before_o = out@;
    let mut k: usize = 0;
    assert(form.outputs@.take(0) =~= Seq::<String>::empty());
    while k < form.outputs.len()
        invariant
            k <= form.outputs@.len(),
            out@ == before_o + locals_text(form.outputs@.take(k as int)),
        decreases form.outputs@.len() - k,
    {
        out.push_str("nfl-");
        out.push_str(form.outputs[k].as_str());
        out.push_str(" ");
        proof {
            let t = form.outputs@.take(k + 1);
            assert(t.drop_last() =~= form.outputs@.take(k as int));
        }
        k = k + 1;
        assert(out@ =~= before_o + locals_text(form.outputs@.take(k as int)));
    }
    assert(form.outputs@.take(k as int) =~= form.outputs@);
    out.push_str(")");
    assert(out@ =~= let_text(*form, slot_table_view(class_slots@))->Ok_0);
    Ok(out)
}

} // verus!
