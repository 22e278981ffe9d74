//! The builtin dictionary: every ANS word the compiler supports and
//! the Factor word it lowers to.  Lookup is on the lower-cased ANS
//! name; the first entry for a name is the one that counts.
use vstd::prelude::*;
use super::names::{lookup_static, static_view, table_get};

verus! {

/// A builtin's Factor word: its vocab, its name there, and whether it
/// must be written `vocab:name` to avoid a clash.
#[derive(Clone, Copy, Debug, PartialEq, Eq)]
pub struct Builtin {
    pub vocab: &'static str,
    pub factor_name: &'static str,
    pub qualified: bool,
}

/// Stack, return-stack, arithmetic, comparison and bitwise words.
pub open spec fn builtins_part_a() -> Seq<(Seq<char>, Builtin)> {
    seq![
        ("dup"@, Builtin { vocab: "kernel", factor_name: "dup", qualified: false }),
        ("drop"@, Builtin { vocab: "kernel", factor_name: "drop", qualified: false }),
        ("swap"@, Builtin { vocab: "kernel", factor_name: "swap", qualified: false }),
        ("over"@, Builtin { vocab: "kernel", factor_name: "over", qualified: false }),
        ("rot"@, Builtin { vocab: "kernel", factor_name: "rot", qualified: false }),
        ("nip"@, Builtin { vocab: "kernel", factor_name: "nip", qualified: false }),
        ("tuck"@, Builtin { vocab: "kernel", factor_name: "tuck", qualified: false }),
        ("depth"@, Builtin { vocab: "forth.runtime", factor_name: "depth", qualified: true }),
        (">r"@, Builtin { vocab: "forth.runtime", factor_name: ">r", qualified: true }),
        ("r>"@, Builtin { vocab: "forth.runtime", factor_name: "r>", qualified: true }),
        ("r@"@, Builtin { vocab: "forth.runtime", factor_name: "r@", qualified: true }),
        ("rdrop"@, Builtin { vocab: "forth.runtime", factor_name: "rdrop", qualified: true }),
        ("2>r"@, Builtin { vocab: "forth.runtime", factor_name: "2>r", qualified: true }),
        ("2r>"@, Builtin { vocab: "forth.runtime", factor_name: "2r>", qualified: true }),
        ("+"@, Builtin { vocab: "math", factor_name: "+", qualified: false }),
        ("-"@, Builtin { vocab: "math", factor_name: "-", qualified: false }),
        ("*"@, Builtin { vocab: "math", factor_name: "*", qualified: false }),
        ("/"@, Builtin { vocab: "math", factor_name: "/i", qualified: false }),
        ("mod"@, Builtin { vocab: "forth.runtime", factor_name: "floored-mod", qualified: true }),
        ("negate"@, Builtin { vocab: "math", factor_name: "neg", qualified: false }),
        ("abs"@, Builtin { vocab: "math", factor_name: "abs", qualified: false }),
        ("min"@, Builtin { vocab: "math.order", factor_name: "min", qualified: false }),
        ("max"@, Builtin { vocab: "math.order", factor_name: "max", qualified: false }),
        ("="@, Builtin { vocab: "forth.runtime", factor_name: "ans=", qualified: true }),
        ("<>"@, Builtin { vocab: "forth.runtime", factor_name: "ans<>", qualified: true }),
        ("<"@, Builtin { vocab: "forth.runtime", factor_name: "ans<", qualified: true }),
        (">"@, Builtin { vocab: "forth.runtime", factor_name: "ans>", qualified: true }),
        ("<="@, Builtin { vocab: "forth.runtime", factor_name: "ans<=", qualified: true }),
        (">="@, Builtin { vocab: "forth.runtime", factor_name: "ans>=", qualified: true }),
        ("0="@, Builtin { vocab: "forth.runtime", factor_name: "ans0=", qualified: true }),
        ("0<"@, Builtin { vocab: "forth.runtime", factor_name: "ans0<", qualified: true }),
        ("0>"@, Builtin { vocab: "forth.runtime", factor_name: "ans0>", qualified: true }),
        ("and"@, Builtin { vocab: "math.bitwise", factor_name: "bitand", qualified: false }),
        ("or"@, Builtin { vocab: "math.bitwise", factor_name: "bitor", qualified: false }),
        ("xor"@, Builtin { vocab: "math.bitwise", factor_name: "bitxor", qualified: false }),
        ("invert"@, Builtin { vocab: "math.bitwise", factor_name: "bitnot", qualified: false }),
        ("i"@, Builtin { vocab: "forth.runtime", factor_name: "i", qualified: true }),
        ("j"@, Builtin { vocab: "forth.runtime", factor_name: "j", qualified: true }),
    ]
}

fn table_part_a() -> (t: Vec<(&'static str, Builtin)>)
    ensures
        static_view(t@) == builtins_part_a(),
{
    let mut t: Vec<(&'static str, Builtin)> = Vec::new();
    t.push(("dup", Builtin { vocab: "kernel", factor_name: "dup", qualified: false }));
    t.push(("drop", Builtin { vocab: "kernel", factor_name: "drop", qualified: false }));
    t.push(("swap", Builtin { vocab: "kernel", factor_name: "swap", qualified: false }));
    t.push(("over", Builtin { vocab: "kernel", factor_name: "over", qualified: false }));
    t.push(("rot", Builtin { vocab: "kernel", factor_name: "rot", qualified: false }));
    t.push(("nip", Builtin { vocab: "kernel", factor_name: "nip", qualified: false }));
    t.push(("tuck", Builtin { vocab: "kernel", factor_name: "tuck", qualified: false }));
    t.push(("depth", Builtin { vocab: "forth.runtime", factor_name: "depth", qualified: true }));
    t.push((">r", Builtin { vocab: "forth.runtime", factor_name: ">r", qualified: true }));
    t.push(("r>", Builtin { vocab: "forth.runtime", factor_name: "r>", qualified: true }));
    t.push(("r@", Builtin { vocab: "forth.runtime", factor_name: "r@", qualified: true }));
    t.push(("rdrop", Builtin { vocab: "forth.runtime", factor_name: "rdrop", qualified: true }));
    t.push(("2>r", Builtin { vocab: "forth.runtime", factor_name: "2>r", qualified: true }));
    t.push(("2r>", Builtin { vocab: "forth.runtime", factor_name: "2r>", qualified: true }));
    t.push(("+", Builtin { vocab: "math", factor_name: "+", qualified: false }));
    t.push(("-", Builtin { vocab: "math", factor_name: "-", qualified: false }));
    t.push(("*", Builtin { vocab: "math", factor_name: "*", qualified: false }));
    t.push(("/", Builtin { vocab: "math", factor_name: "/i", qualified: false }));
    t.push(("mod", Builtin { vocab: "forth.runtime", factor_name: "floored-mod", qualified: true }));
    t.push(("negate", Builtin { vocab: "math", factor_name: "neg", qualified: false }));
    t.push(("abs", Builtin { vocab: "math", factor_name: "abs", qualified: false }));
    t.push(("min", Builtin { vocab: "math.order", factor_name: "min", qualified: false }));
    t.push(("max", Builtin { vocab: "math.order", factor_name: "max", qualified: false }));
    t.push(("=", Builtin { vocab: "forth.runtime", factor_name: "ans=", qualified: true }));
    t.push(("<>", Builtin { vocab: "forth.runtime", factor_name: "ans<>", qualified: true }));
    t.push(("<", Builtin { vocab: "forth.runtime", factor_name: "ans<", qualified: true }));
    t.push((">", Builtin { vocab: "forth.runtime", factor_name: "ans>", qualified: true }));
    t.push(("<=", Builtin { vocab: "forth.runtime", factor_name: "ans<=", qualified: true }));
    t.push((">=", Builtin { vocab: "forth.runtime", factor_name: "ans>=", qualified: true }));
    t.push(("0=", Builtin { vocab: "forth.runtime", factor_name: "ans0=", qualified: true }));
    t.push(("0<", Builtin { vocab: "forth.runtime", factor_name: "ans0<", qualified: true }));
    t.push(("0>", Builtin { vocab: "forth.runtime", factor_name: "ans0>", qualified: true }));
    t.push(("and", Builtin { vocab: "math.bitwise", factor_name: "bitand", qualified: false }));
    t.push(("or", Builtin { vocab: "math.bitwise", factor_name: "bitor", qualified: false }));
    t.push(("xor", Builtin { vocab: "math.bitwise", factor_name: "bitxor", qualified: false }));
    t.push(("invert", Builtin { vocab: "math.bitwise", factor_name: "bitnot", qualified: false }));
    t.push(("i", Builtin { vocab: "forth.runtime", factor_name: "i", qualified: true }));
    t.push(("j", Builtin { vocab: "forth.runtime", factor_name: "j", qualified: true }));
    assert(static_view(t@) =~= builtins_part_a());
    t
}

/// Loop support, I/O, pictured output, radix and memory words.
pub open spec fn builtins_part_b() -> Seq<(Seq<char>, Builtin)> {
    seq![
        ("leave"@, Builtin { vocab: "forth.runtime", factor_name: "leave", qualified: true }),
        ("unloop"@, Builtin { vocab: "forth.runtime", factor_name: "pop-loop-frame", qualified: true }),
        ("."@, Builtin { vocab: "forth.runtime", factor_name: ".", qualified: true }),
        ("u."@, Builtin { vocab: "forth.runtime", factor_name: "u.", qualified: true }),
        ("cr"@, Builtin { vocab: "forth.runtime", factor_name: "cr", qualified: true }),
        ("emit"@, Builtin { vocab: "forth.runtime", factor_name: "emit", qualified: true }),
        ("space"@, Builtin { vocab: "forth.runtime", factor_name: "space", qualified: true }),
        ("spaces"@, Builtin { vocab: "forth.runtime", factor_name: "spaces", qualified: true }),
        ("type"@, Builtin { vocab: "forth.runtime", factor_name: "type", qualified: true }),
        ("cmove"@, Builtin { vocab: "forth.runtime", factor_name: "cmove", qualified: true }),
        ("fill"@, Builtin { vocab: "forth.runtime", factor_name: "fill", qualified: true }),
        ("bl"@, Builtin { vocab: "forth.runtime", factor_name: "bl", qualified: true }),
        ("key"@, Builtin { vocab: "forth.runtime", factor_name: "key", qualified: true }),
        ("accept"@, Builtin { vocab: "forth.runtime", factor_name: "accept", qualified: true }),
        ("<#"@, Builtin { vocab: "forth.runtime", factor_name: "<#", qualified: true }),
        ("#"@, Builtin { vocab: "forth.runtime", factor_name: "#", qualified: true }),
        ("#s"@, Builtin { vocab: "forth.runtime", factor_name: "#S", qualified: true }),
        ("sign"@, Builtin { vocab: "forth.runtime", factor_name: "sign", qualified: true }),
        ("hold"@, Builtin { vocab: "forth.runtime", factor_name: "hold", qualified: true }),
        ("#>"@, Builtin { vocab: "forth.runtime", factor_name: "#>", qualified: true }),
        ("n>$"@, Builtin { vocab: "forth.runtime", factor_name: "n>$", qualified: true }),
        ("hex"@, Builtin { vocab: "forth.runtime", factor_name: "hex", qualified: true }),
        ("decimal"@, Builtin { vocab: "forth.runtime", factor_name: "decimal", qualified: true }),
        ("binary"@, Builtin { vocab: "forth.runtime", factor_name: "binary", qualified: true }),
        ("octal"@, Builtin { vocab: "forth.runtime", factor_name: "octal", qualified: true }),
        ("@"@, Builtin { vocab: "forth.runtime", factor_name: "@", qualified: true }),
        ("!"@, Builtin { vocab: "forth.runtime", factor_name: "nf-!", qualified: true }),
        ("c@"@, Builtin { vocab: "forth.runtime", factor_name: "c@", qualified: true }),
        ("c!"@, Builtin { vocab: "forth.runtime", factor_name: "nf-c!", qualified: true }),
        ("+!"@, Builtin { vocab: "forth.runtime", factor_name: "nf-+!", qualified: true }),
        ("cell+"@, Builtin { vocab: "forth.runtime", factor_name: "cell+", qualified: true }),
        ("char+"@, Builtin { vocab: "forth.runtime", factor_name: "char+", qualified: true }),
        ("cells"@, Builtin { vocab: "forth.runtime", factor_name: "cells", qualified: true }),
        ("chars"@, Builtin { vocab: "forth.runtime", factor_name: "chars", qualified: true }),
        ("floats"@, Builtin { vocab: "forth.runtime", factor_name: "floats", qualified: true }),
        ("allot"@, Builtin { vocab: "forth.runtime", factor_name: "allot", qualified: true }),
        ("here"@, Builtin { vocab: "forth.runtime", factor_name: "here", qualified: true }),
        ("f@"@, Builtin { vocab: "forth.runtime", factor_name: "f@", qualified: true }),
    ]
}

fn table_part_b() -> (t: Vec<(&'static str, Builtin)>)
    ensures
        static_view(t@) == builtins_part_b(),
{
    let mut t: Vec<(&'static str, Builtin)> = Vec::new();
    t.push(("leave", Builtin { vocab: "forth.runtime", factor_name: "leave", qualified: true }));
    t.push(("unloop", Builtin { vocab: "forth.runtime", factor_name: "pop-loop-frame", qualified: true }));
    t.push((".", Builtin { vocab: "forth.runtime", factor_name: ".", qualified: true }));
    t.push(("u.", Builtin { vocab: "forth.runtime", factor_name: "u.", qualified: true }));
    t.push(("cr", Builtin { vocab: "forth.runtime", factor_name: "cr", qualified: true }));
    t.push(("emit", Builtin { vocab: "forth.runtime", factor_name: "emit", qualified: true }));
    t.push(("space", Builtin { vocab: "forth.runtime", factor_name: "space", qualified: true }));
    t.push(("spaces", Builtin { vocab: "forth.runtime", factor_name: "spaces", qualified: true }));
    t.push(("type", Builtin { vocab: "forth.runtime", factor_name: "type", qualified: true }));
    t.push(("cmove", Builtin { vocab: "forth.runtime", factor_name: "cmove", qualified: true }));
    t.push(("fill", Builtin { vocab: "forth.runtime", factor_name: "fill", qualified: true }));
    t.push(("bl", Builtin { vocab: "forth.runtime", factor_name: "bl", qualified: true }));
    t.push(("key", Builtin { vocab: "forth.runtime", factor_name: "key", qualified: true }));
    t.push(("accept", Builtin { vocab: "forth.runtime", factor_name: "accept", qualified: true }));
    t.push(("<#", Builtin { vocab: "forth.runtime", factor_name: "<#", qualified: true }));
    t.push(("#", Builtin { vocab: "forth.runtime", factor_name: "#", qualified: true }));
    t.push(("#s", Builtin { vocab: "forth.runtime", factor_name: "#S", qualified: true }));
    t.push(("sign", Builtin { vocab: "forth.runtime", factor_name: "sign", qualified: true }));
    t.push(("hold", Builtin { vocab: "forth.runtime", factor_name: "hold", qualified: true }));
    t.push(("#>", Builtin { vocab: "forth.runtime", factor_name: "#>", qualified: true }));
    t.push(("n>$", Builtin { vocab: "forth.runtime", factor_name: "n>$", qualified: true }));
    t.push(("hex", Builtin { vocab: "forth.runtime", factor_name: "hex", qualified: true }));
    t.push(("decimal", Builtin { vocab: "forth.runtime", factor_name: "decimal", qualified: true }));
    t.push(("binary", Builtin { vocab: "forth.runtime", factor_name: "binary", qualified: true }));
    t.push(("octal", Builtin { vocab: "forth.runtime", factor_name: "octal", qualified: true }));
    t.push(("@", Builtin { vocab: "forth.runtime", factor_name: "@", qualified: true }));
    t.push(("!", Builtin { vocab: "forth.runtime", factor_name: "nf-!", qualified: true }));
    t.push(("c@", Builtin { vocab: "forth.runtime", factor_name: "c@", qualified: true }));
    t.push(("c!", Builtin { vocab: "forth.runtime", factor_name: "nf-c!", qualified: true }));
    t.push(("+!", Builtin { vocab: "forth.runtime", factor_name: "nf-+!", qualified: true }));
    t.push(("cell+", Builtin { vocab: "forth.runtime", factor_name: "cell+", qualified: true }));
    t.push(("char+", Builtin { vocab: "forth.runtime", factor_name: "char+", qualified: true }));
    t.push(("cells", Builtin { vocab: "forth.runtime", factor_name: "cells", qualified: true }));
    t.push(("chars", Builtin { vocab: "forth.runtime", factor_name: "chars", qualified: true }));
    t.push(("floats", Builtin { vocab: "forth.runtime", factor_name: "floats", qualified: true }));
    t.push(("allot", Builtin { vocab: "forth.runtime", factor_name: "allot", qualified: true }));
    t.push(("here", Builtin { vocab: "forth.runtime", factor_name: "here", qualified: true }));
    t.push(("f@", Builtin { vocab: "forth.runtime", factor_name: "f@", qualified: true }));
    assert(static_view(t@) =~= builtins_part_b());
    t
}

/// Conversions, float words, core extensions and managed strings.
pub open spec fn builtins_part_c() -> Seq<(Seq<char>, Builtin)> {
    seq![
        ("f!"@, Builtin { vocab: "forth.runtime", factor_name: "nf-f!", qualified: true }),
        ("s>d"@, Builtin { vocab: "forth.runtime", factor_name: "s>d", qualified: true }),
        ("d>s"@, Builtin { vocab: "forth.runtime", factor_name: "d>s", qualified: true }),
        ("d>f"@, Builtin { vocab: "forth.runtime", factor_name: "d>f", qualified: true }),
        ("f>d"@, Builtin { vocab: "forth.runtime", factor_name: "f>d", qualified: true }),
        ("f+"@, Builtin { vocab: "forth.runtime", factor_name: "f+", qualified: true }),
        ("f-"@, Builtin { vocab: "forth.runtime", factor_name: "f-", qualified: true }),
        ("f*"@, Builtin { vocab: "forth.runtime", factor_name: "f*", qualified: true }),
        ("f/"@, Builtin { vocab: "forth.runtime", factor_name: "f/", qualified: true }),
        ("f<"@, Builtin { vocab: "forth.runtime", factor_name: "ansf<", qualified: true }),
        ("f>"@, Builtin { vocab: "forth.runtime", factor_name: "ansf>", qualified: true }),
        ("f="@, Builtin { vocab: "forth.runtime", factor_name: "ansf=", qualified: true }),
        ("execute"@, Builtin { vocab: "forth.runtime", factor_name: "ans-execute", qualified: true }),
        ("1+"@, Builtin { vocab: "forth.runtime", factor_name: "1+", qualified: true }),
        ("1-"@, Builtin { vocab: "forth.runtime", factor_name: "1-", qualified: true }),
        ("2*"@, Builtin { vocab: "forth.runtime", factor_name: "ans2*", qualified: true }),
        ("2/"@, Builtin { vocab: "math", factor_name: "2/", qualified: true }),
        ("/mod"@, Builtin { vocab: "forth.runtime", factor_name: "ans/mod", qualified: true }),
        ("*/"@, Builtin { vocab: "forth.runtime", factor_name: "ans*/", qualified: true }),
        ("*/mod"@, Builtin { vocab: "forth.runtime", factor_name: "ans*/mod", qualified: true }),
        ("lshift"@, Builtin { vocab: "forth.runtime", factor_name: "ans-lshift", qualified: true }),
        ("rshift"@, Builtin { vocab: "forth.runtime", factor_name: "ans-rshift", qualified: true }),
        ("2dup"@, Builtin { vocab: "kernel", factor_name: "2dup", qualified: false }),
        ("2drop"@, Builtin { vocab: "kernel", factor_name: "2drop", qualified: false }),
        ("2swap"@, Builtin { vocab: "forth.runtime", factor_name: "ans2swap", qualified: true }),
        ("2over"@, Builtin { vocab: "forth.runtime", factor_name: "ans2over", qualified: true }),
        ("-rot"@, Builtin { vocab: "kernel", factor_name: "-rot", qualified: false }),
        ("2@"@, Builtin { vocab: "forth.runtime", factor_name: "ans2@", qualified: true }),
        ("2!"@, Builtin { vocab: "forth.runtime", factor_name: "ans2!", qualified: true }),
        ("erase"@, Builtin { vocab: "forth.runtime", factor_name: "ans-erase", qualified: true }),
        ("0<>"@, Builtin { vocab: "forth.runtime", factor_name: "ans0<>", qualified: true }),
        ("included"@, Builtin { vocab: "forth.runtime", factor_name: "nf-included", qualified: true }),
        ("$len"@, Builtin { vocab: "forth.runtime", factor_name: "$len", qualified: true }),
        ("$clen"@, Builtin { vocab: "forth.runtime", factor_name: "$clen", qualified: true }),
        ("$+"@, Builtin { vocab: "forth.runtime", factor_name: "$+", qualified: true }),
        ("$upper"@, Builtin { vocab: "forth.runtime", factor_name: "$upper", qualified: true }),
        ("$lower"@, Builtin { vocab: "forth.runtime", factor_name: "$lower", qualified: true }),
        ("$find"@, Builtin { vocab: "forth.runtime", factor_name: "$find", qualified: true }),
    ]
}

fn table_part_c() -> (t: Vec<(&'static str, Builtin)>)
    ensures
        static_view(t@) == builtins_part_c(),
{
    let mut t: Vec<(&'static str, Builtin)> = Vec::new();
    t.push(("f!", Builtin { vocab: "forth.runtime", factor_name: "nf-f!", qualified: true }));
    t.push(("s>d", Builtin { vocab: "forth.runtime", factor_name: "s>d", qualified: true }));
    t.push(("d>s", Builtin { vocab: "forth.runtime", factor_name: "d>s", qualified: true }));
    t.push(("d>f", Builtin { vocab: "forth.runtime", factor_name: "d>f", qualified: true }));
    t.push(("f>d", Builtin { vocab: "forth.runtime", factor_name: "f>d", qualified: true }));
    t.push(("f+", Builtin { vocab: "forth.runtime", factor_name: "f+", qualified: true }));
    t.push(("f-", Builtin { vocab: "forth.runtime", factor_name: "f-", qualified: true }));
    t.push(("f*", Builtin { vocab: "forth.runtime", factor_name: "f*", qualified: true }));
    t.push(("f/", Builtin { vocab: "forth.runtime", factor_name: "f/", qualified: true }));
    t.push(("f<", Builtin { vocab: "forth.runtime", factor_name: "ansf<", qualified: true }));
    t.push(("f>", Builtin { vocab: "forth.runtime", factor_name: "ansf>", qualified: true }));
    t.push(("f=", Builtin { vocab: "forth.runtime", factor_name: "ansf=", qualified: true }));
    t.push(("execute", Builtin { vocab: "forth.runtime", factor_name: "ans-execute", qualified: true }));
    t.push(("1+", Builtin { vocab: "forth.runtime", factor_name: "1+", qualified: true }));
    t.push(("1-", Builtin { vocab: "forth.runtime", factor_name: "1-", qualified: true }));
    t.push(("2*", Builtin { vocab: "forth.runtime", factor_name: "ans2*", qualified: true }));
    t.push(("2/", Builtin { vocab: "math", factor_name: "2/", qualified: true }));
    t.push(("/mod", Builtin { vocab: "forth.runtime", factor_name: "ans/mod", qualified: true }));
    t.push(("*/", Builtin { vocab: "forth.runtime", factor_name: "ans*/", qualified: true }));
    t.push(("*/mod", Builtin { vocab: "forth.runtime", factor_name: "ans*/mod", qualified: true }));
    t.push(("lshift", Builtin { vocab: "forth.runtime", factor_name: "ans-lshift", qualified: true }));
    t.push(("rshift", Builtin { vocab: "forth.runtime", factor_name: "ans-rshift", qualified: true }));
    t.push(("2dup", Builtin { vocab: "kernel", factor_name: "2dup", qualified: false }));
    t.push(("2drop", Builtin { vocab: "kernel", factor_name: "2drop", qualified: false }));
    t.push(("2swap", Builtin { vocab: "forth.runtime", factor_name: "ans2swap", qualified: true }));
    t.push(("2over", Builtin { vocab: "forth.runtime", factor_name: "ans2over", qualified: true }));
    t.push(("-rot", Builtin { vocab: "kernel", factor_name: "-rot", qualified: false }));
    t.push(("2@", Builtin { vocab: "forth.runtime", factor_name: "ans2@", qualified: true }));
    t.push(("2!", Builtin { vocab: "forth.runtime", factor_name: "ans2!", qualified: true }));
    t.push(("erase", Builtin { vocab: "forth.runtime", factor_name: "ans-erase", qualified: true }));
    t.push(("0<>", Builtin { vocab: "forth.runtime", factor_name: "ans0<>", qualified: true }));
    t.push(("included", Builtin { vocab: "forth.runtime", factor_name: "nf-included", qualified: true }));
    t.push(("$len", Builtin { vocab: "forth.runtime", factor_name: "$len", qualified: true }));
    t.push(("$clen", Builtin { vocab: "forth.runtime", factor_name: "$clen", qualified: true }));
    t.push(("$+", Builtin { vocab: "forth.runtime", factor_name: "$+", qualified: true }));
    t.push(("$upper", Builtin { vocab: "forth.runtime", factor_name: "$upper", qualified: true }));
    t.push(("$lower", Builtin { vocab: "forth.runtime", factor_name: "$lower", qualified: true }));
    t.push(("$find", Builtin { vocab: "forth.runtime", factor_name: "$find", qualified: true }));
    assert(static_view(t@) =~= builtins_part_c());
    t
}

/// Introspection, tools and collection backing words.
pub open spec fn builtins_part_d() -> Seq<(Seq<char>, Builtin)> {
    seq![
        ("$contains?"@, Builtin { vocab: "forth.runtime", factor_name: "$contains?", qualified: true }),
        ("$starts?"@, Builtin { vocab: "forth.runtime", factor_name: "$starts?", qualified: true }),
        ("$ends?"@, Builtin { vocab: "forth.runtime", factor_name: "$ends?", qualified: true }),
        ("$slice"@, Builtin { vocab: "forth.runtime", factor_name: "$slice", qualified: true }),
        ("$cmp"@, Builtin { vocab: "forth.runtime", factor_name: "$cmp", qualified: true }),
        ("$hash"@, Builtin { vocab: "forth.runtime", factor_name: "$hash", qualified: true }),
        ("$."@, Builtin { vocab: "forth.runtime", factor_name: "$.", qualified: true }),
        ("$.cr"@, Builtin { vocab: "forth.runtime", factor_name: "$.cr", qualified: true }),
        ("int>$"@, Builtin { vocab: "forth.runtime", factor_name: "int>$", qualified: true }),
        ("$>int"@, Builtin { vocab: "forth.runtime", factor_name: "$>int", qualified: true }),
        (">$"@, Builtin { vocab: "forth.runtime", factor_name: ">$", qualified: true }),
        ("$>addr"@, Builtin { vocab: "forth.runtime", factor_name: "$>addr", qualified: true }),
        ("exit"@, Builtin { vocab: "continuations", factor_name: "return", qualified: true }),
        ("typeof"@, Builtin { vocab: "forth.runtime", factor_name: "nf-typeof", qualified: true }),
        ("int?"@, Builtin { vocab: "forth.runtime", factor_name: "nf-int?", qualified: true }),
        ("float?"@, Builtin { vocab: "forth.runtime", factor_name: "nf-float?", qualified: true }),
        ("string?"@, Builtin { vocab: "forth.runtime", factor_name: "nf-string?", qualified: true }),
        ("xt?"@, Builtin { vocab: "forth.runtime", factor_name: "nf-xt?", qualified: true }),
        ("addr?"@, Builtin { vocab: "forth.runtime", factor_name: "nf-addr-pred?", qualified: true }),
        (".s"@, Builtin { vocab: "forth.runtime", factor_name: "nf-.s", qualified: true }),
        ("words"@, Builtin { vocab: "forth.runtime", factor_name: "nf-words", qualified: true }),
        ("dump"@, Builtin { vocab: "forth.runtime", factor_name: "nf-dump", qualified: true }),
        ("<cells>"@, Builtin { vocab: "forth.runtime", factor_name: "nf-cells-new", qualified: true }),
        ("cells@"@, Builtin { vocab: "forth.runtime", factor_name: "nf-cells-at", qualified: true }),
        ("cells!"@, Builtin { vocab: "forth.runtime", factor_name: "nf-cells-set", qualified: true }),
        ("<rawvec>"@, Builtin { vocab: "forth.runtime", factor_name: "nf-rawvec", qualified: true }),
        ("rawvec-push"@, Builtin { vocab: "forth.runtime", factor_name: "nf-rawvec-push", qualified: true }),
        ("rawvec-len"@, Builtin { vocab: "forth.runtime", factor_name: "nf-rawvec-len", qualified: true }),
        ("rawvec-at"@, Builtin { vocab: "forth.runtime", factor_name: "nf-rawvec-at", qualified: true }),
        ("rawvec-set"@, Builtin { vocab: "forth.runtime", factor_name: "nf-rawvec-set", qualified: true }),
        ("call1"@, Builtin { vocab: "forth.runtime", factor_name: "nf-call1", qualified: true }),
        ("call1>"@, Builtin { vocab: "forth.runtime", factor_name: "nf-call1>", qualified: true }),
        ("call2>"@, Builtin { vocab: "forth.runtime", factor_name: "nf-call2>", qualified: true }),
        ("call2"@, Builtin { vocab: "forth.runtime", factor_name: "nf-call2", qualified: true }),
        ("(clone)"@, Builtin { vocab: "forth.runtime", factor_name: "nf-clone", qualified: true }),
        ("<hash>"@, Builtin { vocab: "forth.runtime", factor_name: "nf-hash-new", qualified: true }),
        ("hash-at"@, Builtin { vocab: "forth.runtime", factor_name: "nf-hash-at", qualified: true }),
        ("hash!"@, Builtin { vocab: "forth.runtime", factor_name: "nf-hash-set", qualified: true }),
    ]
}

fn table_part_d() -> (t: Vec<(&'static str, Builtin)>)
    ensures
        static_view(t@) == builtins_part_d(),
{
    let mut t: Vec<(&'static str, Builtin)> = Vec::new();
    t.push(("$contains?", Builtin { vocab: "forth.runtime", factor_name: "$contains?", qualified: true }));
    t.push(("$starts?", Builtin { vocab: "forth.runtime", factor_name: "$starts?", qualified: true }));
    t.push(("$ends?", Builtin { vocab: "forth.runtime", factor_name: "$ends?", qualified: true }));
    t.push(("$slice", Builtin { vocab: "forth.runtime", factor_name: "$slice", qualified: true }));
    t.push(("$cmp", Builtin { vocab: "forth.runtime", factor_name: "$cmp", qualified: true }));
    t.push(("$hash", Builtin { vocab: "forth.runtime", factor_name: "$hash", qualified: true }));
    t.push(("$.", Builtin { vocab: "forth.runtime", factor_name: "$.", qualified: true }));
    t.push(("$.cr", Builtin { vocab: "forth.runtime", factor_name: "$.cr", qualified: true }));
    t.push(("int>$", Builtin { vocab: "forth.runtime", factor_name: "int>$", qualified: true }));
    t.push(("$>int", Builtin { vocab: "forth.runtime", factor_name: "$>int", qualified: true }));
    t.push((">$", Builtin { vocab: "forth.runtime", factor_name: ">$", qualified: true }));
    t.push(("$>addr", Builtin { vocab: "forth.runtime", factor_name: "$>addr", qualified: true }));
    t.push(("exit", Builtin { vocab: "continuations", factor_name: "return", qualified: true }));
    t.push(("typeof", Builtin { vocab: "forth.runtime", factor_name: "nf-typeof", qualified: true }));
    t.push(("int?", Builtin { vocab: "forth.runtime", factor_name: "nf-int?", qualified: true }));
    t.push(("float?", Builtin { vocab: "forth.runtime", factor_name: "nf-float?", qualified: true }));
    t.push(("string?", Builtin { vocab: "forth.runtime", factor_name: "nf-string?", qualified: true }));
    t.push(("xt?", Builtin { vocab: "forth.runtime", factor_name: "nf-xt?", qualified: true }));
    t.push(("addr?", Builtin { vocab: "forth.runtime", factor_name: "nf-addr-pred?", qualified: true }));
    t.push((".s", Builtin { vocab: "forth.runtime", factor_name: "nf-.s", qualified: true }));
    t.push(("words", Builtin { vocab: "forth.runtime", factor_name: "nf-words", qualified: true }));
    t.push(("dump", Builtin { vocab: "forth.runtime", factor_name: "nf-dump", qualified: true }));
    t.push(("<cells>", Builtin { vocab: "forth.runtime", factor_name: "nf-cells-new", qualified: true }));
    t.push(("cells@", Builtin { vocab: "forth.runtime", factor_name: "nf-cells-at", qualified: true }));
    t.push(("cells!", Builtin { vocab: "forth.runtime", factor_name: "nf-cells-set", qualified: true }));
    t.push(("<rawvec>", Builtin { vocab: "forth.runtime", factor_name: "nf-rawvec", qualified: true }));
    t.push(("rawvec-push", Builtin { vocab: "forth.runtime", factor_name: "nf-rawvec-push", qualified: true }));
    t.push(("rawvec-len", Builtin { vocab: "forth.runtime", factor_name: "nf-rawvec-len", qualified: true }));
    t.push(("rawvec-at", Builtin { vocab: "forth.runtime", factor_name: "nf-rawvec-at", qualified: true }));
    t.push(("rawvec-set", Builtin { vocab: "forth.runtime", factor_name: "nf-rawvec-set", qualified: true }));
    t.push(("call1", Builtin { vocab: "forth.runtime", factor_name: "nf-call1", qualified: true }));
    t.push(("call1>", Builtin { vocab: "forth.runtime", factor_name: "nf-call1>", qualified: true }));
    t.push(("call2>", Builtin { vocab: "forth.runtime", factor_name: "nf-call2>", qualified: true }));
    t.push(("call2", Builtin { vocab: "forth.runtime", factor_name: "nf-call2", qualified: true }));
    t.push(("(clone)", Builtin { vocab: "forth.runtime", factor_name: "nf-clone", qualified: true }));
    t.push(("<hash>", Builtin { vocab: "forth.runtime", factor_name: "nf-hash-new", qualified: true }));
    t.push(("hash-at", Builtin { vocab: "forth.runtime", factor_name: "nf-hash-at", qualified: true }));
    t.push(("hash!", Builtin { vocab: "forth.runtime", factor_name: "nf-hash-set", qualified: true }));
    assert(static_view(t@) =~= builtins_part_d());
    t
}

/// Type codes, graphics and document panes.
pub open spec fn builtins_part_e() -> Seq<(Seq<char>, Builtin)> {
    seq![
        ("hash-key?"@, Builtin { vocab: "forth.runtime", factor_name: "nf-hash-key?", qualified: true }),
        ("hash-del"@, Builtin { vocab: "forth.runtime", factor_name: "nf-hash-del", qualified: true }),
        ("hash-len"@, Builtin { vocab: "forth.runtime", factor_name: "nf-hash-len", qualified: true }),
        ("hash-keys"@, Builtin { vocab: "forth.runtime", factor_name: "nf-hash-keys", qualified: true }),
        ("hash-vals"@, Builtin { vocab: "forth.runtime", factor_name: "nf-hash-values", qualified: true }),
        ("<hashset>"@, Builtin { vocab: "forth.runtime", factor_name: "nf-set-new", qualified: true }),
        ("hs-add"@, Builtin { vocab: "forth.runtime", factor_name: "nf-set-add", qualified: true }),
        ("hs-in?"@, Builtin { vocab: "forth.runtime", factor_name: "nf-set-has?", qualified: true }),
        ("hs-del"@, Builtin { vocab: "forth.runtime", factor_name: "nf-set-del", qualified: true }),
        ("hs-len"@, Builtin { vocab: "forth.runtime", factor_name: "nf-set-len", qualified: true }),
        ("hs-members"@, Builtin { vocab: "forth.runtime", factor_name: "nf-set-members", qualified: true }),
        ("int-type"@, Builtin { vocab: "forth.runtime", factor_name: "int-type", qualified: true }),
        ("float-type"@, Builtin { vocab: "forth.runtime", factor_name: "float-type", qualified: true }),
        ("string-type"@, Builtin { vocab: "forth.runtime", factor_name: "string-type", qualified: true }),
        ("xt-type"@, Builtin { vocab: "forth.runtime", factor_name: "xt-type", qualified: true }),
        ("addr-type"@, Builtin { vocab: "forth.runtime", factor_name: "addr-type", qualified: true }),
        ("other-type"@, Builtin { vocab: "forth.runtime", factor_name: "other-type", qualified: true }),
        ("gpane-open"@, Builtin { vocab: "forth.wf64-gfx", factor_name: "gpane-open", qualified: true }),
        ("gpane-begin"@, Builtin { vocab: "forth.wf64-gfx", factor_name: "gpane-begin", qualified: true }),
        ("gpane-present"@, Builtin { vocab: "forth.wf64-gfx", factor_name: "gpane-present", qualified: true }),
        ("gpane-clear"@, Builtin { vocab: "forth.wf64-gfx", factor_name: "gpane-clear", qualified: true }),
        ("gpane-fill-rect"@, Builtin { vocab: "forth.wf64-gfx", factor_name: "gpane-fill-rect", qualified: true }),
        ("gpane-stroke-rect"@, Builtin { vocab: "forth.wf64-gfx", factor_name: "gpane-stroke-rect", qualified: true }),
        ("gpane-line"@, Builtin { vocab: "forth.wf64-gfx", factor_name: "gpane-line", qualified: true }),
        ("gpane-fill-circle"@, Builtin { vocab: "forth.wf64-gfx", factor_name: "gpane-fill-circle", qualified: true }),
        ("gpane-next-event"@, Builtin { vocab: "forth.wf64-gfx", factor_name: "gpane-next-event", qualified: true }),
        ("doc-open"@, Builtin { vocab: "forth.wf64-gfx", factor_name: "doc-open", qualified: true }),
        ("doc-set"@, Builtin { vocab: "forth.wf64-gfx", factor_name: "doc-set", qualified: true }),
        ("doc-append"@, Builtin { vocab: "forth.wf64-gfx", factor_name: "doc-append", qualified: true }),
        ("ev-none"@, Builtin { vocab: "forth.wf64-gfx", factor_name: "EV_NONE", qualified: true }),
        ("ev-key"@, Builtin { vocab: "forth.wf64-gfx", factor_name: "EV_KEY", qualified: true }),
        ("ev-char"@, Builtin { vocab: "forth.wf64-gfx", factor_name: "EV_CHAR", qualified: true }),
        ("ev-mouse"@, Builtin { vocab: "forth.wf64-gfx", factor_name: "EV_MOUSE", qualified: true }),
        ("ev-focus"@, Builtin { vocab: "forth.wf64-gfx", factor_name: "EV_FOCUS", qualified: true }),
        ("ev-resize"@, Builtin { vocab: "forth.wf64-gfx", factor_name: "EV_RESIZE", qualified: true }),
        ("ev-close"@, Builtin { vocab: "forth.wf64-gfx", factor_name: "EV_CLOSE", qualified: true }),
        ("ev-frame-close"@, Builtin { vocab: "forth.wf64-gfx", factor_name: "EV_FRAME_CLOSE", qualified: true }),
        ("ev-tick"@, Builtin { vocab: "forth.wf64-gfx", factor_name: "EV_TICK", qualified: true }),
    ]
}

fn table_part_e() -> (t: Vec<(&'static str, Builtin)>)
    ensures
        static_view(t@) == builtins_part_e(),
{
    let mut t: Vec<(&'static str, Builtin)> = Vec::new();
    t.push(("hash-key?", Builtin { vocab: "forth.runtime", factor_name: "nf-hash-key?", qualified: true }));
    t.push(("hash-del", Builtin { vocab: "forth.runtime", factor_name: "nf-hash-del", qualified: true }));
    t.push(("hash-len", Builtin { vocab: "forth.runtime", factor_name: "nf-hash-len", qualified: true }));
    t.push(("hash-keys", Builtin { vocab: "forth.runtime", factor_name: "nf-hash-keys", qualified: true }));
    t.push(("hash-vals", Builtin { vocab: "forth.runtime", factor_name: "nf-hash-values", qualified: true }));
    t.push(("<hashset>", Builtin { vocab: "forth.runtime", factor_name: "nf-set-new", qualified: true }));
    t.push(("hs-add", Builtin { vocab: "forth.runtime", factor_name: "nf-set-add", qualified: true }));
    t.push(("hs-in?", Builtin { vocab: "forth.runtime", factor_name: "nf-set-has?", qualified: true }));
    t.push(("hs-del", Builtin { vocab: "forth.runtime", factor_name: "nf-set-del", qualified: true }));
    t.push(("hs-len", Builtin { vocab: "forth.runtime", factor_name: "nf-set-len", qualified: true }));
    t.push(("hs-members", Builtin { vocab: "forth.runtime", factor_name: "nf-set-members", qualified: true }));
    t.push(("int-type", Builtin { vocab: "forth.runtime", factor_name: "int-type", qualified: true }));
    t.push(("float-type", Builtin { vocab: "forth.runtime", factor_name: "float-type", qualified: true }));
    t.push(("string-type", Builtin { vocab: "forth.runtime", factor_name: "string-type", qualified: true }));
    t.push(("xt-type", Builtin { vocab: "forth.runtime", factor_name: "xt-type", qualified: true }));
    t.push(("addr-type", Builtin { vocab: "forth.runtime", factor_name: "addr-type", qualified: true }));
    t.push(("other-type", Builtin { vocab: "forth.runtime", factor_name: "other-type", qualified: true }));
    t.push(("gpane-open", Builtin { vocab: "forth.wf64-gfx", factor_name: "gpane-open", qualified: true }));
    t.push(("gpane-begin", Builtin { vocab: "forth.wf64-gfx", factor_name: "gpane-begin", qualified: true }));
    t.push(("gpane-present", Builtin { vocab: "forth.wf64-gfx", factor_name: "gpane-present", qualified: true }));
    t.push(("gpane-clear", Builtin { vocab: "forth.wf64-gfx", factor_name: "gpane-clear", qualified: true }));
    t.push(("gpane-fill-rect", Builtin { vocab: "forth.wf64-gfx", factor_name: "gpane-fill-rect", qualified: true }));
    t.push(("gpane-stroke-rect", Builtin { vocab: "forth.wf64-gfx", factor_name: "gpane-stroke-rect", qualified: true }));
    t.push(("gpane-line", Builtin { vocab: "forth.wf64-gfx", factor_name: "gpane-line", qualified: true }));
    t.push(("gpane-fill-circle", Builtin { vocab: "forth.wf64-gfx", factor_name: "gpane-fill-circle", qualified: true }));
    t.push(("gpane-next-event", Builtin { vocab: "forth.wf64-gfx", factor_name: "gpane-next-event", qualified: true }));
    t.push(("doc-open", Builtin { vocab: "forth.wf64-gfx", factor_name: "doc-open", qualified: true }));
    t.push(("doc-set", Builtin { vocab: "forth.wf64-gfx", factor_name: "doc-set", qualified: true }));
    t.push(("doc-append", Builtin { vocab: "forth.wf64-gfx", factor_name: "doc-append", qualified: true }));
    t.push(("ev-none", Builtin { vocab: "forth.wf64-gfx", factor_name: "EV_NONE", qualified: true }));
    t.push(("ev-key", Builtin { vocab: "forth.wf64-gfx", factor_name: "EV_KEY", qualified: true }));
    t.push(("ev-char", Builtin { vocab: "forth.wf64-gfx", factor_name: "EV_CHAR", qualified: true }));
    t.push(("ev-mouse", Builtin { vocab: "forth.wf64-gfx", factor_name: "EV_MOUSE", qualified: true }));
    t.push(("ev-focus", Builtin { vocab: "forth.wf64-gfx", factor_name: "EV_FOCUS", qualified: true }));
    t.push(("ev-resize", Builtin { vocab: "forth.wf64-gfx", factor_name: "EV_RESIZE", qualified: true }));
    t.push(("ev-close", Builtin { vocab: "forth.wf64-gfx", factor_name: "EV_CLOSE", qualified: true }));
    t.push(("ev-frame-close", Builtin { vocab: "forth.wf64-gfx", factor_name: "EV_FRAME_CLOSE", qualified: true }));
    t.push(("ev-tick", Builtin { vocab: "forth.wf64-gfx", factor_name: "EV_TICK", qualified: true }));
    assert(static_view(t@) =~= builtins_part_e());
    t
}

/// The whole builtin dictionary, in table order.
pub open spec fn builtin_entries() -> Seq<(Seq<char>, Builtin)> {
    builtins_part_a() + builtins_part_b() + builtins_part_c() + builtins_part_d() + builtins_part_e()
}

/// The builtin bound to a lower-cased ANS name, if any.
pub open spec fn builtin_of(lc: Seq<char>) -> Option<Builtin> {
    table_get(builtin_entries(), lc)
}

/// The ANS → Factor correspondence the dictionary follows: for each
/// ANS word, the Factor vocab and the Factor word there that carries
/// out the same operation on the stack, and whether that word is
/// written `vocab:name`.
pub open spec fn ans_factor_correspondence() -> Seq<(Seq<char>, Seq<char>, Seq<char>, bool)> {
    seq![
        // stack words: Factor's kernel words of the same name
        ("dup"@, "kernel"@, "dup"@, false),
        ("drop"@, "kernel"@, "drop"@, false),
        ("swap"@, "kernel"@, "swap"@, false),
        ("over"@, "kernel"@, "over"@, false),
        ("rot"@, "kernel"@, "rot"@, false),
        ("nip"@, "kernel"@, "nip"@, false),
        ("tuck"@, "kernel"@, "tuck"@, false),

        // stack depth
        ("depth"@, "forth.runtime"@, "depth"@, true),

        // the Forth return stack, kept apart from Factor's retain stack
        (">r"@, "forth.runtime"@, ">r"@, true),
        ("r>"@, "forth.runtime"@, "r>"@, true),
        ("r@"@, "forth.runtime"@, "r@"@, true),
        ("rdrop"@, "forth.runtime"@, "rdrop"@, true),
        ("2>r"@, "forth.runtime"@, "2>r"@, true),
        ("2r>"@, "forth.runtime"@, "2r>"@, true),

        // arithmetic
        ("+"@, "math"@, "+"@, false),
        ("-"@, "math"@, "-"@, false),
        ("*"@, "math"@, "*"@, false),
        ("/"@, "math"@, "/i"@, false),

        // MOD is floored: its remainder takes the divisor's sign
        ("mod"@, "forth.runtime"@, "floored-mod"@, true),
        ("negate"@, "math"@, "neg"@, false),
        ("abs"@, "math"@, "abs"@, false),
        ("min"@, "math.order"@, "min"@, false),
        ("max"@, "math.order"@, "max"@, false),

        // comparisons leave ANS flags (-1 / 0), not Factor's t / f
        ("="@, "forth.runtime"@, "ans="@, true),
        ("<>"@, "forth.runtime"@, "ans<>"@, true),
        ("<"@, "forth.runtime"@, "ans<"@, true),
        (">"@, "forth.runtime"@, "ans>"@, true),
        ("<="@, "forth.runtime"@, "ans<="@, true),
        (">="@, "forth.runtime"@, "ans>="@, true),
        ("0="@, "forth.runtime"@, "ans0="@, true),
        ("0<"@, "forth.runtime"@, "ans0<"@, true),
        ("0>"@, "forth.runtime"@, "ans0>"@, true),

        // bitwise logic
        ("and"@, "math.bitwise"@, "bitand"@, false),
        ("or"@, "math.bitwise"@, "bitor"@, false),
        ("xor"@, "math.bitwise"@, "bitxor"@, false),
        ("invert"@, "math.bitwise"@, "bitnot"@, false),

        // DO-loop indices and exits
        ("i"@, "forth.runtime"@, "i"@, true),
        ("j"@, "forth.runtime"@, "j"@, true),
        ("leave"@, "forth.runtime"@, "leave"@, true),
        ("unloop"@, "forth.runtime"@, "pop-loop-frame"@, true),

        // output
        ("."@, "forth.runtime"@, "."@, true),
        ("u."@, "forth.runtime"@, "u."@, true),
        ("cr"@, "forth.runtime"@, "cr"@, true),
        ("emit"@, "forth.runtime"@, "emit"@, true),
        ("space"@, "forth.runtime"@, "space"@, true),
        ("spaces"@, "forth.runtime"@, "spaces"@, true),

        // character buffers
        ("type"@, "forth.runtime"@, "type"@, true),
        ("cmove"@, "forth.runtime"@, "cmove"@, true),
        ("fill"@, "forth.runtime"@, "fill"@, true),
        ("bl"@, "forth.runtime"@, "bl"@, true),

        // input
        ("key"@, "forth.runtime"@, "key"@, true),
        ("accept"@, "forth.runtime"@, "accept"@, true),

        // pictured numeric output
        ("<#"@, "forth.runtime"@, "<#"@, true),
        ("#"@, "forth.runtime"@, "#"@, true),
        ("#s"@, "forth.runtime"@, "#S"@, true),
        ("sign"@, "forth.runtime"@, "sign"@, true),
        ("hold"@, "forth.runtime"@, "hold"@, true),
        ("#>"@, "forth.runtime"@, "#>"@, true),
        ("n>$"@, "forth.runtime"@, "n>$"@, true),

        // number bases
        ("hex"@, "forth.runtime"@, "hex"@, true),
        ("decimal"@, "forth.runtime"@, "decimal"@, true),
        ("binary"@, "forth.runtime"@, "binary"@, true),
        ("octal"@, "forth.runtime"@, "octal"@, true),

        // memory
        ("@"@, "forth.runtime"@, "@"@, true),
        ("!"@, "forth.runtime"@, "nf-!"@, true),
        ("c@"@, "forth.runtime"@, "c@"@, true),
        ("c!"@, "forth.runtime"@, "nf-c!"@, true),
        ("+!"@, "forth.runtime"@, "nf-+!"@, true),

        // cell and char arithmetic
        ("cell+"@, "forth.runtime"@, "cell+"@, true),
        ("char+"@, "forth.runtime"@, "char+"@, true),
        ("cells"@, "forth.runtime"@, "cells"@, true),
        ("chars"@, "forth.runtime"@, "chars"@, true),
        ("floats"@, "forth.runtime"@, "floats"@, true),

        // data space
        ("allot"@, "forth.runtime"@, "allot"@, true),
        ("here"@, "forth.runtime"@, "here"@, true),

        // float memory
        ("f@"@, "forth.runtime"@, "f@"@, true),
        ("f!"@, "forth.runtime"@, "nf-f!"@, true),

        // cell, double and float conversions
        ("s>d"@, "forth.runtime"@, "s>d"@, true),
        ("d>s"@, "forth.runtime"@, "d>s"@, true),
        ("d>f"@, "forth.runtime"@, "d>f"@, true),
        ("f>d"@, "forth.runtime"@, "f>d"@, true),

        // float arithmetic: Factor's generic words serve floats too
        ("f+"@, "forth.runtime"@, "f+"@, true),
        ("f-"@, "forth.runtime"@, "f-"@, true),
        ("f*"@, "forth.runtime"@, "f*"@, true),
        ("f/"@, "forth.runtime"@, "f/"@, true),

        // float comparisons leave ANS flags
        ("f<"@, "forth.runtime"@, "ansf<"@, true),
        ("f>"@, "forth.runtime"@, "ansf>"@, true),
        ("f="@, "forth.runtime"@, "ansf="@, true),

        // execution tokens
        ("execute"@, "forth.runtime"@, "ans-execute"@, true),

        // increments
        ("1+"@, "forth.runtime"@, "1+"@, true),
        ("1-"@, "forth.runtime"@, "1-"@, true),

        // doubling and halving
        ("2*"@, "forth.runtime"@, "ans2*"@, true),
        ("2/"@, "math"@, "2/"@, true),

        // floored division
        ("/mod"@, "forth.runtime"@, "ans/mod"@, true),
        ("*/"@, "forth.runtime"@, "ans*/"@, true),
        ("*/mod"@, "forth.runtime"@, "ans*/mod"@, true),

        // shifts with the direction in the name
        ("lshift"@, "forth.runtime"@, "ans-lshift"@, true),
        ("rshift"@, "forth.runtime"@, "ans-rshift"@, true),

        // cell pairs on the stack
        ("2dup"@, "kernel"@, "2dup"@, false),
        ("2drop"@, "kernel"@, "2drop"@, false),
        ("2swap"@, "forth.runtime"@, "ans2swap"@, true),
        ("2over"@, "forth.runtime"@, "ans2over"@, true),

        // the reverse rotation
        ("-rot"@, "kernel"@, "-rot"@, false),

        // cell pairs in memory
        ("2@"@, "forth.runtime"@, "ans2@"@, true),
        ("2!"@, "forth.runtime"@, "ans2!"@, true),

        // clearing memory
        ("erase"@, "forth.runtime"@, "ans-erase"@, true),

        // not-zero test
        ("0<>"@, "forth.runtime"@, "ans0<>"@, true),

        // loading source files
        ("included"@, "forth.runtime"@, "nf-included"@, true),

        // managed strings
        ("$len"@, "forth.runtime"@, "$len"@, true),
        ("$clen"@, "forth.runtime"@, "$clen"@, true),
        ("$+"@, "forth.runtime"@, "$+"@, true),
        ("$upper"@, "forth.runtime"@, "$upper"@, true),
        ("$lower"@, "forth.runtime"@, "$lower"@, true),
        ("$find"@, "forth.runtime"@, "$find"@, true),
        ("$contains?"@, "forth.runtime"@, "$contains?"@, true),
        ("$starts?"@, "forth.runtime"@, "$starts?"@, true),
        ("$ends?"@, "forth.runtime"@, "$ends?"@, true),
        ("$slice"@, "forth.runtime"@, "$slice"@, true),
        ("$cmp"@, "forth.runtime"@, "$cmp"@, true),
        ("$hash"@, "forth.runtime"@, "$hash"@, true),
        ("$."@, "forth.runtime"@, "$."@, true),
        ("$.cr"@, "forth.runtime"@, "$.cr"@, true),
        ("int>$"@, "forth.runtime"@, "int>$"@, true),
        ("$>int"@, "forth.runtime"@, "$>int"@, true),
        (">$"@, "forth.runtime"@, ">$"@, true),
        ("$>addr"@, "forth.runtime"@, "$>addr"@, true),

        // early return from a definition
        ("exit"@, "continuations"@, "return"@, true),

        // type introspection
        ("typeof"@, "forth.runtime"@, "nf-typeof"@, true),
        ("int?"@, "forth.runtime"@, "nf-int?"@, true),
        ("float?"@, "forth.runtime"@, "nf-float?"@, true),
        ("string?"@, "forth.runtime"@, "nf-string?"@, true),
        ("xt?"@, "forth.runtime"@, "nf-xt?"@, true),
        ("addr?"@, "forth.runtime"@, "nf-addr-pred?"@, true),

        // programming tools
        (".s"@, "forth.runtime"@, "nf-.s"@, true),
        ("words"@, "forth.runtime"@, "nf-words"@, true),
        ("dump"@, "forth.runtime"@, "nf-dump"@, true),

        // fixed cell stores
        ("<cells>"@, "forth.runtime"@, "nf-cells-new"@, true),
        ("cells@"@, "forth.runtime"@, "nf-cells-at"@, true),
        ("cells!"@, "forth.runtime"@, "nf-cells-set"@, true),

        // growable vectors
        ("<rawvec>"@, "forth.runtime"@, "nf-rawvec"@, true),
        ("rawvec-push"@, "forth.runtime"@, "nf-rawvec-push"@, true),
        ("rawvec-len"@, "forth.runtime"@, "nf-rawvec-len"@, true),
        ("rawvec-at"@, "forth.runtime"@, "nf-rawvec-at"@, true),
        ("rawvec-set"@, "forth.runtime"@, "nf-rawvec-set"@, true),

        // calling execution tokens with a fixed effect
        ("call1"@, "forth.runtime"@, "nf-call1"@, true),
        ("call1>"@, "forth.runtime"@, "nf-call1>"@, true),
        ("call2>"@, "forth.runtime"@, "nf-call2>"@, true),
        ("call2"@, "forth.runtime"@, "nf-call2"@, true),
        ("(clone)"@, "forth.runtime"@, "nf-clone"@, true),

        // hash tables
        ("<hash>"@, "forth.runtime"@, "nf-hash-new"@, true),
        ("hash-at"@, "forth.runtime"@, "nf-hash-at"@, true),
        ("hash!"@, "forth.runtime"@, "nf-hash-set"@, true),
        ("hash-key?"@, "forth.runtime"@, "nf-hash-key?"@, true),
        ("hash-del"@, "forth.runtime"@, "nf-hash-del"@, true),
        ("hash-len"@, "forth.runtime"@, "nf-hash-len"@, true),
        ("hash-keys"@, "forth.runtime"@, "nf-hash-keys"@, true),
        ("hash-vals"@, "forth.runtime"@, "nf-hash-values"@, true),

        // hash sets
        ("<hashset>"@, "forth.runtime"@, "nf-set-new"@, true),
        ("hs-add"@, "forth.runtime"@, "nf-set-add"@, true),
        ("hs-in?"@, "forth.runtime"@, "nf-set-has?"@, true),
        ("hs-del"@, "forth.runtime"@, "nf-set-del"@, true),
        ("hs-len"@, "forth.runtime"@, "nf-set-len"@, true),
        ("hs-members"@, "forth.runtime"@, "nf-set-members"@, true),
        ("int-type"@, "forth.runtime"@, "int-type"@, true),
        ("float-type"@, "forth.runtime"@, "float-type"@, true),
        ("string-type"@, "forth.runtime"@, "string-type"@, true),
        ("xt-type"@, "forth.runtime"@, "xt-type"@, true),
        ("addr-type"@, "forth.runtime"@, "addr-type"@, true),
        ("other-type"@, "forth.runtime"@, "other-type"@, true),

        // graphics panes
        ("gpane-open"@, "forth.wf64-gfx"@, "gpane-open"@, true),
        ("gpane-begin"@, "forth.wf64-gfx"@, "gpane-begin"@, true),
        ("gpane-present"@, "forth.wf64-gfx"@, "gpane-present"@, true),
        ("gpane-clear"@, "forth.wf64-gfx"@, "gpane-clear"@, true),
        ("gpane-fill-rect"@, "forth.wf64-gfx"@, "gpane-fill-rect"@, true),
        ("gpane-stroke-rect"@, "forth.wf64-gfx"@, "gpane-stroke-rect"@, true),
        ("gpane-line"@, "forth.wf64-gfx"@, "gpane-line"@, true),
        ("gpane-fill-circle"@, "forth.wf64-gfx"@, "gpane-fill-circle"@, true),
        ("gpane-next-event"@, "forth.wf64-gfx"@, "gpane-next-event"@, true),

        // document panes
        ("doc-open"@, "forth.wf64-gfx"@, "doc-open"@, true),
        ("doc-set"@, "forth.wf64-gfx"@, "doc-set"@, true),
        ("doc-append"@, "forth.wf64-gfx"@, "doc-append"@, true),

        // event kinds
        ("ev-none"@, "forth.wf64-gfx"@, "EV_NONE"@, true),
        ("ev-key"@, "forth.wf64-gfx"@, "EV_KEY"@, true),
        ("ev-char"@, "forth.wf64-gfx"@, "EV_CHAR"@, true),
        ("ev-mouse"@, "forth.wf64-gfx"@, "EV_MOUSE"@, true),
        ("ev-focus"@, "forth.wf64-gfx"@, "EV_FOCUS"@, true),
        ("ev-resize"@, "forth.wf64-gfx"@, "EV_RESIZE"@, true),
        ("ev-close"@, "forth.wf64-gfx"@, "EV_CLOSE"@, true),
        ("ev-frame-close"@, "forth.wf64-gfx"@, "EV_FRAME_CLOSE"@, true),
        ("ev-tick"@, "forth.wf64-gfx"@, "EV_TICK"@, true),
    ]
}

/// A dictionary entry as plain text: ANS name, vocab, Factor word and
/// whether it is qualified.
pub open spec fn entry_text(e: (Seq<char>, Builtin)) -> (Seq<char>, Seq<char>, Seq<char>, bool) {
    (e.0, e.1.vocab@, e.1.factor_name@, e.1.qualified)
}

/// Every ANS word of the dictionary lowers to the Factor word the
/// correspondence gives it, entry for entry and in the same order.
#[verifier::rlimit(50)]
pub proof fn lemma_dictionary_follows_correspondence()
    ensures
        builtin_entries().map_values(|e| entry_text(e)) == ans_factor_correspondence(),
{
    assert(builtin_entries().map_values(|e| entry_text(e)) =~= ans_factor_correspondence());
}

proof fn lemma_static_view_append<T>(a: Seq<(&'static str, T)>, b: Seq<(&'static str, T)>)
    ensures
        static_view(a + b) == static_view(a) + static_view(b),
{
    assert(static_view(a + b) =~= static_view(a) + static_view(b));
}

/// The static dictionary of ANS → Factor mappings.
pub fn builtin_table() -> (t: Vec<(&'static str, Builtin)>)
    ensures
        static_view(t@) == builtin_entries(),
{
    let mut t = table_part_a();
    let mut b = table_part_b();
    let mut c = table_part_c();
    let mut d = table_part_d();
    let mut e = table_part_e();
    let ghost (va, vb, vc, vd, ve) = (t@, b@, c@, d@, e@);
    t.append(&mut b);
    t.append(&mut c);
    t.append(&mut d);
    t.append(&mut e);
    proof {
        assert(t@ == va + vb + vc + vd + ve);
        lemma_static_view_append(va, vb);
        lemma_static_view_append(va + vb, vc);
        lemma_static_view_append(va + vb + vc, vd);
        lemma_static_view_append(va + vb + vc + vd, ve);
    }
    t
}

/// Look a lower-cased ANS name up in the builtin dictionary.
pub fn lookup_builtin(table: &Vec<(&'static str, Builtin)>, lc: &str) -> (r: Option<Builtin>)
    requires
        static_view(table@) == builtin_entries(),
    ensures
        r == builtin_of(lc@),
{
    lookup_static(table, lc)
}

} // verus!
