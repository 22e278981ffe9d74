//! The LET sub-language: infix algebra embedded in ANS Forth.
//!
//! `LET ( inputs ) -> ( outputs ) = expr, ... [WHERE name = expr]* END`
//! lowers to a Factor `[| inputs | body ] call( ins -- outs )` block.
//!
//! ```text
//! let-form  := 'LET' '(' input* ')' '->' '(' ident* ')' '='
//!              expr (',' expr)* ('WHERE' ident '=' expr)* 'END'
//! input     := ident (':' ident ('AS' ident+)?)?
//! expr      := add (('<' | '>' | '<=' | '>=' | '==' | '!=') add)*
//! add       := mul (('+' | '-') mul)*
//! mul       := pow (('*' | '/') pow)*
//! pow       := unary ('**' pow)?
//! unary     := '-' unary | primary
//! primary   := number | ident ('(' (expr (',' expr)*)? ')')? | '(' expr ')'
//! ```
pub mod parser;
pub mod syntax;
pub mod codegen;

pub use parser::{parse, BinOp, Expr, LetError, LetForm};
pub use codegen::{lower_to_factor, let_text};
