//! The syntax tree that the parser builds.

use crate::charclass::is_digit;
use vstd::prelude::*;

verus! {

/// A node of the syntax tree.
///
/// Leaves own their text; a call owns its argument sub-trees, in the order in
/// which they were written.
#[derive(Debug, PartialEq, Eq)]
pub enum ASTnode {
    /// A number, with its digits as written.
    NumberLiteral { text: String },
    /// A string, with the content between its quotes.
    StringLiteral { text: String },
    /// A call: the name that follows the opening parenthesis, and the
    /// arguments up to the matching closing parenthesis.
    CallExpression { callee_name: String, arguments: Vec<ASTnode> },
}

/// The mathematical model of an [`ASTnode`].
pub enum Expr {
    Number { text: Seq<char> },
    Str { text: Seq<char> },
    Call { name: Seq<char>, args: Seq<Expr> },
}

/// The shape of a tree that was read from well-formed tokens: the text of a
/// number is one digit or more, the text of a string holds no double quote,
/// and the arguments of a call have that shape too.
pub open spec fn well_formed_expr(e: Expr) -> bool
    decreases e,
{
    match e {
        Expr::Number { text } => text.len() > 0 && forall|k: int|
            0 <= k < text.len() ==> is_digit(#[trigger] text[k]),
        Expr::Str { text } => forall|k: int| 0 <= k < text.len() ==> #[trigger] text[k] != '"',
        Expr::Call { args, .. } => forall|i: int|
            0 <= i < args.len() ==> well_formed_expr(#[trigger] args[i]),
    }
}

/// The model of a node: its texts as sequences of characters, and the models
/// of its arguments in order.
pub open spec fn expr_of(node: ASTnode) -> Expr
    decreases node,
{
    match node {
        ASTnode::NumberLiteral { text } => Expr::Number { text: text@ },
        ASTnode::StringLiteral { text } => Expr::Str { text: text@ },
        ASTnode::CallExpression { callee_name, arguments } => Expr::Call {
            name: callee_name@,
            args: Seq::new(
                arguments@.len(),
                |i: int|
                    if 0 <= i < arguments@.len() {
                        expr_of(arguments@[i])
                    } else {
                        arbitrary()
                    },
            ),
        },
    }
}

impl View for ASTnode {
    type V = Expr;

    open spec fn view(&self) -> Expr {
        expr_of(*self)
    }
}

/// The model of a call is made of the model of its name and the models of
/// its arguments.
pub proof fn lemma_call_model(callee_name: String, arguments: Vec<ASTnode>)
    ensures
        (ASTnode::CallExpression { callee_name, arguments })@ == (Expr::Call {
            name: callee_name@,
            args: arguments.deep_view(),
        }),
{
    let node = ASTnode::CallExpression { callee_name, arguments };
    assert(node@->args =~= arguments.deep_view());
}

impl DeepView for ASTnode {
    type V = Expr;

    open spec fn deep_view(&self) -> Expr {
        self@
    }
}

} // verus!
