//! The renderer: a syntax tree as indented lines, for inspection.
//!
//! A line reads `<type> :- <text>`: the node's type, then its name or value.
//! A parent stands before its children, and each level of nesting indents by
//! four spaces. The rendering drops the quotes of strings and the
//! parentheses of calls, so scanning it again does not give the tokens back.

use crate::ast::{ASTnode, Expr};
use vstd::prelude::*;
use vstd::string::StringExecFns;

verus! {

/// The indentation of a line at the given depth: four spaces per level.
pub open spec fn indentation(depth: nat) -> Seq<char> {
    Seq::new(4 * depth, |i: int| ' ')
}

/// The label of a node's type.
pub open spec fn label(e: Expr) -> Seq<char> {
    match e {
        Expr::Number { .. } => "NumberLiteral"@,
        Expr::Str { .. } => "StringLiteral"@,
        Expr::Call { .. } => "CallExpression"@,
    }
}

/// What a node shows after its label: a leaf's text, a call's name.
pub open spec fn caption(e: Expr) -> Seq<char> {
    match e {
        Expr::Number { text } => text,
        Expr::Str { text } => text,
        Expr::Call { name, .. } => name,
    }
}

/// The line of one node at the given depth.
pub open spec fn line(e: Expr, depth: nat) -> Seq<char> {
    indentation(depth) + label(e) + " :- "@ + caption(e)
}

/// The lines of a tree whose root stands at the given depth: the root's
/// line, then the lines of its arguments in order, one level deeper.
pub open spec fn render(e: Expr, depth: nat) -> Seq<Seq<char>>
    decreases e, 0nat,
{
    match e {
        Expr::Call { args, .. } => seq![line(e, depth)] + render_from(args, 0, depth + 1),
        _ => seq![line(e, depth)],
    }
}

/// The lines of the trees `list[from..]`, all at the given depth.
pub open spec fn render_from(list: Seq<Expr>, from: nat, depth: nat) -> Seq<Seq<char>>
    decreases list, list.len() - from,
{
    if from >= list.len() {
        Seq::empty()
    } else {
        render(list[from as int], depth) + render_from(list, from + 1, depth)
    }
}

/// The line of the node `tree` behind the indentation `indent`.
fn line_of(tree: &ASTnode, indent: &String) -> (text: String)
    ensures
        text@ == indent@ + label(tree@) + " :- "@ + caption(tree@),
{
    let mut text = indent.clone();
    match tree {
        ASTnode::NumberLiteral { text: value } => {
            text.append("NumberLiteral");
            text.append(" :- ");
            text.append(value.as_str());
        },
        ASTnode::StringLiteral { text: value } => {
            text.append("StringLiteral");
            text.append(" :- ");
            text.append(value.as_str());
        },
        ASTnode::CallExpression { callee_name, .. } => {
            text.append("CallExpression");
            text.append(" :- ");
            text.append(callee_name.as_str());
        },
    }
    text
}

/// Appends the lines of `tree` to `lines`, with `indent` in front of the
/// root's line.
fn render_into(tree: &ASTnode, indent: &String, Ghost(depth): Ghost<nat>, lines: &mut Vec<String>)
    requires
        indent@ == indentation(depth),
    ensures
        final(lines).deep_view() == old(lines).deep_view() + render(tree@, depth),
    decreases tree,
{
    let ghost before = lines.deep_view();
    lines.push(line_of(tree, indent));
    proof {
        assert(lines.deep_view() =~= before + seq![line(tree@, depth)]);
    }
    match tree {
        ASTnode::CallExpression { arguments, .. } => {
            let mut deeper = indent.clone();
            deeper.append("    ");
            proof {
                reveal_strlit("    ");
                assert(deeper@ =~= indentation(depth + 1));
            }
            let ghost args = tree@->args;
            let mut i: usize = 0;
            while i < arguments.len()
                invariant
                    i <= arguments.len(),
                    args.len() == arguments.len(),
                    forall|k: int| 0 <= k < args.len() ==> args[k] == #[trigger] arguments[k]@,
                    forall|k: int|
                        0 <= k < arguments.len() ==> decreases_to!(tree => #[trigger] arguments[k]),
                    deeper@ == indentation(depth + 1),
                    lines.deep_view() + render_from(args, i as nat, depth + 1) == before
                        + render(tree@, depth),
                decreases arguments.len() - i,
            {
                let ghost so_far = lines.deep_view();
                render_into(&arguments[i], &deeper, Ghost(depth + 1), lines);
                proof {
                    assert(so_far + render(args[i as int], depth + 1) + render_from(
                        args,
                        (i + 1) as nat,
                        depth + 1,
                    ) =~= so_far + render_from(args, i as nat, depth + 1));
                }
                i += 1;
            }
        },
        _ => {},
    }
}

/// Renders `tree` as indented lines, one node per line, parents before
/// children.
pub fn render_ast(tree: &ASTnode) -> (lines: Vec<String>)
    ensures
        lines.deep_view() == render(tree@, 0),
{
    let mut lines: Vec<String> = Vec::new();
    let indent = String::new();
    proof {
        assert(indent@ =~= indentation(0));
    }
    render_into(tree, &indent, Ghost(0), &mut lines);
    proof {
        assert(Seq::<Seq<char>>::empty() + render(tree@, 0) =~= render(tree@, 0));
    }
    lines
}

} // verus!
