//! Renders an expression tree back to source text.

use vstd::prelude::*;
use vstd::string::StringExecFns;
use crate::compiler::BinaryOp;
use crate::compiler::Expr;
use crate::compiler::Func0Op;
use crate::compiler::Func1Op;
use crate::compiler::RecursiveExpression;
use crate::compiler::exprs_view;
use crate::compiler::names_view;

verus! {

/// How much white space the printer spends.
#[derive(Debug, Clone, Copy, PartialEq, Eq)]
pub enum PrettyFormat {
    /// No optional white space at all.
    Minified,
    /// One line, with single spaces.
    Spaced,
    /// One statement per line, four spaces per nesting level.
    Indented,
}

/// `n` spaces.
pub open spec fn spaces(n: nat) -> Seq<char> {
    Seq::new(n, |i: int| ' ')
}

/// What separates the lines of a block at nesting level `indent`.
pub open spec fn newline(which: PrettyFormat, indent: usize) -> Seq<char> {
    match which {
        PrettyFormat::Minified => Seq::empty(),
        PrettyFormat::Spaced => seq![' '],
        PrettyFormat::Indented => seq!['\n'] + spaces(4 * (indent as nat)),
    }
}

/// What separates two words on a line.
pub open spec fn space(which: PrettyFormat) -> Seq<char> {
    match which {
        PrettyFormat::Minified => Seq::empty(),
        PrettyFormat::Spaced => seq![' '],
        PrettyFormat::Indented => seq![' '],
    }
}

/// The nesting level inside a block at level `indent`. It stops growing at the largest
/// machine integer.
pub open spec fn deeper(indent: usize) -> usize {
    if indent < usize::MAX {
        (indent + 1) as usize
    } else {
        indent
    }
}

/// The characters removed from the end of a list before its closing bracket: after the
/// statements of a block `;`, line feed and space, after parameters or arguments `,` and space.
pub open spec fn droppable(c: char, block: bool) -> bool {
    if block {
        c == ';' || c == '\n' || c == ' '
    } else {
        c == ',' || c == ' '
    }
}

/// `s` without its trailing droppable characters.
pub open spec fn trim_end(s: Seq<char>, block: bool) -> Seq<char>
    decreases s.len(),
{
    if s.len() > 0 && droppable(s.last(), block) {
        trim_end(s.drop_last(), block)
    } else {
        s
    }
}

/// The text of a binary operator between its operands.
pub open spec fn operator_text(op: BinaryOp, which: PrettyFormat) -> Seq<char> {
    if which == PrettyFormat::Minified {
        match op {
            BinaryOp::Add => "+"@,
            BinaryOp::Sub => "-"@,
            BinaryOp::Div => "/"@,
            BinaryOp::Mul => "*"@,
            BinaryOp::Mod => "%"@,
            BinaryOp::Pow => "^"@,
            BinaryOp::EQ => "=="@,
            BinaryOp::NEQ => "!="@,
            BinaryOp::LT => "<"@,
            BinaryOp::LTE => "<="@,
            BinaryOp::GT => ">"@,
            BinaryOp::GTE => ">="@,
        }
    } else {
        match op {
            BinaryOp::Add => " + "@,
            BinaryOp::Sub => " - "@,
            BinaryOp::Div => " / "@,
            BinaryOp::Mul => " * "@,
            BinaryOp::Mod => " % "@,
            BinaryOp::Pow => "^"@,
            BinaryOp::EQ => " == "@,
            BinaryOp::NEQ => " != "@,
            BinaryOp::LT => " < "@,
            BinaryOp::LTE => " <= "@,
            BinaryOp::GT => " > "@,
            BinaryOp::GTE => " >= "@,
        }
    }
}

/// The name of a built-in function with its opening parenthesis.
pub open spec fn function_text(op: Func1Op) -> Seq<char> {
    match op {
        Func1Op::Sin => "sin("@,
        Func1Op::Cos => "cos("@,
        Func1Op::Sqrt => "sqrt("@,
        Func1Op::Log => "log("@,
        Func1Op::Round => "round("@,
        Func1Op::Floor => "floor("@,
    }
}

/// Where an expression stands: as an operand of a binary operation, the left one or
/// (`true`) the right one, or as no operand.
pub type Place = Option<(BinaryOp, bool)>;

/// Whether a binary operation is printed in parentheses: as an operand of an operation of
/// another precedence class, unless it is itself of the highest class; and as the right
/// operand of an operation of its own class, which would else be read as the left operand
/// of what follows.
pub open spec fn needs_parens(op: BinaryOp, parent: Place) -> bool {
    match parent {
        Some((parent_op, right)) => (parent_op.spec_precedence() != op.spec_precedence()
            && op.spec_precedence() < 3) || (right && parent_op.spec_precedence()
            == op.spec_precedence()),
        None => false,
    }
}

/// Whether an expression is printed in parentheses: a binary operation as `needs_parens`
/// says, and a binding or a closure literal wherever it is an operand, because it has no
/// end of its own.
pub open spec fn in_parens(e: Expr, parent: Place) -> bool {
    match e {
        Expr::BinaryOp(_, op, _) => needs_parens(op, parent),
        Expr::AssignOp(_, _) => parent is Some,
        Expr::FuncDeclaration(_, _) => parent is Some,
        _ => false,
    }
}

/// Each parameter followed by a comma and a separator.
pub open spec fn render_params(names: Seq<Seq<char>>, which: PrettyFormat) -> Seq<char>
    decreases names.len(),
{
    if names.len() == 0 {
        Seq::empty()
    } else {
        render_params(names.drop_last(), which) + names.last() + seq![','] + space(which)
    }
}

/// Each statement followed by a semicolon and a line separator.
pub open spec fn render_statements(items: Seq<Expr>, indent: usize, which: PrettyFormat) -> Seq<
    char,
>
    decreases items, 0nat,
{
    if items.len() == 0 {
        Seq::empty()
    } else {
        render_statements(items.drop_last(), indent, which) + render(
            items.last(),
            None,
            indent,
            which,
        ) + seq![';'] + newline(which, indent)
    }
}

/// Each argument followed by a comma and a separator.
pub open spec fn render_arguments(items: Seq<Expr>, indent: usize, which: PrettyFormat) -> Seq<
    char,
>
    decreases items, 0nat,
{
    if items.len() == 0 {
        Seq::empty()
    } else {
        render_arguments(items.drop_last(), indent, which) + render(
            items.last(),
            None,
            indent,
            which,
        ) + seq![','] + space(which)
    }
}

/// The text of an expression that is printed at nesting level `indent` as an operand of
/// `parent`, or of no binary operation.
pub open spec fn render(e: Expr, parent: Place, indent: usize, which: PrettyFormat) -> Seq<
    char,
>
    decreases e, 1nat,
{
    match e {
        Expr::Block(items) => seq!['{'] + trim_end(
            newline(which, deeper(indent)) + render_statements(items, deeper(indent), which),
            true,
        ) + newline(which, indent) + seq!['}'],
        Expr::Literal(x) => x,
        Expr::Local(name) => name,
        Expr::FuncDeclaration(params, body) => {
            let inner = seq!['('] + trim_end(render_params(params, which), false) + seq![')']
                + space(which) + "=>"@ + space(which) + render(*body, None, indent, which);
            if parent is Some {
                seq!['('] + inner + seq![')']
            } else {
                inner
            }
        },
        Expr::If(c, b) => "if ("@ + render(*c, None, indent, which) + ") "@ + render(
            *b,
            None,
            indent,
            which,
        ),
        Expr::IfElse(c, a, b) => "if ("@ + render(*c, None, indent, which) + ") "@ + render(
            *a,
            None,
            indent,
            which,
        ) + " else "@ + render(*b, None, indent, which),
        Expr::AssignOp(name, v) => {
            let inner = "let "@ + name + space(which) + seq!['='] + space(which) + render(
                *v,
                None,
                indent,
                which,
            );
            if parent is Some {
                seq!['('] + inner + seq![')']
            } else {
                inner
            }
        },
        Expr::BinaryOp(l, op, r) => {
            let inner = render(*l, Some((op, false)), indent, which) + operator_text(op, which)
                + render(*r, Some((op, true)), indent, which);
            if needs_parens(op, parent) {
                seq!['('] + inner + seq![')']
            } else {
                inner
            }
        },
        Expr::Func0(op) => "rand()"@,
        Expr::Func1(op, v) => function_text(op) + render(*v, None, indent, which) + seq![')'],
        Expr::FuncLocal(name, args) => name + seq!['('] + trim_end(
            render_arguments(args, indent, which),
            false,
        ) + seq![')'],
    }
}

/// Trimming never reaches past a character that is not droppable.
pub proof fn lemma_trim_stops(prefix: Seq<char>, c: char, tail: Seq<char>, block: bool)
    requires
        !droppable(c, block),
    ensures
        trim_end(prefix.push(c) + tail, block) == prefix.push(c) + trim_end(tail, block),
    decreases tail.len(),
{
    let whole = prefix.push(c) + tail;
    if tail.len() == 0 {
        assert(whole =~= prefix.push(c));
        assert(prefix.push(c) + trim_end(tail, block) =~= prefix.push(c));
    } else if droppable(tail.last(), block) {
        assert(whole.last() == tail.last());
        assert(whole.drop_last() =~= prefix.push(c) + tail.drop_last());
        lemma_trim_stops(prefix, c, tail.drop_last(), block);
    } else {
        assert(whole.last() == tail.last());
    }
}

impl PrettyFormat {
    /// Appends the separator between the lines of a block.
    pub fn push_newline(&self, output: &mut String, indent: usize)
        ensures
            final(output)@ == old(output)@ + newline(*self, indent),
    {
        match self {
            PrettyFormat::Minified => {
                assert(output@ =~= old(output)@ + newline(*self, indent));
            },
            PrettyFormat::Spaced => {
                output.push(' ');
                assert(output@ =~= old(output)@ + newline(*self, indent));
            },
            PrettyFormat::Indented => {
                output.push('\n');
                let mut i: usize = 0;
                while i < indent
                    invariant
                        i <= indent,
                        output@ == old(output)@ + (seq!['\n'] + spaces(4 * (i as nat))),
                    decreases indent - i,
                {
                    output.append("    ");
                    proof {
                        reveal_strlit("    ");
                        assert(spaces(4 * (i as nat)) + "    "@ =~= spaces(4 * ((i + 1) as nat)));
                        assert(output@ =~= old(output)@ + (seq!['\n'] + spaces(
                            4 * ((i + 1) as nat),
                        )));
                    }
                    i += 1;
                }
            },
        }
    }

    /// Appends the separator between two words.
    pub fn push_space(&self, output: &mut String)
        ensures
            final(output)@ == old(output)@ + space(*self),
    {
        match self {
            PrettyFormat::Minified => {
                assert(output@ =~= old(output)@ + space(*self));
            },
            PrettyFormat::Spaced => {
                output.push(' ');
                assert(output@ =~= old(output)@ + space(*self));
            },
            PrettyFormat::Indented => {
                output.push(' ');
                assert(output@ =~= old(output)@ + space(*self));
            },
        }
    }
}

fn is_droppable(c: char, block: bool) -> (r: bool)
    ensures
        r == droppable(c, block),
{
    if block {
        c == ';' || c == '\n' || c == ' '
    } else {
        c == ',' || c == ' '
    }
}

fn next_level(indent: usize) -> (r: usize)
    ensures
        r == deeper(indent),
{
    if indent < usize::MAX {
        indent + 1
    } else {
        indent
    }
}

/// Removes the trailing droppable characters.
fn trim_end_in_place(output: &mut String, block: bool)
    ensures
        final(output)@ == trim_end(old(output)@, block),
{
    loop
        invariant
            trim_end(output@, block) == trim_end(old(output)@, block),
        decreases output@.len(),
    {
        let ghost before = output@;
        match output.pop() {
            None => {
                return ;
            },
            Some(c) => {
                if !is_droppable(c, block) {
                    output.push(c);
                    assert(output@ =~= before);
                    return ;
                }
            },
        }
    }
}

fn operator_str(op: BinaryOp, which: PrettyFormat) -> (r: &'static str)
    ensures
        r@ == operator_text(op, which),
{
    match which {
        PrettyFormat::Minified => match op {
            BinaryOp::Add => "+",
            BinaryOp::Sub => "-",
            BinaryOp::Div => "/",
            BinaryOp::Mul => "*",
            BinaryOp::Mod => "%",
            BinaryOp::Pow => "^",
            BinaryOp::EQ => "==",
            BinaryOp::NEQ => "!=",
            BinaryOp::LT => "<",
            BinaryOp::LTE => "<=",
            BinaryOp::GT => ">",
            BinaryOp::GTE => ">=",
        },
        _ => match op {
            BinaryOp::Add => " + ",
            BinaryOp::Sub => " - ",
            BinaryOp::Div => " / ",
            BinaryOp::Mul => " * ",
            BinaryOp::Mod => " % ",
            BinaryOp::Pow => "^",
            BinaryOp::EQ => " == ",
            BinaryOp::NEQ => " != ",
            BinaryOp::LT => " < ",
            BinaryOp::LTE => " <= ",
            BinaryOp::GT => " > ",
            BinaryOp::GTE => " >= ",
        },
    }
}

fn function_str(op: Func1Op) -> (r: &'static str)
    ensures
        r@ == function_text(op),
{
    match op {
        Func1Op::Sin => "sin(",
        Func1Op::Cos => "cos(",
        Func1Op::Sqrt => "sqrt(",
        Func1Op::Log => "log(",
        Func1Op::Round => "round(",
        Func1Op::Floor => "floor(",
    }
}

fn wants_parens(op: BinaryOp, parent: Place) -> (r: bool)
    ensures
        r == needs_parens(op, parent),
{
    match parent {
        Some((parent_op, right)) => {
            let precedence = op.precedence();
            let other = parent_op.precedence();
            (other != precedence && precedence < 3) || (right && other == precedence)
        },
        None => false,
    }
}

/// Appends each parameter with its comma and separator.
fn push_params(params: &Vec<String>, output: &mut String, which: PrettyFormat)
    ensures
        final(output)@ == old(output)@ + render_params(names_view(params@), which),
{
    let ghost base = output@;
    let ghost all = names_view(params@);
    let mut i: usize = 0;
    assert(all.take(0) =~= Seq::<Seq<char>>::empty());
    assert(output@ =~= base + render_params(all.take(0), which));
    while i < params.len()
        invariant
            i <= params.len(),
            all == names_view(params@),
            output@ == base + render_params(all.take(i as int), which),
        decreases params.len() - i,
    {
        output.append(params[i].as_str());
        output.push(',');
        which.push_space(output);
        proof {
            assert(all.take(i + 1).drop_last() =~= all.take(i as int));
            assert(all.take(i + 1).last() == params@[i as int]@);
            assert(output@ =~= base + render_params(all.take(i + 1), which));
        }
        i += 1;
    }
    assert(all.take(i as int) =~= all);
}

/// Appends each statement with its semicolon and line separator.
fn delve_statements(
    statements: &Vec<RecursiveExpression>,
    output: &mut String,
    indent: usize,
    which: PrettyFormat,
)
    ensures
        final(output)@ == old(output)@ + render_statements(
            exprs_view(statements@),
            indent,
            which,
        ),
    decreases statements, 0nat,
{
    let ghost base = output@;
    let ghost all = exprs_view(statements@);
    let mut i: usize = 0;
    assert(all.take(0) =~= Seq::<Expr>::empty());
    assert(output@ =~= base + render_statements(all.take(0), indent, which));
    while i < statements.len()
        invariant
            i <= statements.len(),
            all == exprs_view(statements@),
            output@ == base + render_statements(all.take(i as int), indent, which),
        decreases statements.len() - i,
    {
        delve(&statements[i], None, output, indent, which);
        output.push(';');
        which.push_newline(output, indent);
        proof {
            assert(all.take(i + 1).drop_last() =~= all.take(i as int));
            assert(all.take(i + 1).last() == statements@[i as int]@);
            assert(output@ =~= base + render_statements(all.take(i + 1), indent, which));
        }
        i += 1;
    }
    assert(all.take(i as int) =~= all);
}

/// Appends each argument with its comma and separator.
fn delve_arguments(
    args: &Vec<RecursiveExpression>,
    output: &mut String,
    indent: usize,
    which: PrettyFormat,
)
    ensures
        final(output)@ == old(output)@ + render_arguments(exprs_view(args@), indent, which),
    decreases args, 0nat,
{
    let ghost base = output@;
    let ghost all = exprs_view(args@);
    let mut i: usize = 0;
    assert(all.take(0) =~= Seq::<Expr>::empty());
    assert(output@ =~= base + render_arguments(all.take(0), indent, which));
    while i < args.len()
        invariant
            i <= args.len(),
            all == exprs_view(args@),
            output@ == base + render_arguments(all.take(i as int), indent, which),
        decreases args.len() - i,
    {
        delve(&args[i], None, output, indent, which);
        output.push(',');
        which.push_space(output);
        proof {
            assert(all.take(i + 1).drop_last() =~= all.take(i as int));
            assert(all.take(i + 1).last() == args@[i as int]@);
            assert(output@ =~= base + render_arguments(all.take(i + 1), indent, which));
        }
        i += 1;
    }
    assert(all.take(i as int) =~= all);
}

/// Appends the text of `inner` to `output`.
fn delve(
    inner: &RecursiveExpression,
    parent: Place,
    output: &mut String,
    indent: usize,
    which: PrettyFormat,
)
    ensures
        final(output)@ == old(output)@ + render(inner@, parent, indent, which),
    decreases inner, 1nat,
{
    match inner {
        RecursiveExpression::Block(_) => delve_block(inner, parent, output, indent, which),
        RecursiveExpression::Literal(x) => {
            output.append(x.as_str());
        },
        RecursiveExpression::Local(ident) => {
            output.append(ident.as_str());
        },
        RecursiveExpression::FuncDeclaration(_, _) => delve_closure(inner, parent, output, indent, which),
        RecursiveExpression::If(_, _) => delve_if(inner, parent, output, indent, which),
        RecursiveExpression::IfElse(_, _, _) => delve_if_else(inner, parent, output, indent, which),
        RecursiveExpression::AssignOp(_, _) => delve_assignment(inner, parent, output, indent, which),
        RecursiveExpression::BinaryOp(_, _, _) => delve_binary(inner, parent, output, indent, which),
        RecursiveExpression::Func0(op) => match op {
            Func0Op::Rand => {
                output.append("rand()");
            },
        },
        RecursiveExpression::Func1(_, _) => delve_func_1(inner, parent, output, indent, which),
        RecursiveExpression::FuncLocal(_, _) => delve_call(inner, parent, output, indent, which),
    }
}

/// Appends the text of a block.
fn delve_block(
    inner: &RecursiveExpression,
    parent: Place,
    output: &mut String,
    indent: usize,
    which: PrettyFormat,
)
    requires
        *inner is Block,
    ensures
        final(output)@ == old(output)@ + render(inner@, parent, indent, which),
    decreases inner, 0nat,
{
    let ghost base = output@;
    match inner {
        RecursiveExpression::Block(statements) => {
            let level = next_level(indent);
            output.push('{');
            which.push_newline(output, level);
            delve_statements(statements, output, level, which);
            proof {
                let list = newline(which, level) + render_statements(
                    exprs_view(statements@),
                    level,
                    which,
                );
                assert(output@ =~= base.push('{') + list);
                lemma_trim_stops(base, '{', list, true);
            }
            trim_end_in_place(output, true);
            which.push_newline(output, indent);
            output.push('}');
            assert(output@ =~= base + render(inner@, parent, indent, which));
        },
        _ => {},
    }
}

/// Appends the text of a closure literal.
fn delve_closure(
    inner: &RecursiveExpression,
    parent: Place,
    output: &mut String,
    indent: usize,
    which: PrettyFormat,
)
    requires
        *inner is FuncDeclaration,
    ensures
        final(output)@ == old(output)@ + render(inner@, parent, indent, which),
    decreases inner, 0nat,
{
    let ghost base = output@;
    match inner {
        RecursiveExpression::FuncDeclaration(params, body) => {
            if parent.is_some() {
                output.push('(');
            }
            let ghost begun = output@;
            output.push('(');
            push_params(params, output, which);
            proof {
                lemma_trim_stops(begun, '(', render_params(names_view(params@), which), false);
            }
            trim_end_in_place(output, false);
            output.push(')');
            which.push_space(output);
            output.append("=>");
            which.push_space(output);
            delve(body, None, output, indent, which);
            if parent.is_some() {
                output.push(')');
            }
            assert(output@ =~= base + render(inner@, parent, indent, which));
        },
        _ => {},
    }
}

/// Appends the text of a conditional without `else`.
fn delve_if(
    inner: &RecursiveExpression,
    parent: Place,
    output: &mut String,
    indent: usize,
    which: PrettyFormat,
)
    requires
        *inner is If,
    ensures
        final(output)@ == old(output)@ + render(inner@, parent, indent, which),
    decreases inner, 0nat,
{
    let ghost base = output@;
    match inner {
        RecursiveExpression::If(condition, block) => {
            output.append("if (");
            delve(condition, None, output, indent, which);
            output.append(") ");
            delve(block, None, output, indent, which);
            assert(output@ =~= base + render(inner@, parent, indent, which));
        },
        _ => {},
    }
}

/// Appends the text of a conditional with `else`.
fn delve_if_else(
    inner: &RecursiveExpression,
    parent: Place,
    output: &mut String,
    indent: usize,
    which: PrettyFormat,
)
    requires
        *inner is IfElse,
    ensures
        final(output)@ == old(output)@ + render(inner@, parent, indent, which),
    decreases inner, 0nat,
{
    let ghost base = output@;
    match inner {
        RecursiveExpression::IfElse(condition, if_block, else_block) => {
            output.append("if (");
            delve(condition, None, output, indent, which);
            output.append(") ");
            delve(if_block, None, output, indent, which);
            output.append(" else ");
            delve(else_block, None, output, indent, which);
            assert(output@ =~= base + render(inner@, parent, indent, which));
        },
        _ => {},
    }
}

/// Appends the text of a binding.
fn delve_assignment(
    inner: &RecursiveExpression,
    parent: Place,
    output: &mut String,
    indent: usize,
    which: PrettyFormat,
)
    requires
        *inner is AssignOp,
    ensures
        final(output)@ == old(output)@ + render(inner@, parent, indent, which),
    decreases inner, 0nat,
{
    let ghost base = output@;
    match inner {
        RecursiveExpression::AssignOp(ident, value) => {
            if parent.is_some() {
                output.push('(');
            }
            output.append("let ");
            output.append(ident.as_str());
            which.push_space(output);
            output.push('=');
            which.push_space(output);
            delve(value, None, output, indent, which);
            if parent.is_some() {
                output.push(')');
            }
            assert(output@ =~= base + render(inner@, parent, indent, which));
        },
        _ => {},
    }
}

/// Appends the text of a binary operation.
fn delve_binary(
    inner: &RecursiveExpression,
    parent: Place,
    output: &mut String,
    indent: usize,
    which: PrettyFormat,
)
    requires
        *inner is BinaryOp,
    ensures
        final(output)@ == old(output)@ + render(inner@, parent, indent, which),
    decreases inner, 0nat,
{
    let ghost base = output@;
    match inner {
        RecursiveExpression::BinaryOp(lhs, op, rhs) => {
            let requires_parens = wants_parens(*op, parent);
            if requires_parens {
                output.push('(');
            }
            delve(lhs, Some((*op, false)), output, indent, which);
            output.append(operator_str(*op, which));
            delve(rhs, Some((*op, true)), output, indent, which);
            if requires_parens {
                output.push(')');
            }
            assert(output@ =~= base + render(inner@, parent, indent, which));
        },
        _ => {},
    }
}

/// Appends the text of a call of a built-in function.
fn delve_func_1(
    inner: &RecursiveExpression,
    parent: Place,
    output: &mut String,
    indent: usize,
    which: PrettyFormat,
)
    requires
        *inner is Func1,
    ensures
        final(output)@ == old(output)@ + render(inner@, parent, indent, which),
    decreases inner, 0nat,
{
    let ghost base = output@;
    match inner {
        RecursiveExpression::Func1(op, value) => {
            output.append(function_str(*op));
            delve(value, None, output, indent, which);
            output.push(')');
            assert(output@ =~= base + render(inner@, parent, indent, which));
        },
        _ => {},
    }
}

/// Appends the text of a call of a closure.
fn delve_call(
    inner: &RecursiveExpression,
    parent: Place,
    output: &mut String,
    indent: usize,
    which: PrettyFormat,
)
    requires
        *inner is FuncLocal,
    ensures
        final(output)@ == old(output)@ + render(inner@, parent, indent, which),
    decreases inner, 0nat,
{
    let ghost base = output@;
    match inner {
        RecursiveExpression::FuncLocal(ident, args) => {
            output.append(ident.as_str());
            output.push('(');
            delve_arguments(args, output, indent, which);
            proof {
                lemma_trim_stops(
                    base + ident@,
                    '(',
                    render_arguments(exprs_view(args@), indent, which),
                    false,
                );
            }
            trim_end_in_place(output, false);
            output.push(')');
            assert(output@ =~= base + render(inner@, parent, indent, which));
        },
        _ => {},
    }
}

/// The source text of an expression tree in the given format.
pub fn pretty_print(program_expression: RecursiveExpression, which: PrettyFormat) -> (r: String)
    ensures
        r@ == render(program_expression@, None, 0, which),
{
    let mut pretty_output = String::new();
    delve(&program_expression, None, &mut pretty_output, 0, which);
    assert(pretty_output@ =~= render(program_expression@, None, 0, which));
    pretty_output
}

} // verus!
