//! From text to text and back: what the printer writes for a tree is scanned and read
//! back as the tree, and so a text that is printed anew stands for the text.
//!
//! The laws take one thing for granted, `ascii_classes`: what the character tables of the
//! standard library say of ASCII. `format_checked` asks the tables and so needs no premise.
//! One kind of text is left out, because the law fails on it: a text with a name that begins
//! with a digit, which is scanned only behind a numeral (`1 2`).

use vstd::prelude::*;
use crate::bytecode_of;
use crate::collect;
use crate::compiler::BinaryOp;
use crate::compiler::Expr;
use crate::compiler::legible::function_token;
use crate::compiler::legible::legible;
use crate::compiler::legible::lemma_read_back;
use crate::compiler::legible::operator_token;
use crate::compiler::legible::written;
use crate::compiler::legible::written_list;
use crate::compiler::legible::written_names;
use crate::compiler::lowering::bytecode;
use crate::formatted;
use crate::lexer::Tok;
use crate::lexer::Token;
use crate::lexer::tokens_view;
use crate::lexer::spelling::ascii_tables_agree;
use vstd::string::StrSliceExecFns;
use crate::lexer::is_closer;
use crate::lexer::spelling::ascii_classes;
use crate::lexer::spelling::gap;
use crate::lexer::spelling::lemma_literals;
use crate::lexer::spelling::lemma_scan_spaced;
use crate::lexer::spelling::owed;
use crate::lexer::spelling::plain_name;
use crate::lexer::spelling::plain_numeral;
use crate::lexer::spelling::plain_token;
use crate::lexer::spelling::scannable;
use crate::lexer::spelling::scanned_ok;
use crate::lexer::spelling::spaced;
use crate::lexer::spelling::spelling;
use crate::lexer::track;
use crate::pretty::PrettyFormat;
use crate::pretty::Place;
use crate::pretty::in_parens;
use crate::pretty::needs_parens;
use crate::pretty::droppable;
use crate::pretty::function_text;
use crate::pretty::newline;
use crate::pretty::operator_text;
use crate::pretty::render;
use crate::pretty::render_arguments;
use crate::pretty::render_params;
use crate::pretty::render_statements;
use crate::pretty::space;
use crate::pretty::trim_end;
use crate::parser::matchers::CharClass;
use crate::parser::matchers::in_class;
use crate::lexer::spelling::is_punctuation;
use crate::tokens_of;
use crate::compiler::grammar::parse_program;
use crate::compiler::grammar::advanced;
use crate::compiler::grammar::at;
use crate::compiler::grammar::func1_of;
use crate::compiler::grammar::lemma_expression_progress;
use crate::compiler::grammar::lemma_params_progress;
use crate::compiler::grammar::lemma_primary_progress;
use crate::compiler::grammar::operator_width;
use crate::compiler::grammar::parse_assignment;
use crate::compiler::grammar::parse_binary_op;
use crate::compiler::grammar::parse_block;
use crate::compiler::grammar::parse_expression;
use crate::compiler::grammar::parse_func_1;
use crate::compiler::grammar::parse_func_expression;
use crate::compiler::grammar::parse_if;
use crate::compiler::grammar::parse_list;
use crate::compiler::grammar::parse_params;
use crate::compiler::grammar::parse_parens;
use crate::compiler::grammar::parse_primary;
use crate::compiler::grammar::parse_tighter;
use crate::compiler::grammar::parse_var;
use crate::compiler::grammar::peek;
use crate::compiler::grammar::peek_binary_op;
use crate::compiler::grammar::peek_op_from;
use crate::compiler::legible::all_legible;
use crate::lexer::spelling::begins_plainly;
use crate::lexer::spelling::sound;
use crate::lexer::spelling::lemma_scan_sound;
use crate::number::is_numeral;
use crate::vm::Instr;

verus! {

/// Every name in a list is plain.
pub open spec fn plain_names(names: Seq<Seq<char>>) -> bool {
    forall|i: int| 0 <= i < names.len() ==> plain_name(#[trigger] names[i])
}

/// Every item of a list is plain.
pub open spec fn all_plain(items: Seq<Expr>) -> bool
    decreases items, 0nat,
{
    items.len() == 0 || (plain(items[0]) && all_plain(items.skip(1)))
}

/// A class of trees whose names and numerals are scanned back as they are written: every
/// name is a plain name and every numeral a plain numeral.
pub open spec fn plain(e: Expr) -> bool
    decreases e, 1nat,
{
    match e {
        Expr::Block(items) => all_plain(items),
        Expr::Literal(x) => plain_numeral(x),
        Expr::Local(name) => plain_name(name),
        Expr::FuncDeclaration(params, body) => plain_names(params) && plain(*body),
        Expr::If(c, b) => plain(*c) && plain(*b),
        Expr::IfElse(c, a, b) => plain(*c) && plain(*a) && plain(*b),
        Expr::AssignOp(name, v) => plain_name(name) && plain(*v),
        Expr::BinaryOp(l, op, r) => plain(*l) && plain(*r),
        Expr::Func0(op) => true,
        Expr::Func1(op, v) => plain(*v),
        Expr::FuncLocal(name, args) => plain_name(name) && all_plain(args),
    }
}

/// Whether an expression is a binding or a closure literal that stands as an operand, and
/// so in parentheses.
pub open spec fn is_wrapped(e: Expr, parent: Place) -> bool {
    (e is AssignOp || e is FuncDeclaration) && parent is Some
}

/// Every owed closer is a closing bracket.
pub open spec fn closers_only(open: Seq<Tok>) -> bool {
    forall|i: int| 0 <= i < open.len() ==> is_closer(#[trigger] open[i])
}

/// What is owed after two sequences is what is owed after the second, begun with what is owed
/// after the first.
pub proof fn lemma_owed_split(open: Seq<Tok>, a: Seq<Tok>, b: Seq<Tok>)
    ensures
        owed(open, a + b) == owed(owed(open, a), b),
    decreases a.len(),
{
    if a.len() == 0 {
        assert(a + b =~= b);
    } else {
        assert((a + b)[0] == a[0]);
        assert((a + b).skip(1) =~= a.skip(1) + b);
        lemma_owed_split(track(open, a[0]), a.skip(1), b);
    }
}

/// What is owed after one token.
pub proof fn lemma_owed_one(open: Seq<Tok>, tok: Tok)
    ensures
        owed(open, seq![tok]) == track(open, tok),
{
    let a = seq![tok];
    assert(a.skip(1) =~= Seq::<Tok>::empty());
    assert(owed(track(open, a[0]), a.skip(1)) == track(open, tok));
}

/// Names and commas owe nothing.
proof fn lemma_names_owe_nothing(open: Seq<Tok>, names: Seq<Seq<char>>)
    requires
        closers_only(open),
    ensures
        owed(open, written_names(names)) == open,
    decreases names.len(),
{
    let w = written_names(names);
    if names.len() == 0 {
    } else if names.len() == 1 {
        lemma_owed_one(open, Tok::Identifier(names[0]));
    } else {
        let head = seq![Tok::Identifier(names[0]), Tok::Comma];
        lemma_owed_split(open, head, written_names(names.skip(1)));
        lemma_owed_split(open, seq![Tok::Identifier(names[0])], seq![Tok::Comma]);
        assert(seq![Tok::Identifier(names[0])] + seq![Tok::Comma] =~= head);
        lemma_owed_one(open, Tok::Identifier(names[0]));
        lemma_owed_one(open, Tok::Comma);
        lemma_names_owe_nothing(open, names.skip(1));
    }
}

/// A list of expressions owes nothing.
proof fn lemma_list_owes_nothing(open: Seq<Tok>, items: Seq<Expr>, sep: Tok)
    requires
        closers_only(open),
        sep == Tok::Comma || sep == Tok::Semicolon,
    ensures
        owed(open, written_list(items, sep)) == open,
    decreases items, 0nat,
{
    if items.len() == 0 {
    } else if items.len() == 1 {
        lemma_owes_nothing(open, items[0], None);
    } else {
        let first = written(items[0], None);
        lemma_owed_split(open, first + seq![sep], written_list(items.skip(1), sep));
        lemma_owed_split(open, first, seq![sep]);
        lemma_owes_nothing(open, items[0], None);
        lemma_owed_one(open, sep);
        lemma_list_owes_nothing(open, items.skip(1), sep);
    }
}

/// What is written between brackets that owe nothing inside owes nothing.
proof fn lemma_bracketed(open: Seq<Tok>, opener: Tok, inner: Seq<Tok>, closer: Tok)
    requires
        closers_only(open),
        (opener == Tok::OpenParen && closer == Tok::CloseParen) || (opener == Tok::OpenCurly
            && closer == Tok::CloseCurly),
        owed(open.push(closer), inner) == open.push(closer),
    ensures
        owed(open, seq![opener] + inner + seq![closer]) == open,
{
    lemma_owed_split(open, seq![opener] + inner, seq![closer]);
    lemma_owed_split(open, seq![opener], inner);
    lemma_owed_one(open, opener);
    lemma_owed_one(open.push(closer), closer);
    assert(open.push(closer).drop_last() =~= open);
}

/// One more owed closer is a closer.
proof fn lemma_closers_push(open: Seq<Tok>, closer: Tok)
    requires
        closers_only(open),
        is_closer(closer),
    ensures
        closers_only(open.push(closer)),
{
    assert forall|i: int| 0 <= i < open.push(closer).len() implies is_closer(
        #[trigger] open.push(closer)[i],
    ) by {
        if i < open.len() {
            assert(open.push(closer)[i] == open[i]);
        }
    }
}

/// A token that is no bracket owes nothing.
proof fn lemma_plain_owes_nothing(open: Seq<Tok>, tok: Tok)
    requires
        closers_only(open),
        tok != Tok::OpenParen,
        tok != Tok::OpenCurly,
        !is_closer(tok),
    ensures
        owed(open, seq![tok]) == open,
{
    lemma_owed_one(open, tok);
    if open.len() > 0 {
        assert(is_closer(open.last()));
    }
}

/// The brackets of what writes an expression are closed where it ends: afterwards the same
/// closers are owed as before.
pub proof fn lemma_owes_nothing(open: Seq<Tok>, e: Expr, parent: Place)
    requires
        closers_only(open),
    ensures
        owed(open, written(e, parent)) == open,
    decreases e,
        (if is_wrapped(e, parent) {
            2nat
        } else {
            1nat
        }),
{
    let w = written(e, parent);
    let inside = open.push(Tok::CloseParen);
    lemma_closers_push(open, Tok::CloseParen);
    lemma_closers_push(open, Tok::CloseCurly);
    if is_wrapped(e, parent) {
        lemma_owes_nothing(inside, e, None);
        lemma_bracketed(open, Tok::OpenParen, written(e, None), Tok::CloseParen);
    } else {
    match e {
        Expr::Block(items) => {
            lemma_list_owes_nothing(open.push(Tok::CloseCurly), items, Tok::Semicolon);
            lemma_bracketed(
                open,
                Tok::OpenCurly,
                written_list(items, Tok::Semicolon),
                Tok::CloseCurly,
            );
        },
        Expr::Literal(x) => {
            lemma_plain_owes_nothing(open, Tok::LiteralNum(x));
        },
        Expr::Local(name) => {
            lemma_plain_owes_nothing(open, Tok::Identifier(name));
        },
        Expr::FuncDeclaration(params, body) => {
            let names = written_names(params);
            let head = seq![Tok::OpenParen] + names + seq![Tok::CloseParen];
            lemma_names_owe_nothing(inside, params);
            lemma_bracketed(open, Tok::OpenParen, names, Tok::CloseParen);
            lemma_plain_owes_nothing(open, Tok::LeftArrow);
            lemma_owes_nothing(open, *body, None);
            lemma_owed_split(open, head, seq![Tok::LeftArrow]);
            lemma_owed_split(open, head + seq![Tok::LeftArrow], written(*body, None));
            assert(w =~= head + seq![Tok::LeftArrow] + written(*body, None));
        },
        Expr::If(c, b) => {
            let wc = written(*c, None);
            let group = seq![Tok::OpenParen] + wc + seq![Tok::CloseParen];
            lemma_plain_owes_nothing(open, Tok::If);
            lemma_owes_nothing(inside, *c, None);
            lemma_bracketed(open, Tok::OpenParen, wc, Tok::CloseParen);
            lemma_owes_nothing(open, *b, None);
            lemma_owed_split(open, seq![Tok::If], group);
            lemma_owed_split(open, seq![Tok::If] + group, written(*b, None));
            assert(w =~= seq![Tok::If] + group + written(*b, None));
        },
        Expr::IfElse(c, a, b) => {
            let wc = written(*c, None);
            let group = seq![Tok::OpenParen] + wc + seq![Tok::CloseParen];
            lemma_plain_owes_nothing(open, Tok::If);
            lemma_plain_owes_nothing(open, Tok::Else);
            lemma_owes_nothing(inside, *c, None);
            lemma_bracketed(open, Tok::OpenParen, wc, Tok::CloseParen);
            lemma_owes_nothing(open, *a, None);
            lemma_owes_nothing(open, *b, None);
            lemma_owed_split(open, seq![Tok::If], group);
            lemma_owed_split(open, seq![Tok::If] + group, written(*a, None));
            lemma_owed_split(open, seq![Tok::If] + group + written(*a, None), seq![Tok::Else]);
            lemma_owed_split(
                open,
                seq![Tok::If] + group + written(*a, None) + seq![Tok::Else],
                written(*b, None),
            );
            assert(w =~= seq![Tok::If] + group + written(*a, None) + seq![Tok::Else] + written(
                *b,
                None,
            ));
        },
        Expr::AssignOp(name, v) => {
            lemma_plain_owes_nothing(open, Tok::Let);
            lemma_plain_owes_nothing(open, Tok::Identifier(name));
            lemma_plain_owes_nothing(open, Tok::Equals);
            lemma_owes_nothing(open, *v, None);
            lemma_owed_split(open, seq![Tok::Let], seq![Tok::Identifier(name)]);
            lemma_owed_split(
                open,
                seq![Tok::Let] + seq![Tok::Identifier(name)],
                seq![Tok::Equals],
            );
            lemma_owed_split(
                open,
                seq![Tok::Let] + seq![Tok::Identifier(name)] + seq![Tok::Equals],
                written(*v, None),
            );
            assert(w =~= seq![Tok::Let] + seq![Tok::Identifier(name)] + seq![Tok::Equals]
                + written(*v, None));
        },
        Expr::BinaryOp(l, op, r) => {
            let inner = written(*l, Some((op, false))) + seq![operator_token(op)] + written(*r, Some((op, true)));
            if needs_parens(op, parent) {
                lemma_owes_nothing(inside, *l, Some((op, false)));
                lemma_plain_owes_nothing(inside, operator_token(op));
                lemma_owes_nothing(inside, *r, Some((op, true)));
                lemma_owed_split(inside, written(*l, Some((op, false))), seq![operator_token(op)]);
                lemma_owed_split(
                    inside,
                    written(*l, Some((op, false))) + seq![operator_token(op)],
                    written(*r, Some((op, true))),
                );
                lemma_bracketed(open, Tok::OpenParen, inner, Tok::CloseParen);
            } else {
                lemma_owes_nothing(open, *l, Some((op, false)));
                lemma_plain_owes_nothing(open, operator_token(op));
                lemma_owes_nothing(open, *r, Some((op, true)));
                lemma_owed_split(open, written(*l, Some((op, false))), seq![operator_token(op)]);
                lemma_owed_split(
                    open,
                    written(*l, Some((op, false))) + seq![operator_token(op)],
                    written(*r, Some((op, true))),
                );
            }
        },
        Expr::Func0(op) => {
            lemma_plain_owes_nothing(open, Tok::Rand);
            assert(owed(inside, Seq::<Tok>::empty()) == inside);
            lemma_bracketed(open, Tok::OpenParen, Seq::empty(), Tok::CloseParen);
            let group = seq![Tok::OpenParen] + Seq::<Tok>::empty() + seq![Tok::CloseParen];
            lemma_owed_split(open, seq![Tok::Rand], group);
            assert(w =~= seq![Tok::Rand] + group);
        },
        Expr::Func1(op, v) => {
            let wv = written(*v, None);
            let group = seq![Tok::OpenParen] + wv + seq![Tok::CloseParen];
            lemma_plain_owes_nothing(open, function_token(op));
            lemma_owes_nothing(inside, *v, None);
            lemma_bracketed(open, Tok::OpenParen, wv, Tok::CloseParen);
            lemma_owed_split(open, seq![function_token(op)], group);
            assert(w =~= seq![function_token(op)] + group);
        },
        Expr::FuncLocal(name, args) => {
            let l = written_list(args, Tok::Comma);
            let group = seq![Tok::OpenParen] + l + seq![Tok::CloseParen];
            lemma_plain_owes_nothing(open, Tok::Identifier(name));
            lemma_list_owes_nothing(inside, args, Tok::Comma);
            lemma_bracketed(open, Tok::OpenParen, l, Tok::CloseParen);
            lemma_owed_split(open, seq![Tok::Identifier(name)], group);
            assert(w =~= seq![Tok::Identifier(name)] + group);
        },
    }
    }
}

/// The spelling of one token.
pub proof fn lemma_spaced_one(tok: Tok)
    ensures
        spaced(seq![tok]) == spelling(tok),
{
}

/// The spelling of two sequences one after the other: their spellings, with the gap between
/// the last token of the first and the first token of the second.
pub proof fn lemma_spaced_split(a: Seq<Tok>, b: Seq<Tok>)
    requires
        a.len() > 0,
        b.len() > 0,
    ensures
        spaced(a + b) == spaced(a) + gap(a.last(), b[0]) + spaced(b),
    decreases a.len(),
{
    let w = a + b;
    assert(w[0] == a[0]);
    if a.len() == 1 {
        assert(w.skip(1) =~= b);
        assert(w[1] == b[0]);
        assert(spaced(w) =~= spaced(a) + gap(a.last(), b[0]) + spaced(b));
    } else {
        let rest = a.skip(1);
        assert(w.skip(1) =~= rest + b);
        assert(w[1] == a[1]);
        assert(rest.last() == a.last());
        lemma_spaced_split(rest, b);
        assert(spaced(w) =~= spaced(a) + gap(a.last(), b[0]) + spaced(b));
    }
}

/// A token that an expression can begin with.
pub open spec fn begins_expression(tok: Tok) -> bool {
    tok == Tok::OpenCurly || tok is LiteralNum || tok is Identifier || tok == Tok::OpenParen
        || tok == Tok::If || tok == Tok::Let || tok == Tok::Rand || tok == Tok::Sine || tok
        == Tok::Cosine || tok == Tok::Sqrt || tok == Tok::Log || tok == Tok::Round || tok
        == Tok::Floor
}

/// A token that an expression can end with.
pub open spec fn ends_expression(tok: Tok) -> bool {
    tok is LiteralNum || tok is Identifier || tok == Tok::CloseParen || tok == Tok::CloseCurly
}

/// The last item of a list that is written with separators.
proof fn lemma_list_ends(items: Seq<Expr>, sep: Tok)
    requires
        items.len() > 0,
    ensures
        written_list(items, sep).len() > 0,
        written_list(items, sep).last() == written(items.last(), None).last(),
        written_list(items, sep)[0] == written(items[0], None)[0],
    decreases items, 0nat,
{
    lemma_ends(items[0], None);
    if items.len() > 1 {
        let rest = items.skip(1);
        lemma_list_ends(rest, sep);
        assert(rest.last() == items.last());
    }
}

/// What writes an expression begins with a token that begins expressions and ends with one
/// that ends them.
pub proof fn lemma_ends(e: Expr, parent: Place)
    ensures
        written(e, parent).len() > 0,
        begins_expression(written(e, parent)[0]),
        ends_expression(written(e, parent).last()),
        e is Block ==> written(e, parent)[0] == Tok::OpenCurly && written(e, parent).last()
            == Tok::CloseCurly,
    decreases e, 1nat,
{
    if is_wrapped(e, parent) {
    } else {
    match e {
        Expr::FuncDeclaration(params, body) => {
            lemma_ends(*body, None);
        },
        Expr::If(c, b) => {
            lemma_ends(*b, None);
        },
        Expr::IfElse(c, a, b) => {
            lemma_ends(*b, None);
        },
        Expr::AssignOp(name, v) => {
            lemma_ends(*v, None);
        },
        Expr::BinaryOp(l, op, r) => {
            lemma_ends(*l, Some((op, false)));
            lemma_ends(*r, Some((op, true)));
            if !needs_parens(op, parent) {
                assert(written(e, parent)[0] == written(*l, Some((op, false)))[0]);
            }
        },
        Expr::Func1(op, v) => {
            assert(written(e, parent)[0] == function_token(op));
        },
        _ => {},
    }
    }
}

/// Plain tokens of which no two numerals stand next to each other.
pub open spec fn apart(ts: Seq<Tok>) -> bool {
    &&& forall|i: int| 0 <= i < ts.len() ==> plain_token(#[trigger] ts[i])
    &&& forall|i: int|
        0 <= i < ts.len() - 1 ==> !((#[trigger] ts[i]) is LiteralNum && ts[i + 1] is LiteralNum)
}

/// Two sequences with a token between them that is no numeral.
proof fn lemma_apart_join(a: Seq<Tok>, tok: Tok, b: Seq<Tok>)
    requires
        apart(a),
        apart(b),
        plain_token(tok),
        !(tok is LiteralNum),
    ensures
        apart(a + seq![tok] + b),
{
    let w = a + seq![tok] + b;
    assert forall|i: int| 0 <= i < w.len() implies plain_token(#[trigger] w[i]) by {
        if i < a.len() {
            assert(w[i] == a[i]);
        } else if i == a.len() {
            assert(w[i] == tok);
        } else {
            assert(w[i] == b[i - a.len() - 1]);
        }
    }
    assert forall|i: int| 0 <= i < w.len() - 1 implies !((#[trigger] w[i]) is LiteralNum && w[i
        + 1] is LiteralNum) by {
        if i + 1 < a.len() {
            assert(w[i] == a[i]);
            assert(w[i + 1] == a[i + 1]);
        } else if i + 1 == a.len() {
            assert(w[i + 1] == tok);
        } else if i == a.len() {
            assert(w[i] == tok);
        } else {
            assert(w[i] == b[i - a.len() - 1]);
            assert(w[i + 1] == b[i - a.len()]);
        }
    }
}

/// Names with commas between them.
proof fn lemma_names_apart(names: Seq<Seq<char>>)
    requires
        plain_names(names),
    ensures
        apart(written_names(names)),
    decreases names.len(),
{
    let w = written_names(names);
    if names.len() == 0 {
    } else if names.len() == 1 {
        assert(plain_name(names[0]));
    } else {
        let rest = names.skip(1);
        assert(plain_name(names[0]));
        assert forall|i: int| 0 <= i < rest.len() implies plain_name(#[trigger] rest[i]) by {
            assert(rest[i] == names[i + 1]);
        }
        lemma_names_apart(rest);
        let one = seq![Tok::Identifier(names[0])];
        assert(apart(one));
        lemma_apart_join(one, Tok::Comma, written_names(rest));
        assert(w =~= one + seq![Tok::Comma] + written_names(rest));
    }
}

/// Expressions with separators between them.
proof fn lemma_list_apart(items: Seq<Expr>, sep: Tok)
    requires
        all_plain(items),
        sep == Tok::Comma || sep == Tok::Semicolon,
    ensures
        apart(written_list(items, sep)),
    decreases items, 0nat,
{
    if items.len() == 0 {
    } else if items.len() == 1 {
        lemma_apart(items[0], None);
    } else {
        lemma_apart(items[0], None);
        lemma_list_apart(items.skip(1), sep);
        lemma_apart_join(written(items[0], None), sep, written_list(items.skip(1), sep));
    }
}

/// In what writes a plain expression the tokens are plain, and no two numerals stand next
/// to each other.
#[verifier::rlimit(60)]
pub proof fn lemma_apart(e: Expr, parent: Place)
    requires
        plain(e),
    ensures
        apart(written(e, parent)),
    decreases e,
        (if is_wrapped(e, parent) {
            2nat
        } else {
            1nat
        }),
{
    let w = written(e, parent);
    let none = Seq::<Tok>::empty();
    assert(apart(none));
    if is_wrapped(e, parent) {
        let inner = written(e, None);
        lemma_apart(e, None);
        lemma_apart_join(none, Tok::OpenParen, inner);
        lemma_apart_join(none + seq![Tok::OpenParen] + inner, Tok::CloseParen, none);
        assert(w =~= none + seq![Tok::OpenParen] + inner + seq![Tok::CloseParen] + none);
    } else {
    match e {
        Expr::Block(items) => {
            let l = written_list(items, Tok::Semicolon);
            lemma_list_apart(items, Tok::Semicolon);
            lemma_apart_join(none, Tok::OpenCurly, l);
            lemma_apart_join(none + seq![Tok::OpenCurly] + l, Tok::CloseCurly, none);
            assert(w =~= none + seq![Tok::OpenCurly] + l + seq![Tok::CloseCurly] + none);
        },
        Expr::Literal(x) => {},
        Expr::Local(name) => {},
        Expr::FuncDeclaration(params, body) => {
            let names = written_names(params);
            lemma_names_apart(params);
            lemma_apart(*body, None);
            lemma_apart_join(none, Tok::OpenParen, names);
            lemma_apart_join(none + seq![Tok::OpenParen] + names, Tok::CloseParen, none);
            lemma_apart_join(
                none + seq![Tok::OpenParen] + names + seq![Tok::CloseParen] + none,
                Tok::LeftArrow,
                written(*body, None),
            );
            assert(w =~= none + seq![Tok::OpenParen] + names + seq![Tok::CloseParen] + none
                + seq![Tok::LeftArrow] + written(*body, None));
        },
        Expr::If(c, b) => {
            lemma_apart(*c, None);
            lemma_apart(*b, None);
            lemma_apart_join(none, Tok::If, none);
            lemma_apart_join(none + seq![Tok::If] + none, Tok::OpenParen, written(*c, None));
            lemma_apart_join(
                none + seq![Tok::If] + none + seq![Tok::OpenParen] + written(*c, None),
                Tok::CloseParen,
                written(*b, None),
            );
            assert(w =~= none + seq![Tok::If] + none + seq![Tok::OpenParen] + written(*c, None)
                + seq![Tok::CloseParen] + written(*b, None));
        },
        Expr::IfElse(c, a, b) => {
            lemma_apart(*c, None);
            lemma_apart(*a, None);
            lemma_apart(*b, None);
            lemma_apart_join(none, Tok::If, none);
            lemma_apart_join(none + seq![Tok::If] + none, Tok::OpenParen, written(*c, None));
            lemma_apart_join(
                none + seq![Tok::If] + none + seq![Tok::OpenParen] + written(*c, None),
                Tok::CloseParen,
                written(*a, None),
            );
            lemma_apart_join(
                none + seq![Tok::If] + none + seq![Tok::OpenParen] + written(*c, None)
                    + seq![Tok::CloseParen] + written(*a, None),
                Tok::Else,
                written(*b, None),
            );
            assert(w =~= none + seq![Tok::If] + none + seq![Tok::OpenParen] + written(*c, None)
                + seq![Tok::CloseParen] + written(*a, None) + seq![Tok::Else] + written(
                *b,
                None,
            ));
        },
        Expr::AssignOp(name, v) => {
            lemma_apart(*v, None);
            let id = seq![Tok::Identifier(name)];
            assert(apart(id));
            lemma_apart_join(none, Tok::Let, id);
            lemma_apart_join(none + seq![Tok::Let] + id, Tok::Equals, written(*v, None));
            assert(w =~= none + seq![Tok::Let] + id + seq![Tok::Equals] + written(*v, None));
        },
        Expr::BinaryOp(l, op, r) => {
            let inner = written(*l, Some((op, false))) + seq![operator_token(op)] + written(*r, Some((op, true)));
            lemma_apart(*l, Some((op, false)));
            lemma_apart(*r, Some((op, true)));
            lemma_apart_join(written(*l, Some((op, false))), operator_token(op), written(*r, Some((op, true))));
            if needs_parens(op, parent) {
                lemma_apart_join(none, Tok::OpenParen, inner);
                lemma_apart_join(none + seq![Tok::OpenParen] + inner, Tok::CloseParen, none);
                assert(w =~= none + seq![Tok::OpenParen] + inner + seq![Tok::CloseParen] + none);
            }
        },
        Expr::Func0(op) => {
            lemma_apart_join(none, Tok::Rand, none);
            lemma_apart_join(none + seq![Tok::Rand] + none, Tok::OpenParen, none);
            lemma_apart_join(
                none + seq![Tok::Rand] + none + seq![Tok::OpenParen] + none,
                Tok::CloseParen,
                none,
            );
            assert(w =~= none + seq![Tok::Rand] + none + seq![Tok::OpenParen] + none
                + seq![Tok::CloseParen] + none);
        },
        Expr::Func1(op, v) => {
            lemma_apart(*v, None);
            lemma_apart_join(none, function_token(op), none);
            lemma_apart_join(
                none + seq![function_token(op)] + none,
                Tok::OpenParen,
                written(*v, None),
            );
            lemma_apart_join(
                none + seq![function_token(op)] + none + seq![Tok::OpenParen] + written(*v, None),
                Tok::CloseParen,
                none,
            );
            assert(w =~= none + seq![function_token(op)] + none + seq![Tok::OpenParen] + written(
                *v,
                None,
            ) + seq![Tok::CloseParen] + none);
        },
        Expr::FuncLocal(name, args) => {
            let l = written_list(args, Tok::Comma);
            let id = seq![Tok::Identifier(name)];
            assert(apart(id));
            lemma_list_apart(args, Tok::Comma);
            lemma_apart_join(id, Tok::OpenParen, l);
            lemma_apart_join(id + seq![Tok::OpenParen] + l, Tok::CloseParen, none);
            assert(w =~= id + seq![Tok::OpenParen] + l + seq![Tok::CloseParen] + none);
        },
    }
    }
}

/// What writes a plain expression is scannable.
pub proof fn lemma_written_scannable(e: Expr)
    requires
        plain(e),
    ensures
        scannable(written(e, None)),
{
    lemma_apart(e, None);
    lemma_ends(e, None);
}

/// A separator and a space after a text that does not end with what is trimmed are
/// trimmed, and nothing else is.
proof fn lemma_trim_separator(x: Seq<char>, sep: char, block: bool)
    requires
        x.len() > 0,
        !droppable(x.last(), block),
        droppable(sep, block),
    ensures
        trim_end(x + seq![sep] + seq![' '], block) == x,
{
    let a = x + seq![sep];
    let b = a + seq![' '];
    assert(b.last() == ' ');
    assert(b.drop_last() =~= a);
    assert(a.last() == sep);
    assert(a.drop_last() =~= x);
    assert(trim_end(a, block) == trim_end(x, block));
    assert(trim_end(x, block) == x);
}

/// The last character of the spelling of a sequence is that of its last token.
proof fn lemma_spaced_last(ts: Seq<Tok>)
    requires
        ts.len() > 0,
        forall|i: int| 0 <= i < ts.len() ==> spelling(#[trigger] ts[i]).len() > 0,
    ensures
        spaced(ts).len() > 0,
        spaced(ts).last() == spelling(ts.last()).last(),
    decreases ts.len(),
{
    if ts.len() > 1 {
        let rest = ts.skip(1);
        assert forall|i: int| 0 <= i < rest.len() implies spelling(#[trigger] rest[i]).len()
            > 0 by {
            assert(rest[i] == ts[i + 1]);
        }
        lemma_spaced_last(rest);
        assert(rest.last() == ts.last());
    }
}

/// What spells a plain expression does not end with a character that is trimmed from the
/// end of a list.
proof fn lemma_last_char(e: Expr, parent: Place)
    requires
        ascii_classes(),
        plain(e),
    ensures
        spaced(written(e, parent)).len() > 0,
        !droppable(spaced(written(e, parent)).last(), true),
        !droppable(spaced(written(e, parent)).last(), false),
{
    let w = written(e, parent);
    lemma_apart(e, parent);
    lemma_ends(e, parent);
    lemma_literals();
    assert forall|i: int| 0 <= i < w.len() implies spelling(#[trigger] w[i]).len() > 0 by {
        crate::lexer::spelling::lemma_spelling_begins(w[i]);
    }
    lemma_spaced_last(w);
    let t = w.last();
    assert(plain_token(t));
    let c = spelling(t).last();
    match t {
        Tok::LiteralNum(x) => {
            let body = crate::number::numeral_body(x);
            let d = choose|i: int| 0 <= i < body.len() && crate::text::is_digit(#[trigger] body[i]);
            assert(crate::text::is_digit(body[body.len() - 1]) || body[body.len() - 1] == '.');
            assert(x[x.len() - 1] == body[body.len() - 1]);
        },
        Tok::Identifier(n) => {
            assert(in_class(n[n.len() - 1], CharClass::Word));
            assert(is_punctuation(' '));
            assert(is_punctuation(','));
            assert(is_punctuation(';'));
        },
        _ => {},
    }
}

/// A list of at least two expressions is written as all but the last, a separator, and
/// the last.
proof fn lemma_written_list_snoc(items: Seq<Expr>, sep: Tok)
    requires
        items.len() >= 2,
    ensures
        written_list(items, sep) == written_list(items.drop_last(), sep) + seq![sep] + written(
            items.last(),
            None,
        ),
    decreases items.len(),
{
    let rest = items.skip(1);
    let front = items.drop_last();
    assert(front[0] == items[0]);
    if items.len() == 2 {
        assert(rest.len() == 1);
        assert(rest[0] == items.last());
        assert(front.len() == 1);
        assert(written_list(rest, sep) == written(rest[0], None));
        assert(written_list(front, sep) == written(front[0], None));
    } else {
        lemma_written_list_snoc(rest, sep);
        assert(front.skip(1) =~= rest.drop_last());
        assert(rest.last() == items.last());
        assert(written_list(items, sep) =~= written_list(front, sep) + seq![sep] + written(
            items.last(),
            None,
        ));
    }
}

/// A list of at least two names is written as all but the last, a comma, and the last.
proof fn lemma_written_names_snoc(names: Seq<Seq<char>>)
    requires
        names.len() >= 2,
    ensures
        written_names(names) == written_names(names.drop_last()) + seq![Tok::Comma] + seq![
            Tok::Identifier(names.last()),
        ],
    decreases names.len(),
{
    let rest = names.skip(1);
    let front = names.drop_last();
    assert(front[0] == names[0]);
    if names.len() == 2 {
        assert(rest.len() == 1);
        assert(rest[0] == names.last());
        assert(front.len() == 1);
        assert(written_names(rest) == seq![Tok::Identifier(rest[0])]);
        assert(written_names(front) == seq![Tok::Identifier(front[0])]);
        assert(written_names(names) == seq![Tok::Identifier(names[0]), Tok::Comma]
            + written_names(rest));
        assert(written_names(names) =~= written_names(front) + seq![Tok::Comma] + seq![
            Tok::Identifier(names.last()),
        ]);
    } else {
        lemma_written_names_snoc(rest);
        assert(front.skip(1) =~= rest.drop_last());
        assert(rest.last() == names.last());
        assert(written_names(names) =~= written_names(front) + seq![Tok::Comma] + seq![
            Tok::Identifier(names.last()),
        ]);
    }
}

/// Every item of a plain list is plain, and so is every list of its first items.
proof fn lemma_all_plain(items: Seq<Expr>)
    requires
        all_plain(items),
    ensures
        forall|i: int| 0 <= i < items.len() ==> plain(#[trigger] items[i]),
        items.len() > 0 ==> all_plain(items.drop_last()),
    decreases items.len(),
{
    if items.len() > 0 {
        let rest = items.skip(1);
        lemma_all_plain(rest);
        assert forall|i: int| 0 <= i < items.len() implies plain(#[trigger] items[i]) by {
            if i > 0 {
                assert(rest[i - 1] == items[i]);
            }
        }
        if items.len() > 1 {
            let front = items.drop_last();
            assert(front[0] == items[0]);
            assert(front.skip(1) =~= rest.drop_last());
        } else {
            assert(items.drop_last() =~= Seq::<Expr>::empty());
        }
    }
}

/// Makes known what the literals of the printer hold.
proof fn lemma_printer_literals()
    ensures
        "if ("@ == seq!['i', 'f', ' ', '('],
        ") "@ == seq![')', ' '],
        " else "@ == seq![' ', 'e', 'l', 's', 'e', ' '],
        "let "@ == seq!['l', 'e', 't', ' '],
        "rand()"@ == seq!['r', 'a', 'n', 'd', '(', ')'],
        "sin("@ == seq!['s', 'i', 'n', '('],
        "cos("@ == seq!['c', 'o', 's', '('],
        "sqrt("@ == seq!['s', 'q', 'r', 't', '('],
        "log("@ == seq!['l', 'o', 'g', '('],
        "round("@ == seq!['r', 'o', 'u', 'n', 'd', '('],
        "floor("@ == seq!['f', 'l', 'o', 'o', 'r', '('],
        " + "@ == seq![' ', '+', ' '],
        " - "@ == seq![' ', '-', ' '],
        " / "@ == seq![' ', '/', ' '],
        " * "@ == seq![' ', '*', ' '],
        " % "@ == seq![' ', '%', ' '],
        " == "@ == seq![' ', '=', '=', ' '],
        " != "@ == seq![' ', '!', '=', ' '],
        " < "@ == seq![' ', '<', ' '],
        " <= "@ == seq![' ', '<', '=', ' '],
        " > "@ == seq![' ', '>', ' '],
        " >= "@ == seq![' ', '>', '=', ' '],
{
    reveal_strlit("if (");
    reveal_strlit(") ");
    reveal_strlit(" else ");
    reveal_strlit("let ");
    reveal_strlit("rand()");
    reveal_strlit("sin(");
    reveal_strlit("cos(");
    reveal_strlit("sqrt(");
    reveal_strlit("log(");
    reveal_strlit("round(");
    reveal_strlit("floor(");
    reveal_strlit(" + ");
    reveal_strlit(" - ");
    reveal_strlit(" / ");
    reveal_strlit(" * ");
    reveal_strlit(" % ");
    reveal_strlit(" == ");
    reveal_strlit(" != ");
    reveal_strlit(" < ");
    reveal_strlit(" <= ");
    reveal_strlit(" > ");
    reveal_strlit(" >= ");
    assert("if ("@ =~= seq!['i', 'f', ' ', '(']);
    assert(") "@ =~= seq![')', ' ']);
    assert(" else "@ =~= seq![' ', 'e', 'l', 's', 'e', ' ']);
    assert("let "@ =~= seq!['l', 'e', 't', ' ']);
    assert("rand()"@ =~= seq!['r', 'a', 'n', 'd', '(', ')']);
    assert("sin("@ =~= seq!['s', 'i', 'n', '(']);
    assert("cos("@ =~= seq!['c', 'o', 's', '(']);
    assert("sqrt("@ =~= seq!['s', 'q', 'r', 't', '(']);
    assert("log("@ =~= seq!['l', 'o', 'g', '(']);
    assert("round("@ =~= seq!['r', 'o', 'u', 'n', 'd', '(']);
    assert("floor("@ =~= seq!['f', 'l', 'o', 'o', 'r', '(']);
    assert(" + "@ =~= seq![' ', '+', ' ']);
    assert(" - "@ =~= seq![' ', '-', ' ']);
    assert(" / "@ =~= seq![' ', '/', ' ']);
    assert(" * "@ =~= seq![' ', '*', ' ']);
    assert(" % "@ =~= seq![' ', '%', ' ']);
    assert(" == "@ =~= seq![' ', '=', '=', ' ']);
    assert(" != "@ =~= seq![' ', '!', '=', ' ']);
    assert(" < "@ =~= seq![' ', '<', ' ']);
    assert(" <= "@ =~= seq![' ', '<', '=', ' ']);
    assert(" > "@ =~= seq![' ', '>', ' ']);
    assert(" >= "@ =~= seq![' ', '>', '=', ' ']);
}

/// The spelling of a token and what follows it.
proof fn lemma_spaced_cons(tok: Tok, x: Seq<Tok>)
    requires
        x.len() > 0,
    ensures
        spaced(seq![tok] + x) == spelling(tok) + gap(tok, x[0]) + spaced(x),
{
    lemma_spaced_split(seq![tok], x);
}

/// The spelling of a sequence and the token that follows it.
proof fn lemma_spaced_snoc(x: Seq<Tok>, tok: Tok)
    requires
        x.len() > 0,
    ensures
        spaced(x + seq![tok]) == spaced(x) + gap(x.last(), tok) + spelling(tok),
{
    lemma_spaced_split(x, seq![tok]);
}

/// The statements of a block are printed as they are spelled, each with its semicolon and
/// a space.
proof fn lemma_render_statements(items: Seq<Expr>, indent: usize)
    requires
        ascii_classes(),
        all_plain(items),
        items.len() > 0,
    ensures
        render_statements(items, indent, PrettyFormat::Spaced) == spaced(
            written_list(items, Tok::Semicolon),
        ) + seq![';'] + seq![' '],
    decreases items, 0nat,
{
    let which = PrettyFormat::Spaced;
    let last = items.last();
    let front = items.drop_last();
    lemma_all_plain(items);
    lemma_literals();
    lemma_render(last, None, indent);
    lemma_ends(last, None);
    if items.len() == 1 {
        assert(render_statements(front, indent, which) =~= Seq::<char>::empty());
        assert(render_statements(items, indent, which) =~= spaced(written(last, None)) + seq![
            ';',
        ] + seq![' ']);
    } else {
        let wf = written_list(front, Tok::Semicolon);
        let wl = written(last, None);
        lemma_render_statements(front, indent);
        lemma_written_list_snoc(items, Tok::Semicolon);
        lemma_list_ends(front, Tok::Semicolon);
        lemma_spaced_snoc(wf, Tok::Semicolon);
        lemma_spaced_split(wf + seq![Tok::Semicolon], wl);
        assert((wf + seq![Tok::Semicolon]).last() == Tok::Semicolon);
        assert(render_statements(items, indent, which) =~= spaced(
            written_list(items, Tok::Semicolon),
        ) + seq![';'] + seq![' ']);
    }
}

/// The arguments of a call are printed as they are spelled, each with its comma and a space.
proof fn lemma_render_arguments(items: Seq<Expr>, indent: usize)
    requires
        ascii_classes(),
        all_plain(items),
        items.len() > 0,
    ensures
        render_arguments(items, indent, PrettyFormat::Spaced) == spaced(
            written_list(items, Tok::Comma),
        ) + seq![','] + seq![' '],
    decreases items, 0nat,
{
    let which = PrettyFormat::Spaced;
    let last = items.last();
    let front = items.drop_last();
    lemma_all_plain(items);
    lemma_literals();
    lemma_render(last, None, indent);
    lemma_ends(last, None);
    if items.len() == 1 {
        assert(render_arguments(front, indent, which) =~= Seq::<char>::empty());
        assert(render_arguments(items, indent, which) =~= spaced(written(last, None)) + seq![
            ',',
        ] + seq![' ']);
    } else {
        let wf = written_list(front, Tok::Comma);
        let wl = written(last, None);
        lemma_render_arguments(front, indent);
        lemma_written_list_snoc(items, Tok::Comma);
        lemma_list_ends(front, Tok::Comma);
        lemma_spaced_snoc(wf, Tok::Comma);
        lemma_spaced_split(wf + seq![Tok::Comma], wl);
        assert((wf + seq![Tok::Comma]).last() == Tok::Comma);
        assert(render_arguments(items, indent, which) =~= spaced(written_list(items, Tok::Comma))
            + seq![','] + seq![' ']);
    }
}

/// The parameters of a closure are printed as they are spelled, each with its comma and a
/// space.
proof fn lemma_render_params(names: Seq<Seq<char>>)
    requires
        names.len() > 0,
    ensures
        written_names(names).len() > 0,
        written_names(names).last() == Tok::Identifier(names.last()),
        written_names(names)[0] == Tok::Identifier(names[0]),
        render_params(names, PrettyFormat::Spaced) == spaced(written_names(names)) + seq![','] + seq![
            ' ',
        ],
    decreases names.len(),
{
    let which = PrettyFormat::Spaced;
    let last = names.last();
    let front = names.drop_last();
    lemma_literals();
    if names.len() == 1 {
        assert(render_params(front, which) =~= Seq::<char>::empty());
        assert(render_params(names, which) =~= spaced(written_names(names)) + seq![','] + seq![
            ' ',
        ]);
    } else {
        let wf = written_names(front);
        lemma_render_params(front);
        lemma_written_names_snoc(names);
        lemma_spaced_snoc(wf, Tok::Comma);
        lemma_spaced_split(wf + seq![Tok::Comma], seq![Tok::Identifier(last)]);
        assert((wf + seq![Tok::Comma]).last() == Tok::Comma);
        assert(front[0] == names[0]);
        assert(written_names(names)[0] == wf[0]);
        assert(render_params(names, which) =~= spaced(written_names(names)) + seq![','] + seq![
            ' ',
        ]);
    }
}

/// On one line with single spaces, a plain expression is printed as its tokens are
/// spelled.
pub proof fn lemma_render(e: Expr, parent: Place, indent: usize)
    requires
        ascii_classes(),
        plain(e),
    ensures
        render(e, parent, indent, PrettyFormat::Spaced) == spaced(written(e, parent)),
    decreases e,
        (if is_wrapped(e, parent) {
            3nat
        } else {
            2nat
        }),
{
    if is_wrapped(e, parent) {
        lemma_literals();
        lemma_render(e, None, indent);
        lemma_spaced_group(written(e, None));
        assert(written(e, parent) == seq![Tok::OpenParen] + written(e, None) + seq![
            Tok::CloseParen,
        ]);
        assert(render(e, parent, indent, PrettyFormat::Spaced) == seq!['('] + render(
            e,
            None,
            indent,
            PrettyFormat::Spaced,
        ) + seq![')']);
    } else {
    match e {
        Expr::Block(_) => lemma_render_block(e, parent, indent),
        Expr::Literal(x) => {},
        Expr::Local(name) => {},
        Expr::FuncDeclaration(_, _) => lemma_render_closure(e, parent, indent),
        Expr::If(_, _) => lemma_render_if(e, parent, indent),
        Expr::IfElse(_, _, _) => lemma_render_if_else(e, parent, indent),
        Expr::AssignOp(_, _) => lemma_render_assignment(e, parent, indent),
        Expr::BinaryOp(_, _, _) => lemma_render_binary(e, parent, indent),
        Expr::Func0(op) => {
            lemma_literals();
            lemma_printer_literals();
            let w = written(e, parent);
            lemma_spaced_cons(Tok::Rand, seq![Tok::OpenParen, Tok::CloseParen]);
            lemma_spaced_cons(Tok::OpenParen, seq![Tok::CloseParen]);
            assert(seq![Tok::OpenParen] + seq![Tok::CloseParen] =~= seq![
                Tok::OpenParen,
                Tok::CloseParen,
            ]);
            assert(seq![Tok::Rand] + seq![Tok::OpenParen, Tok::CloseParen] =~= w);
            assert(render(e, parent, indent, PrettyFormat::Spaced) =~= spaced(w));
        },
        Expr::Func1(_, _) => lemma_render_func_1(e, parent, indent),
        Expr::FuncLocal(_, _) => lemma_render_call(e, parent, indent),
    }
    }
}

proof fn lemma_render_block(e: Expr, parent: Place, indent: usize)
    requires
        e is Block,
        ascii_classes(),
        plain(e),
    ensures
        render(e, parent, indent, PrettyFormat::Spaced) == spaced(written(e, parent)),
    decreases e, 1nat,
{
    let which = PrettyFormat::Spaced;
    let w = written(e, parent);
    lemma_literals();
    match e {
        Expr::Block(items) => {
            let l = written_list(items, Tok::Semicolon);
            let level = crate::pretty::deeper(indent);
            if items.len() == 0 {
                let blank = newline(which, level) + render_statements(items, level, which);
                assert(blank =~= seq![' ']);
                assert(blank.last() == ' ');
                assert(blank.drop_last() =~= Seq::<char>::empty());
                assert(trim_end(Seq::<char>::empty(), true) =~= Seq::<char>::empty());
                assert(trim_end(blank, true) == trim_end(blank.drop_last(), true));
                lemma_spaced_cons(Tok::OpenCurly, seq![Tok::CloseCurly]);
                assert(seq![Tok::OpenCurly] + seq![Tok::CloseCurly] =~= w);
                assert(render(e, parent, indent, which) =~= spaced(w));
            } else {
                lemma_render_statements(items, level);
                lemma_list_ends(items, Tok::Semicolon);
                lemma_all_plain(items);
                lemma_ends(items[0], None);
                lemma_ends(items.last(), None);
                lemma_list_last_char(items, Tok::Semicolon);
                let body = seq![' '] + spaced(l);
                assert(body.last() == spaced(l).last());
                lemma_trim_separator(body, ';', true);
                assert(newline(which, level) + render_statements(items, level, which) =~= body
                    + seq![';'] + seq![' ']);
                lemma_spaced_cons(Tok::OpenCurly, l);
                lemma_spaced_snoc(seq![Tok::OpenCurly] + l, Tok::CloseCurly);
                assert((seq![Tok::OpenCurly] + l).last() == l.last());
                assert(render(e, parent, indent, which) =~= spaced(w));
            }
        },
        _ => {},
    }
}

/// What spells a plain list does not end with a character that is trimmed.
proof fn lemma_list_last_char(items: Seq<Expr>, sep: Tok)
    requires
        ascii_classes(),
        all_plain(items),
        items.len() > 0,
        sep == Tok::Comma || sep == Tok::Semicolon,
    ensures
        spaced(written_list(items, sep)).len() > 0,
        !droppable(spaced(written_list(items, sep)).last(), true),
        !droppable(spaced(written_list(items, sep)).last(), false),
{
    let w = written_list(items, sep);
    lemma_all_plain(items);
    lemma_list_apart(items, sep);
    lemma_list_ends(items, sep);
    lemma_last_char(items.last(), None);
    let wl = written(items.last(), None);
    lemma_apart(items.last(), None);
    assert forall|i: int| 0 <= i < w.len() implies spelling(#[trigger] w[i]).len() > 0 by {
        crate::lexer::spelling::lemma_spelling_begins(w[i]);
    }
    assert forall|i: int| 0 <= i < wl.len() implies spelling(#[trigger] wl[i]).len() > 0 by {
        crate::lexer::spelling::lemma_spelling_begins(wl[i]);
    }
    lemma_spaced_last(w);
    lemma_spaced_last(wl);
}

proof fn lemma_render_closure(e: Expr, parent: Place, indent: usize)
    requires
        e is FuncDeclaration,
        parent is None,
        ascii_classes(),
        plain(e),
    ensures
        render(e, parent, indent, PrettyFormat::Spaced) == spaced(written(e, parent)),
    decreases e, 1nat,
{
    let which = PrettyFormat::Spaced;
    let w = written(e, parent);
    lemma_literals();
    match e {
        Expr::FuncDeclaration(params, body) => {
            let names = written_names(params);
            let wb = written(*body, None);
            lemma_render(*body, None, indent);
            lemma_ends(*body, None);
            let head = seq![Tok::OpenParen] + names + seq![Tok::CloseParen];
            if params.len() == 0 {
                assert(trim_end(render_params(params, which), false) =~= Seq::<char>::empty());
                lemma_spaced_cons(Tok::OpenParen, seq![Tok::CloseParen]);
                assert(head =~= seq![Tok::OpenParen] + seq![Tok::CloseParen]);
            } else {
                lemma_render_params(params);
                let last = params.last();
                assert(plain_name(last));
                assert(in_class(last[last.len() - 1], CharClass::Word));
                assert(is_punctuation(' '));
                assert(is_punctuation(','));
                lemma_names_apart(params);
                assert forall|i: int| 0 <= i < names.len() implies spelling(
                    #[trigger] names[i],
                ).len() > 0 by {
                    crate::lexer::spelling::lemma_spelling_begins(names[i]);
                }
                lemma_spaced_last(names);
                lemma_trim_separator(spaced(names), ',', false);
                lemma_spaced_cons(Tok::OpenParen, names);
                lemma_spaced_snoc(seq![Tok::OpenParen] + names, Tok::CloseParen);
                assert((seq![Tok::OpenParen] + names).last() == names.last());
            }
            lemma_spaced_snoc(head, Tok::LeftArrow);
            lemma_spaced_split(head + seq![Tok::LeftArrow], wb);
            assert(head.last() == Tok::CloseParen);
            assert((head + seq![Tok::LeftArrow]).last() == Tok::LeftArrow);
            assert(w =~= head + seq![Tok::LeftArrow] + wb);
            assert(render(e, parent, indent, which) =~= spaced(w));
        },
        _ => {},
    }
}

proof fn lemma_render_if(e: Expr, parent: Place, indent: usize)
    requires
        e is If,
        ascii_classes(),
        plain(e),
    ensures
        render(e, parent, indent, PrettyFormat::Spaced) == spaced(written(e, parent)),
    decreases e, 1nat,
{
    let which = PrettyFormat::Spaced;
    let w = written(e, parent);
    lemma_literals();
    lemma_printer_literals();
    match e {
        Expr::If(c, b) => {
            let wc = written(*c, None);
            let wb = written(*b, None);
            lemma_render(*c, None, indent);
            lemma_render(*b, None, indent);
            lemma_ends(*c, None);
            lemma_ends(*b, None);
            let group = seq![Tok::OpenParen] + wc + seq![Tok::CloseParen];
            lemma_spaced_cons(Tok::OpenParen, wc);
            lemma_spaced_snoc(seq![Tok::OpenParen] + wc, Tok::CloseParen);
            assert((seq![Tok::OpenParen] + wc).last() == wc.last());
            lemma_spaced_cons(Tok::If, group);
            lemma_spaced_split(seq![Tok::If] + group, wb);
            assert((seq![Tok::If] + group).last() == Tok::CloseParen);
            assert(group[0] == Tok::OpenParen);
            assert(w =~= seq![Tok::If] + group + wb);
            assert(render(e, parent, indent, which) =~= spaced(w));
        },
        _ => {},
    }
}

proof fn lemma_render_if_else(e: Expr, parent: Place, indent: usize)
    requires
        e is IfElse,
        ascii_classes(),
        plain(e),
    ensures
        render(e, parent, indent, PrettyFormat::Spaced) == spaced(written(e, parent)),
    decreases e, 1nat,
{
    let which = PrettyFormat::Spaced;
    let w = written(e, parent);
    lemma_literals();
    lemma_printer_literals();
    match e {
        Expr::IfElse(c, a, b) => {
            let wc = written(*c, None);
            let wa = written(*a, None);
            let wb = written(*b, None);
            lemma_render(*c, None, indent);
            lemma_render(*a, None, indent);
            lemma_render(*b, None, indent);
            lemma_ends(*c, None);
            lemma_ends(*a, None);
            lemma_ends(*b, None);
            let group = seq![Tok::OpenParen] + wc + seq![Tok::CloseParen];
            lemma_spaced_cons(Tok::OpenParen, wc);
            lemma_spaced_snoc(seq![Tok::OpenParen] + wc, Tok::CloseParen);
            assert((seq![Tok::OpenParen] + wc).last() == wc.last());
            lemma_spaced_cons(Tok::If, group);
            let first = seq![Tok::If] + group + wa;
            lemma_spaced_split(seq![Tok::If] + group, wa);
            assert((seq![Tok::If] + group).last() == Tok::CloseParen);
            assert(group[0] == Tok::OpenParen);
            lemma_spaced_snoc(first, Tok::Else);
            assert(first.last() == wa.last());
            lemma_spaced_split(first + seq![Tok::Else], wb);
            assert((first + seq![Tok::Else]).last() == Tok::Else);
            assert(w =~= first + seq![Tok::Else] + wb);
            assert(render(e, parent, indent, which) =~= spaced(w));
        },
        _ => {},
    }
}

proof fn lemma_render_assignment(e: Expr, parent: Place, indent: usize)
    requires
        e is AssignOp,
        parent is None,
        ascii_classes(),
        plain(e),
    ensures
        render(e, parent, indent, PrettyFormat::Spaced) == spaced(written(e, parent)),
    decreases e, 1nat,
{
    let which = PrettyFormat::Spaced;
    let w = written(e, parent);
    lemma_literals();
    lemma_printer_literals();
    match e {
        Expr::AssignOp(name, v) => {
            let wv = written(*v, None);
            lemma_render(*v, None, indent);
            lemma_ends(*v, None);
            let head = seq![Tok::Let, Tok::Identifier(name), Tok::Equals];
            lemma_spaced_cons(Tok::Let, seq![Tok::Identifier(name), Tok::Equals]);
            lemma_spaced_cons(Tok::Identifier(name), seq![Tok::Equals]);
            assert(seq![Tok::Identifier(name)] + seq![Tok::Equals] =~= seq![
                Tok::Identifier(name),
                Tok::Equals,
            ]);
            assert(seq![Tok::Let] + seq![Tok::Identifier(name), Tok::Equals] =~= head);
            lemma_spaced_split(head, wv);
            assert(head.last() == Tok::Equals);
            assert(render(e, parent, indent, which) =~= spaced(w));
        },
        _ => {},
    }
}

proof fn lemma_render_binary(e: Expr, parent: Place, indent: usize)
    requires
        e is BinaryOp,
        ascii_classes(),
        plain(e),
    ensures
        render(e, parent, indent, PrettyFormat::Spaced) == spaced(written(e, parent)),
    decreases e, 1nat,
{
    let which = PrettyFormat::Spaced;
    let w = written(e, parent);
    lemma_literals();
    lemma_printer_literals();
    match e {
        Expr::BinaryOp(l, op, r) => {
            let wl = written(*l, Some((op, false)));
            let wr = written(*r, Some((op, true)));
            let tok = operator_token(op);
            let inner = wl + seq![tok] + wr;
            lemma_render(*l, Some((op, false)), indent);
            lemma_render(*r, Some((op, true)), indent);
            lemma_ends(*l, Some((op, false)));
            lemma_ends(*r, Some((op, true)));
            lemma_spaced_snoc(wl, tok);
            lemma_spaced_split(wl + seq![tok], wr);
            assert((wl + seq![tok]).last() == tok);
            assert(operator_text(op, which) =~= gap(wl.last(), tok) + spelling(tok) + gap(
                tok,
                wr[0],
            ));
            assert(spaced(inner) =~= spaced(wl) + operator_text(op, which) + spaced(wr));
            if needs_parens(op, parent) {
                lemma_spaced_cons(Tok::OpenParen, inner);
                lemma_spaced_snoc(seq![Tok::OpenParen] + inner, Tok::CloseParen);
                assert((seq![Tok::OpenParen] + inner).last() == wr.last());
                assert(inner[0] == wl[0]);
                assert(render(e, parent, indent, which) =~= spaced(w));
            }
        },
        _ => {},
    }
}

#[verifier::rlimit(60)]
proof fn lemma_render_func_1(e: Expr, parent: Place, indent: usize)
    requires
        e is Func1,
        ascii_classes(),
        plain(e),
    ensures
        render(e, parent, indent, PrettyFormat::Spaced) == spaced(written(e, parent)),
    decreases e, 1nat,
{
    let which = PrettyFormat::Spaced;
    let w = written(e, parent);
    lemma_literals();
    lemma_printer_literals();
    match e {
        Expr::Func1(op, v) => {
            let wv = written(*v, None);
            let tok = function_token(op);
            lemma_render(*v, None, indent);
            lemma_ends(*v, None);
            let group = seq![Tok::OpenParen] + wv + seq![Tok::CloseParen];
            lemma_spaced_cons(Tok::OpenParen, wv);
            lemma_spaced_snoc(seq![Tok::OpenParen] + wv, Tok::CloseParen);
            assert((seq![Tok::OpenParen] + wv).last() == wv.last());
            lemma_spaced_cons(tok, group);
            assert(group[0] == Tok::OpenParen);
            assert(function_text(op) =~= spelling(tok) + seq!['(']);
            assert(w =~= seq![tok] + group);
            assert(render(e, parent, indent, which) =~= spaced(w));
        },
        _ => {},
    }
}

/// What is written in parentheses is spelled in parentheses, without spaces inside.
proof fn lemma_spaced_group(inner: Seq<Tok>)
    ensures
        spaced(seq![Tok::OpenParen] + inner + seq![Tok::CloseParen]) == seq!['('] + spaced(inner)
            + seq![')'],
        (seq![Tok::OpenParen] + inner + seq![Tok::CloseParen])[0] == Tok::OpenParen,
        (seq![Tok::OpenParen] + inner + seq![Tok::CloseParen]).last() == Tok::CloseParen,
{
    lemma_literals();
    let group = seq![Tok::OpenParen] + inner + seq![Tok::CloseParen];
    if inner.len() == 0 {
        lemma_spaced_cons(Tok::OpenParen, seq![Tok::CloseParen]);
        assert(group =~= seq![Tok::OpenParen] + seq![Tok::CloseParen]);
        assert(spaced(group) =~= seq!['('] + spaced(inner) + seq![')']);
    } else {
        lemma_spaced_cons(Tok::OpenParen, inner);
        lemma_spaced_snoc(seq![Tok::OpenParen] + inner, Tok::CloseParen);
        assert((seq![Tok::OpenParen] + inner).last() == inner.last());
        assert(spaced(group) =~= seq!['('] + spaced(inner) + seq![')']);
    }
}

/// The arguments of a call are printed between the parentheses as they are spelled.
proof fn lemma_render_call_list(args: Seq<Expr>, indent: usize)
    requires
        ascii_classes(),
        all_plain(args),
    ensures
        trim_end(render_arguments(args, indent, PrettyFormat::Spaced), false) == spaced(
            written_list(args, Tok::Comma),
        ),
    decreases args, 1nat,
{
    let which = PrettyFormat::Spaced;
    let l = written_list(args, Tok::Comma);
    if args.len() == 0 {
        assert(render_arguments(args, indent, which) =~= Seq::<char>::empty());
        assert(trim_end(Seq::<char>::empty(), false) =~= Seq::<char>::empty());
    } else {
        lemma_render_arguments(args, indent);
        lemma_list_last_char(args, Tok::Comma);
        lemma_trim_separator(spaced(l), ',', false);
    }
}

proof fn lemma_render_call(e: Expr, parent: Place, indent: usize)
    requires
        e is FuncLocal,
        ascii_classes(),
        plain(e),
    ensures
        render(e, parent, indent, PrettyFormat::Spaced) == spaced(written(e, parent)),
    decreases e, 1nat,
{
    let which = PrettyFormat::Spaced;
    let w = written(e, parent);
    match e {
        Expr::FuncLocal(name, args) => {
            let l = written_list(args, Tok::Comma);
            let id = Tok::Identifier(name);
            let group = seq![Tok::OpenParen] + l + seq![Tok::CloseParen];
            lemma_render_call_list(args, indent);
            lemma_spaced_group(l);
            lemma_spaced_cons(id, group);
            assert(w =~= seq![id] + group);
            assert(render(e, parent, indent, which) =~= name + (seq!['('] + spaced(l) + seq![')']));
        },
        _ => {},
    }
}

/// Tokens of which every name is plain and every numeral a numeral.
pub open spec fn readable(tokens: Seq<Tok>) -> bool {
    forall|i: int|
        0 <= i < tokens.len() ==> match #[trigger] tokens[i] {
            Tok::Identifier(n) => plain_name(n),
            Tok::LiteralNum(x) => is_numeral(x),
            _ => true,
        }
}

/// A tree that is plain and legible.
pub open spec fn good(e: Expr) -> bool {
    plain(e) && legible(e)
}

/// A list of trees that are plain and legible.
pub open spec fn all_good(items: Seq<Expr>) -> bool {
    all_plain(items) && all_legible(items)
}

/// One more good tree before good trees.
proof fn lemma_good_cons(x: Expr, rest: Seq<Expr>)
    requires
        good(x),
        all_good(rest),
    ensures
        all_good(seq![x] + rest),
{
    let items = seq![x] + rest;
    assert(items[0] == x);
    assert(items.skip(1) =~= rest);
}

/// The numerals of the constants are numerals.
proof fn lemma_constants()
    ensures
        is_numeral("3.141592653589793"@),
        is_numeral("2.718281828459045"@),
{
    reveal_strlit("3.141592653589793");
    reveal_strlit("2.718281828459045");
    let p = crate::number::numeral_body("3.141592653589793"@);
    let e = crate::number::numeral_body("2.718281828459045"@);
    assert(p =~= "3.141592653589793"@);
    assert(e =~= "2.718281828459045"@);
    assert(crate::text::is_digit(p[0]));
    assert(crate::text::is_digit(e[0]));
}

/// The parameters that are read from readable tokens are plain names.
proof fn lemma_params_good(tokens: Seq<Tok>, pos: nat)
    requires
        readable(tokens),
    ensures
        plain_names(parse_params(tokens, pos).0),
    decreases tokens.len() - pos,
{
    match peek(tokens, pos) {
        Some(Tok::Identifier(name)) => {
            assert(plain_name(name)) by {
                assert(tokens[pos as int] == Tok::Identifier(name));
            }
            if at(tokens, pos + 1, Tok::Comma) {
                lemma_params_good(tokens, pos + 2);
                let rest = parse_params(tokens, pos + 2).0;
                let all = seq![name] + rest;
                assert forall|i: int| 0 <= i < all.len() implies plain_name(#[trigger] all[i]) by {
                    if i > 0 {
                        assert(all[i] == rest[i - 1]);
                    }
                }
            }
        },
        _ => {},
    }
}

/// What is read as an expression from readable tokens is plain and legible.
pub proof fn lemma_expression_good(tokens: Seq<Tok>, pos: nat)
    requires
        readable(tokens),
        pos <= tokens.len(),
    ensures
        parse_expression(tokens, pos).0 matches Some(e) ==> good(e),
    decreases tokens.len() - pos, 5nat,
{
    lemma_primary_good(tokens, pos);
    lemma_primary_progress(tokens, pos);
    let (e, d) = parse_primary(tokens, pos);
    if e is Some && peek_binary_op(tokens, pos + d) is Some {
        lemma_binary_op_good(tokens, pos + d, e->0, 0);
    }
}

proof fn lemma_primary_good(tokens: Seq<Tok>, pos: nat)
    requires
        readable(tokens),
        pos <= tokens.len(),
    ensures
        parse_primary(tokens, pos).0 matches Some(e) ==> good(e),
    decreases tokens.len() - pos, 2nat,
{
    lemma_constants();
    match peek(tokens, pos) {
        Some(Tok::OpenCurly) => lemma_block_good(tokens, pos),
        Some(Tok::OpenParen) => lemma_parens_good(tokens, pos),
        Some(Tok::Let) => lemma_assignment_good(tokens, pos),
        Some(Tok::If) => lemma_if_good(tokens, pos),
        Some(Tok::Identifier(name)) => lemma_var_good(tokens, pos),
        Some(Tok::LiteralNum(x)) => {
            assert(tokens[pos as int] == Tok::LiteralNum(x));
        },
        Some(tok) => {
            if func1_of(tok) is Some {
                lemma_func_1_good(tokens, pos);
            }
        },
        None => {},
    }
}

proof fn lemma_func_1_good(tokens: Seq<Tok>, pos: nat)
    requires
        readable(tokens),
        pos <= tokens.len(),
    ensures
        parse_func_1(tokens, pos).0 matches Some(e) ==> good(e),
    decreases tokens.len() - pos, 0nat,
{
    if pos < tokens.len() && func1_of(tokens[pos as int]) is Some && at(
        tokens,
        pos + 1,
        Tok::OpenParen,
    ) {
        lemma_expression_good(tokens, pos + 2);
    }
}

proof fn lemma_var_good(tokens: Seq<Tok>, pos: nat)
    requires
        readable(tokens),
        pos <= tokens.len(),
    ensures
        parse_var(tokens, pos).0 matches Some(e) ==> good(e),
    decreases tokens.len() - pos, 0nat,
{
    match peek(tokens, pos) {
        Some(Tok::Identifier(name)) => {
            assert(tokens[pos as int] == Tok::Identifier(name));
            if at(tokens, pos + 1, Tok::OpenParen) {
                lemma_list_good(tokens, pos + 2, Tok::Comma);
            }
        },
        _ => {},
    }
}

proof fn lemma_list_good(tokens: Seq<Tok>, pos: nat, sep: Tok)
    requires
        readable(tokens),
        pos <= tokens.len(),
    ensures
        all_good(parse_list(tokens, pos, sep).0),
    decreases tokens.len() - pos, 6nat,
{
    lemma_expression_good(tokens, pos);
    lemma_expression_progress(tokens, pos);
    let (e, d) = parse_expression(tokens, pos);
    if e is Some {
        if at(tokens, pos + d, sep) {
            lemma_list_good(tokens, pos + d + 1, sep);
            lemma_good_cons(e->0, parse_list(tokens, pos + d + 1, sep).0);
        } else {
            lemma_good_cons(e->0, Seq::empty());
            assert(seq![e->0] + Seq::<Expr>::empty() =~= seq![e->0]);
        }
    }
}

proof fn lemma_parens_good(tokens: Seq<Tok>, pos: nat)
    requires
        readable(tokens),
        pos <= tokens.len(),
    ensures
        parse_parens(tokens, pos).0 matches Some(e) ==> good(e),
    decreases tokens.len() - pos, 1nat,
{
    lemma_func_expression_good(tokens, pos);
    if parse_func_expression(tokens, pos).0 is None && at(tokens, pos, Tok::OpenParen) {
        lemma_expression_good(tokens, pos + 1);
    }
}

proof fn lemma_block_good(tokens: Seq<Tok>, pos: nat)
    requires
        readable(tokens),
        pos <= tokens.len(),
    ensures
        parse_block(tokens, pos).0 matches Some(e) ==> good(e) && e is Block,
    decreases tokens.len() - pos, 0nat,
{
    if at(tokens, pos, Tok::OpenCurly) && !at(tokens, pos + 1, Tok::CloseCurly) {
        lemma_expression_good(tokens, pos + 1);
        lemma_expression_progress(tokens, pos + 1);
        let (e, d) = parse_expression(tokens, pos + 1);
        if e is Some {
            let more = if at(tokens, pos + 1 + d, Tok::Semicolon) {
                parse_list(tokens, pos + 2 + d, Tok::Semicolon).0
            } else {
                Seq::empty()
            };
            if at(tokens, pos + 1 + d, Tok::Semicolon) {
                lemma_list_good(tokens, pos + 2 + d, Tok::Semicolon);
            }
            lemma_good_cons(e->0, more);
            let block = Expr::Block(seq![e->0] + more);
            assert(plain(block) == all_plain(seq![e->0] + more));
            assert(legible(block) == all_legible(seq![e->0] + more));
        }
    } else if at(tokens, pos, Tok::OpenCurly) {
        let block = Expr::Block(Seq::empty());
        assert(plain(block) == all_plain(Seq::<Expr>::empty()));
        assert(legible(block) == all_legible(Seq::<Expr>::empty()));
    }
}

proof fn lemma_func_expression_good(tokens: Seq<Tok>, pos: nat)
    requires
        readable(tokens),
        pos <= tokens.len(),
    ensures
        parse_func_expression(tokens, pos).0 matches Some(e) ==> good(e),
    decreases tokens.len() - pos, 0nat,
{
    if at(tokens, pos, Tok::OpenParen) {
        lemma_params_good(tokens, pos + 1);
        lemma_params_progress(tokens, pos + 1);
        let (params, d) = parse_params(tokens, pos + 1);
        if at(tokens, pos + 1 + d, Tok::CloseParen) && at(tokens, pos + 2 + d, Tok::LeftArrow) {
            lemma_expression_good(tokens, pos + 3 + d);
        }
    }
}

proof fn lemma_assignment_good(tokens: Seq<Tok>, pos: nat)
    requires
        readable(tokens),
        pos <= tokens.len(),
    ensures
        parse_assignment(tokens, pos).0 matches Some(e) ==> good(e),
    decreases tokens.len() - pos, 0nat,
{
    if at(tokens, pos, Tok::Let) {
        match peek(tokens, pos + 1) {
            Some(Tok::Identifier(name)) => {
                assert(tokens[(pos + 1) as int] == Tok::Identifier(name));
                if at(tokens, pos + 2, Tok::Equals) {
                    lemma_expression_good(tokens, pos + 3);
                }
            },
            _ => {},
        }
    }
}

proof fn lemma_if_good(tokens: Seq<Tok>, pos: nat)
    requires
        readable(tokens),
        pos <= tokens.len(),
    ensures
        parse_if(tokens, pos).0 matches Some(e) ==> good(e),
    decreases tokens.len() - pos, 0nat,
{
    if at(tokens, pos, Tok::If) && at(tokens, pos + 1, Tok::OpenParen) {
        lemma_expression_good(tokens, pos + 2);
        let (c, d) = parse_expression(tokens, pos + 2);
        if c is Some && at(tokens, pos + 2 + d, Tok::CloseParen) {
            lemma_block_good(tokens, pos + 3 + d);
            let (b, d2) = parse_block(tokens, pos + 3 + d);
            if b is Some && at(tokens, pos + 3 + d + d2, Tok::Else) {
                lemma_block_good(tokens, pos + 4 + d + d2);
            }
        }
    }
}

proof fn lemma_binary_op_good(tokens: Seq<Tok>, pos: nat, lhs: Expr, min: nat)
    requires
        readable(tokens),
        pos <= tokens.len(),
        good(lhs),
    ensures
        parse_binary_op(tokens, pos, lhs, min).0 matches Some(e) ==> good(e),
    decreases tokens.len() - pos, 3nat,
{
    match peek_op_from(tokens, pos, min) {
        Some(op) => match operator_width(tokens, pos, lhs) {
            Some(w) => {
                lemma_primary_good(tokens, pos + w);
                lemma_primary_progress(tokens, pos + w);
                let (operand, d) = parse_primary(tokens, pos + w);
                if operand is Some && advanced(tokens, pos, w + d) {
                    lemma_tighter_good(tokens, pos + w + d, operand->0, op);
                    let (climbed, d2) = parse_tighter(tokens, pos + w + d, operand->0, op);
                    if climbed is Some && advanced(tokens, pos, w + d + d2) {
                        lemma_binary_op_good(
                            tokens,
                            pos + w + d + d2,
                            Expr::BinaryOp(Box::new(lhs), op, Box::new(climbed->0)),
                            min,
                        );
                    }
                }
            },
            None => {},
        },
        None => {},
    }
}

proof fn lemma_tighter_good(tokens: Seq<Tok>, pos: nat, rhs: Expr, op: BinaryOp)
    requires
        readable(tokens),
        pos <= tokens.len(),
        good(rhs),
    ensures
        parse_tighter(tokens, pos, rhs, op).0 matches Some(e) ==> good(e),
    decreases tokens.len() - pos, 4nat,
{
    if peek_op_from(tokens, pos, op.spec_precedence() + 1) is Some {
        lemma_binary_op_good(tokens, pos, rhs, op.spec_precedence() + 1);
        let (r, d) = parse_binary_op(tokens, pos, rhs, op.spec_precedence() + 1);
        if r is Some && advanced(tokens, pos, d) {
            lemma_tighter_good(tokens, pos + d, r->0, op);
        }
    }
}

/// Tokens that were all scanned are collected as they are.
proof fn lemma_collect_ok(ts: Seq<Tok>)
    ensures
        collect(scanned_ok(ts)) == Ok::<Seq<Tok>, Seq<char>>(ts),
    decreases ts.len(),
{
    let items = scanned_ok(ts);
    if ts.len() > 0 {
        lemma_collect_ok(ts.skip(1));
        assert(items.skip(1) =~= scanned_ok(ts.skip(1)));
        assert(seq![ts[0]] + ts.skip(1) =~= ts);
    } else {
        assert(ts =~= Seq::<Tok>::empty());
    }
}

/// The round trip of a tree. If the character tables are as `ascii_classes` says, then what
/// is printed for a plain and legible tree, on one line with single spaces, is scanned back
/// as the tokens that write the tree and read back as the tree: it compiles to the bytecode
/// of the tree, and printing it again changes nothing.
pub proof fn lemma_round_trip(e: Expr)
    requires
        ascii_classes(),
        plain(e),
        legible(e),
    ensures
        tokens_of(render(e, None, 0, PrettyFormat::Spaced)) == Ok::<Seq<Tok>, Seq<char>>(
            written(e, None),
        ),
        bytecode_of(render(e, None, 0, PrettyFormat::Spaced)) == Ok::<Seq<Instr>, Seq<char>>(
            bytecode(e),
        ),
        formatted(render(e, None, 0, PrettyFormat::Spaced)) == Ok::<Seq<char>, Seq<char>>(
            render(e, None, 0, PrettyFormat::Spaced),
        ),
{
    let w = written(e, None);
    let none = Seq::<Tok>::empty();
    lemma_render(e, None, 0);
    lemma_written_scannable(e);
    lemma_scan_spaced(w, false, none);
    lemma_owes_nothing(none, e, None);
    lemma_collect_ok(w);
    assert(scanned_ok(w) + crate::lexer::closers(none) =~= scanned_ok(w));
    lemma_read_back(e);
}

/// What was collected from a scan is what the scan yielded, token by token.
proof fn lemma_collected(items: Seq<Result<Tok, Seq<char>>>, ts: Seq<Tok>)
    requires
        collect(items) == Ok::<Seq<Tok>, Seq<char>>(ts),
    ensures
        items.len() == ts.len(),
        forall|i: int| 0 <= i < ts.len() ==> items[i] == Ok::<Tok, Seq<char>>(#[trigger] ts[i]),
    decreases items.len(),
{
    if items.len() > 0 {
        match items[0] {
            Ok(tok) => {
                let rest = collect(items.skip(1))->Ok_0;
                lemma_collected(items.skip(1), rest);
                assert(ts == seq![tok] + rest);
                assert forall|i: int| 0 <= i < ts.len() implies items[i] == Ok::<Tok, Seq<char>>(
                    #[trigger] ts[i],
                ) by {
                    if i > 0 {
                        assert(items.skip(1)[i - 1] == items[i]);
                        assert(ts[i] == rest[i - 1]);
                    }
                }
            },
            Err(msg) => {},
        }
    }
}

/// Every name among the tokens begins as names are written: with a character of a name that
/// is no digit. A name that begins with a digit is scanned only behind a numeral, as in
/// `1 2`; printed anew it is a numeral.
pub open spec fn names_begin_plainly(tokens: Seq<Tok>) -> bool {
    forall|i: int|
        0 <= i < tokens.len() ==> ((#[trigger] tokens[i]) matches Tok::Identifier(n)
            ==> begins_plainly(n))
}

/// The round trip of a text. If the character tables are as `ascii_classes` says, and no
/// name in a text begins with a digit, then the text printed anew compiles to the same
/// bytecode as the text, and printing it once more changes nothing.
pub proof fn lemma_format_round_trip(input: Seq<char>)
    requires
        ascii_classes(),
        formatted(input) is Ok,
        tokens_of(input) matches Ok(tokens) && names_begin_plainly(tokens),
    ensures
        formatted(input) matches Ok(text) && bytecode_of(text) == bytecode_of(input) && formatted(
            text,
        ) == formatted(input),
{
    let items = crate::lexer::scan(input, false, Seq::empty());
    let tokens = tokens_of(input)->Ok_0;
    lemma_scan_sound(input, false, Seq::empty());
    lemma_collected(items, tokens);
    assert forall|i: int| 0 <= i < tokens.len() implies match #[trigger] tokens[i] {
        Tok::Identifier(n) => plain_name(n),
        Tok::LiteralNum(x) => is_numeral(x),
        _ => true,
    } by {
        assert(items[i] == Ok::<Tok, Seq<char>>(tokens[i]));
        assert(sound(tokens[i]));
    }
    lemma_expression_good(tokens, 0);
    let e = parse_program(tokens)->Ok_0;
    lemma_round_trip(e);
}

/// Whether a name begins as names are written.
fn name_begins_plainly(name: &str) -> (r: bool)
    ensures
        r == begins_plainly(name@),
{
    if name.is_empty() {
        return false;
    }
    let c = name.get_char(0);
    (c.is_alphanumeric() || c == '_') && !crate::text::ascii_digit(c)
}

/// Whether every name among the tokens begins as names are written.
fn names_are_plain(tokens: &Vec<Token>) -> (r: bool)
    ensures
        r == names_begin_plainly(tokens_view(tokens@)),
{
    let mut i: usize = 0;
    while i < tokens.len()
        invariant
            i <= tokens.len(),
            forall|k: int|
                0 <= k < i ==> ((#[trigger] tokens_view(tokens@)[k]) matches Tok::Identifier(n)
                    ==> begins_plainly(n)),
        decreases tokens.len() - i,
    {
        match &tokens[i] {
            Token::Identifier(name) => {
                if !name_begins_plainly(name.as_str()) {
                    assert(tokens_view(tokens@)[i as int] == Tok::Identifier(name@));
                    return false;
                }
            },
            _ => {},
        }
        i += 1;
    }
    true
}

/// Prints a text anew, on one line with single spaces, where the result is sure to stand
/// for the text: it compiles to the same bytecode, and printing it again changes nothing.
/// The result is `None` where the text cannot be printed, where one of its names begins
/// with a digit, or where the character tables are not as `ascii_classes` says.
pub fn format_checked(input: &str) -> (r: Option<String>)
    ensures
        r is Some <==> ascii_classes() && formatted(input@) is Ok && names_begin_plainly(
            tokens_of(input@)->Ok_0,
        ),
        r matches Some(text) ==> formatted(input@) == Ok::<Seq<char>, Seq<char>>(text@)
            && bytecode_of(text@) == bytecode_of(input@) && formatted(text@) == Ok::<
            Seq<char>,
            Seq<char>,
        >(text@),
{
    if !ascii_tables_agree() {
        return None;
    }
    let tokens = match crate::tokenize(input) {
        Ok(tokens) => tokens,
        Err(_) => {
            return None;
        },
    };
    if !names_are_plain(&tokens) {
        return None;
    }
    let mut compiler = crate::compiler::Compiler::new(tokens.as_slice());
    match compiler.compile_expression_tree() {
        Ok(expression_tree) => {
            proof {
                lemma_format_round_trip(input@);
            }
            Some(crate::pretty::pretty_print(expression_tree, PrettyFormat::Spaced))
        },
        Err(_) => None,
    }
}

} // verus!
