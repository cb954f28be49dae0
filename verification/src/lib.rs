//! A calculator language: source text is scanned into tokens, read into an expression
//! tree, lowered to bytecode, and executed step by step on a stack machine.
//!
//! - `parser`: a cursor over text and the matchers that advance it.
//! - `lexer`: from text to tokens.
//! - `compiler`: from tokens to an expression tree, and from the tree to bytecode.
//! - `pretty`: from the tree back to text.
//! - `vm`: the bytecode and the machine.
//! - `number`: numerals and doubles.
//! - `roundtrip`: what is printed for a tree is read back as the tree.
//!
//! The machine does no arithmetic on doubles itself: it asks its host, by bit pattern.

use vstd::prelude::*;
use vstd::string::StringExecFns;
use crate::compiler::Compiler;
use crate::compiler::grammar::parse_program;
use crate::compiler::translate;
use crate::compiler::compiled;
use crate::lexer::Tok;
use crate::lexer::Token;
use crate::lexer::scan;
use crate::lexer::items_view;
use crate::lexer::tokens_view;
use crate::pretty::PrettyFormat;
use crate::pretty::render;
use crate::vm::Instr;
use crate::vm::Instruction;

pub mod compiler;
pub mod lexer;
pub mod number;
pub mod parser;
pub mod pretty;
pub mod roundtrip;
pub mod text;
pub mod vm;

verus! {

/// The tokens of a scan, or its first error.
pub open spec fn collect(items: Seq<Result<Tok, Seq<char>>>) -> Result<Seq<Tok>, Seq<char>>
    decreases items.len(),
{
    if items.len() == 0 {
        Ok(Seq::empty())
    } else {
        match items[0] {
            Err(msg) => Err(msg),
            Ok(tok) => match collect(items.skip(1)) {
                Ok(rest) => Ok(seq![tok] + rest),
                Err(msg) => Err(msg),
            },
        }
    }
}

/// The tokens of a text, or the message that says what could not be read.
pub open spec fn tokens_of(input: Seq<char>) -> Result<Seq<Tok>, Seq<char>> {
    match collect(scan(input, false, Seq::empty())) {
        Ok(tokens) => Ok(tokens),
        Err(msg) => Err("ERROR: could not interpret input tokens: "@ + msg),
    }
}

/// The bytecode of a text, or the message that says why there is none.
pub open spec fn bytecode_of(input: Seq<char>) -> Result<Seq<Instr>, Seq<char>> {
    match tokens_of(input) {
        Ok(tokens) => match translate(tokens) {
            Ok(code) => Ok(code),
            Err(msg) => Err("ERROR: could not compile program: "@ + msg),
        },
        Err(msg) => Err(msg),
    }
}

/// A text printed anew on one line with single spaces, or the message that says why it
/// cannot be.
pub open spec fn formatted(input: Seq<char>) -> Result<Seq<char>, Seq<char>> {
    match tokens_of(input) {
        Ok(tokens) => match parse_program(tokens) {
            Ok(e) => Ok(render(e, None, 0, PrettyFormat::Spaced)),
            Err(msg) => Err(msg),
        },
        Err(msg) => Err(msg),
    }
}

/// The value of a token list or a message.
pub open spec fn tokenized(r: Result<Vec<Token>, String>) -> Result<Seq<Tok>, Seq<char>> {
    match r {
        Ok(tokens) => Ok(tokens_view(tokens@)),
        Err(msg) => Err(msg@),
    }
}

/// The value of a text or a message.
pub open spec fn text_or_message(r: Result<String, String>) -> Result<Seq<char>, Seq<char>> {
    match r {
        Ok(text) => Ok(text@),
        Err(msg) => Err(msg@),
    }
}

/// Scans a text into tokens.
pub fn tokenize(input: &str) -> (r: Result<Vec<Token>, String>)
    ensures
        tokenized(r) == tokens_of(input@),
{
    let source = parser::Bite::new(input).chomp(parser::Chomp::whitespace());
    proof {
        lexer::lemma_scan_skips_blanks(input@, false, Seq::empty());
    }
    let mut items = lexer::tokenize(source);
    let ghost all = items_view(items@);
    let mut tokens: Vec<Token> = Vec::new();
    let mut i: usize = 0;
    let n = items.len();
    assert(all.skip(0) =~= all);
    assert(tokens_view(tokens@) =~= Seq::<Tok>::empty());
    while i < n
        invariant
            n == items.len(),
            i <= n,
            all == items_view(items@),
            all == scan(input@, false, Seq::empty()),
            collect(all) == match collect(all.skip(i as int)) {
                Ok(rest) => Ok(tokens_view(tokens@) + rest),
                Err(msg) => Err(msg),
            },
        decreases n - i,
    {
        let ghost done = tokens_view(tokens@);
        assert(all.skip(i as int).skip(1) =~= all.skip(i + 1));
        assert(all.skip(i as int)[0] == all[i as int]);
        match &items[i] {
            Ok(token) => {
                tokens.push(token.clone());
                assert(tokens_view(tokens@) =~= done + seq![token@]);
                assert forall|rest: Seq<Tok>| done + (seq![token@] + rest) == tokens_view(tokens@)
                    + rest by {
                    assert(done + (seq![token@] + rest) =~= tokens_view(tokens@) + rest);
                }
            },
            Err(err) => {
                let mut msg = String::from_str("ERROR: could not interpret input tokens: ");
                msg.append(err.as_str());
                return Err(msg);
            },
        }
        i += 1;
    }
    assert(tokens_view(tokens@) + Seq::<Tok>::empty() =~= tokens_view(tokens@));
    Ok(tokens)
}

/// Compiles a text to bytecode.
pub fn compile(input: &str) -> (r: Result<Vec<Instruction>, String>)
    ensures
        compiled(r) == bytecode_of(input@),
{
    let tokens = match tokenize(input) {
        Ok(tokens) => tokens,
        Err(msg) => {
            return Err(msg);
        },
    };
    let mut compiler = Compiler::new(tokens.as_slice());
    match compiler.compile() {
        Ok(program) => Ok(program),
        Err(err) => {
            let mut msg = String::from_str("ERROR: could not compile program: ");
            msg.append(err.as_str());
            Err(msg)
        },
    }
}

/// Prints a text anew, on one line with single spaces.
pub fn format(input: &str) -> (r: Result<String, String>)
    ensures
        text_or_message(r) == formatted(input@),
{
    let tokens = match tokenize(input) {
        Ok(tokens) => tokens,
        Err(msg) => {
            return Err(msg);
        },
    };
    let mut compiler = Compiler::new(tokens.as_slice());
    match compiler.compile_expression_tree() {
        Ok(expression_tree) => Ok(pretty::pretty_print(expression_tree, PrettyFormat::Spaced)),
        Err(msg) => Err(msg),
    }
}

} // verus!
