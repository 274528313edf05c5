//! The parser: from Lua source text to the abstract syntax tree.
//!
//! The grammar functions work on the characters of the source and a
//! position in them, and give what they parsed with the position after it.
//! The functions named `parse_*` take text, skip white space and comments
//! around what they parse, and give the text that is left with the result.
pub mod common;
pub mod expression;
pub mod statement;
pub mod util;

use crate::ast::{Args, Block, Expression, Field, FunctionCall, ParList, PrefixExp, Statement, Var, AST};
use crate::text::{chars_to_string, int_to_chars, push_chars, push_str, spec_int_text, str_to_chars};
use vstd::prelude::*;

verus! {

/// A failed parse, with its message.
#[derive(Debug, PartialEq)]
pub struct ASTParseError(pub String);

/// Whether `rest` is what is left of `input` after something was read.
pub open spec fn is_rest_of(rest: Seq<char>, input: Seq<char>) -> bool {
    rest.len() < input.len() && rest == input.subrange(
        input.len() - rest.len(),
        input.len() as int,
    )
}

/// The text after position `e`, once the white space and comments after
/// it are skipped.
fn rest_after(s: &Vec<char>, e: usize) -> (rest: String)
    requires
        e <= s@.len(),
    ensures
        rest@ == s@.subrange(util::spec_skip(s@, e as int), s@.len() as int),
{
    let p = util::skip_ws(s, e);
    chars_to_string(vstd::slice::slice_subrange(s.as_slice(), p, s.len()))
}

/// The number of line breaks before position `e`.
pub open spec fn spec_newlines(s: Seq<char>, e: int) -> nat
    decreases e,
{
    if e <= 0 {
        0
    } else {
        spec_newlines(s, e - 1) + if s[e - 1] == '\n' {
            1nat
        } else {
            0nat
        }
    }
}

/// The line (counted from 1) of position `e`, kept within `u64`.
pub open spec fn spec_line(s: Seq<char>, e: int) -> int {
    if spec_newlines(s, e) + 1 < u64::MAX {
        (spec_newlines(s, e) + 1) as int
    } else {
        u64::MAX as int
    }
}

/// The message for text that does not parse as `what`: the line is that of
/// the first token.
pub open spec fn spec_parse_error(s: Seq<char>, what: Seq<char>) -> Seq<char> {
    let n = spec_line(s, util::spec_skip(s, 0));
    "Parsing Error: expected "@ + what + " at line "@ + if n <= i64::MAX {
        spec_int_text(n)
    } else {
        Seq::empty()
    }
}

/// The line (counted from 1) of position `e`.
fn line_of(s: &Vec<char>, e: usize) -> (n: u64)
    requires
        e <= s@.len(),
    ensures
        n == spec_line(s@, e as int),
{
    let mut n: u64 = 1;
    let mut i: usize = 0;
    while i < e
        invariant
            i <= e <= s@.len(),
            n <= i + 1,
            n == spec_line(s@, i as int),
        decreases e - i,
    {
        if s[i] == '\n' && n < u64::MAX {
            n = n + 1;
        }
        i = i + 1;
    }
    n
}

/// The error for text that does not parse as `what`.
fn error_at(s: &Vec<char>, what: &str) -> (err: ASTParseError)
    ensures
        err.0@ == spec_parse_error(s@, what@),
{
    let p = util::skip_ws(s, 0);
    let mut out: Vec<char> = Vec::new();
    push_str(&mut out, "Parsing Error: expected ");
    push_str(&mut out, what);
    push_str(&mut out, " at line ");
    let n = line_of(s, p);
    if n <= i64::MAX as u64 {
        let digits = int_to_chars(n as i64);
        push_chars(&mut out, &digits);
    }
    ASTParseError(chars_to_string(out.as_slice()))
}

/// Turns the result of a grammar function into the result of a `parse_*`
/// function: the text left after it (and after the white space that
/// follows it), or the error.
fn finish<T>(s: &Vec<char>, r: Option<(T, usize)>, what: &str) -> (out: Result<
    (String, T),
    ASTParseError,
>)
    requires
        r matches Some((_, e)) ==> 0 < e <= s@.len(),
    ensures
        (out is Ok) == (r is Some),
        out matches Err(e) ==> e.0@ == spec_parse_error(s@, what@),
        out matches Ok((rest, t)) ==> r matches Some((t2, e)) && t == t2 && rest@ == s@.subrange(
            util::spec_skip(s@, e as int),
            s@.len() as int,
        ) && is_rest_of(rest@, s@),
{
    match r {
        Some((t, e)) => {
            let rest = rest_after(s, e);
            proof {
                util::lemma_skip_from_range(s@, e as int, 0);
                assert(rest@ =~= s@.subrange(s@.len() - rest@.len(), s@.len() as int));
            }
            Ok((rest, t))
        },
        None => Err(error_at(s, what)),
    }
}

/// Parses a whole program: a block, with white space and comments around
/// it. Gives the text that could not be read with the tree of the rest.
pub fn parse(input: &str) -> (r: Result<(String, AST), ASTParseError>)
    ensures
        r matches Ok((rest, _)) ==> rest@ == input@.subrange(
            input@.len() - rest@.len(),
            input@.len() as int,
        ),
        r is Ok,
        common::spec_block_stop(input@, 0) ==> (r matches Ok((rest, ast)) && ast.0.statements@.len() == 0
            && ast.0.return_stat is None && rest@ == input@.subrange(
            util::spec_skip(input@, 0),
            input@.len() as int,
        )),
        util::spec_keyword_at(input@, 0, "return"@) is Some ==> (r matches Ok((_, ast))
            && ast.0.statements@.len() == 0 && ast.0.return_stat is Some),
        util::spec_sym1_at(input@, 0, ';') is Some ==> (r matches Ok((_, ast)) && ast.0.statements@.len() > 0
            && ast.0.statements@[0] is Semicolon),
{
    let s = str_to_chars(input);
    let p = util::skip_ws(&s, 0);
    proof {
        util::lemma_skip_idem(s@, 0, 0);
        util::lemma_skip_from_range(s@, 0, 0);
    }
    match common::block_at(&s, p) {
        Some((block, e)) => {
            let rest = rest_after(&s, e);
            proof {
                util::lemma_skip_from_range(s@, e as int, 0);
                assert(rest@ =~= input@.subrange(input@.len() - rest@.len(), input@.len() as int));
            }
            Ok((rest, AST(block)))
        },
        None => {
            let rest = chars_to_string(s.as_slice());
            assert(rest@ =~= input@.subrange(0, input@.len() as int));
            Ok((rest, AST(Block { statements: Vec::new(), return_stat: None })))
        },
    }
}

impl std::str::FromStr for AST {
    type Err = ASTParseError;

    /// Parses a program; what follows the longest block that parses is
    /// left unread.
    fn from_str(s: &str) -> (r: Result<AST, ASTParseError>)
        ensures
            r is Ok,
            common::spec_block_stop(s@, 0) ==> (r matches Ok(ast) && ast.0.statements@.len() == 0
                && ast.0.return_stat is None),
            util::spec_keyword_at(s@, 0, "return"@) is Some ==> (r matches Ok(ast)
                && ast.0.statements@.len() == 0 && ast.0.return_stat is Some),
            util::spec_sym1_at(s@, 0, ';') is Some ==> (r matches Ok(ast) && ast.0.statements@.len() > 0
                && ast.0.statements@[0] is Semicolon),
    {
        match parse(s) {
            Ok((_, ast)) => Ok(ast),
            Err(e) => {
                let mut out: Vec<char> = Vec::new();
                push_str(&mut out, "Could not parse file: ");
                let m = str_to_chars(e.0.as_str());
                push_chars(&mut out, &m);
                Err(ASTParseError(chars_to_string(out.as_slice())))
            },
        }
    }
}

/// Skips white space and comments: gives the text after them.
pub fn ws(input: &str) -> (rest: String)
    ensures
        rest@ == input@.subrange(util::spec_skip(input@, 0), input@.len() as int),
{
    let s = str_to_chars(input);
    rest_after(&s, 0)
}

/// Parses a block.
pub fn parse_block(input: &str) -> (r: Result<(String, Block), ASTParseError>)
    ensures
        r matches Ok((rest, _)) ==> rest@ == input@.subrange(
            input@.len() - rest@.len(),
            input@.len() as int,
        ),
        r is Ok,
        common::spec_block_stop(input@, 0) ==> (r matches Ok((rest, b)) && b.statements@.len() == 0
            && b.return_stat is None && rest@ == input@.subrange(
            util::spec_skip(input@, 0),
            input@.len() as int,
        )),
        util::spec_keyword_at(input@, 0, "return"@) is Some ==> (r matches Ok((_, b))
            && b.statements@.len() == 0 && b.return_stat is Some),
        util::spec_sym1_at(input@, 0, ';') is Some ==> (r matches Ok((_, b)) && b.statements@.len() > 0
            && b.statements@[0] is Semicolon),
{
    match parse(input) {
        Ok((rest, ast)) => Ok((rest, ast.0)),
        Err(e) => Err(e),
    }
}

/// Parses a parameter list.
pub fn parse_parlist(input: &str) -> (r: Result<(String, ParList), ASTParseError>)
    ensures
        r matches Ok((rest, _)) ==> is_rest_of(rest@, input@),
        match common::spec_parlist_at(input@, 0) {
            Some((ns, dots, e)) => r matches Ok((rest, pl)) && common::spec_texts(pl.0@) == ns && pl.1
                == dots && rest@ == input@.subrange(util::spec_skip(input@, e), input@.len() as int),
            None => r is Err,
        },
        r matches Err(e) ==> e.0@ == spec_parse_error(input@, "a parameter list"@),
{
    let s = str_to_chars(input);
    let r = common::parlist_at(&s, 0);
    finish(&s, r, "a parameter list")
}

/// Parses a variable: a name, `prefix[exp]` or `prefix.name`.
pub fn parse_var(input: &str) -> (r: Result<(String, Var), ASTParseError>)
    ensures
        r matches Ok((rest, _)) ==> is_rest_of(rest@, input@),
        r matches Err(e) ==> e.0@ == spec_parse_error(input@, "a variable"@),
{
    let s = str_to_chars(input);
    let r = match common::prefixexp_at(&s, 0) {
        Some((PrefixExp::Var(v), e)) => Some((v, e)),
        _ => None,
    };
    finish(&s, r, "a variable")
}

/// Parses a table constructor.
pub fn parse_table_constructor(input: &str) -> (r: Result<(String, Vec<Field>), ASTParseError>)
    ensures
        r matches Ok((rest, _)) ==> is_rest_of(rest@, input@),
        r matches Err(e) ==> e.0@ == spec_parse_error(input@, "a table constructor"@),
{
    let s = str_to_chars(input);
    let r = common::table_at(&s, 0);
    finish(&s, r, "a table constructor")
}

/// Parses a prefix expression.
pub fn parse_prefixexp(input: &str) -> (r: Result<(String, PrefixExp), ASTParseError>)
    ensures
        r matches Ok((rest, _)) ==> is_rest_of(rest@, input@),
        r matches Err(e) ==> e.0@ == spec_parse_error(input@, "a prefix expression"@),
{
    let s = str_to_chars(input);
    let r = common::prefixexp_at(&s, 0);
    finish(&s, r, "a prefix expression")
}

/// Parses the arguments of a call.
pub fn parse_args(input: &str) -> (r: Result<(String, Args), ASTParseError>)
    ensures
        r matches Ok((rest, _)) ==> is_rest_of(rest@, input@),
        r matches Err(e) ==> e.0@ == spec_parse_error(input@, "arguments"@),
{
    let s = str_to_chars(input);
    let r = common::args_at(&s, 0);
    finish(&s, r, "arguments")
}

/// Parses a function body: parameters, block and `end`.
pub fn parse_funcbody(input: &str) -> (r: Result<(String, (ParList, Block)), ASTParseError>)
    ensures
        r matches Ok((rest, _)) ==> is_rest_of(rest@, input@),
        r matches Err(e) ==> e.0@ == spec_parse_error(input@, "a function body"@),
{
    let s = str_to_chars(input);
    let r = common::funcbody_at(&s, 0);
    finish(&s, r, "a function body")
}

/// Parses `...`.
pub fn parse_dot_dot_dot(input: &str) -> (r: Result<(String, Expression), ASTParseError>)
    ensures
        r matches Ok((rest, e)) ==> is_rest_of(rest@, input@) && e == Expression::DotDotDot,
        r matches Err(e) ==> e.0@ == spec_parse_error(input@, "..."@),
{
    let s = str_to_chars(input);
    let r = match util::sym2(&s, 0, '.', '.') {
        Some(e) => if e < s.len() && s[e] == '.' {
            Some((Expression::DotDotDot, e + 1))
        } else {
            None
        },
        None => None,
    };
    finish(&s, r, "...")
}

/// Parses a string literal.
pub fn parse_literal_string(input: &str) -> (r: Result<(String, Expression), ASTParseError>)
    ensures
        match util::spec_string_at(input@, 0) {
            Some((t, e)) => r matches Ok((rest, Expression::LiteralString(st))) && st@ == t
                && rest@ == input@.subrange(util::spec_skip(input@, e), input@.len() as int),
            None => r is Err,
        },
        r matches Err(e) ==> e.0@ == spec_parse_error(input@, "a string"@),
{
    let s = str_to_chars(input);
    let r = match util::parse_string(&s, 0) {
        Some((t, e)) => Some((Expression::LiteralString(t), e)),
        None => None,
    };
    finish(&s, r, "a string")
}

/// Parses an expression. Its operators nest by precedence and
/// associativity (see `spec_respects_precedence`).
pub fn parse_exp(input: &str) -> (r: Result<(String, Expression), ASTParseError>)
    ensures
        r matches Ok((rest, _)) ==> is_rest_of(rest@, input@),
        r matches Ok((_, e)) ==> expression::spec_respects_precedence(e),
        r matches Err(e) ==> e.0@ == spec_parse_error(input@, "an expression"@),
{
    let s = str_to_chars(input);
    let r = expression::exp_at(&s, 0);
    finish(&s, r, "an expression")
}

/// Parses a statement.
pub fn parse_stmt(input: &str) -> (r: Result<(String, Statement), ASTParseError>)
    ensures
        r matches Ok((rest, _)) ==> is_rest_of(rest@, input@),
        r matches Err(e) ==> e.0@ == spec_parse_error(input@, "a statement"@),
        util::spec_sym1_at(input@, 0, ';') is Some ==> (r matches Ok((_, st)) && st is Semicolon),
        util::spec_sym1_at(input@, 0, ';') is None && util::spec_keyword_at(input@, 0, "break"@)
            is Some ==> (r matches Ok((_, st)) && st is Break),
        util::spec_sym1_at(input@, 0, ';') is None && util::spec_keyword_at(input@, 0, "break"@)
            is None ==> (r matches Ok((_, st)) ==> statement::spec_stmt_kind(
            st,
            statement::spec_next_word(input@, 0),
            statement::spec_next_word(input@, util::spec_word(input@, 0).1),
        )),
        util::spec_keyword_at(input@, 0, "for"@) matches Some(p) ==> (r matches Ok(
            (_, Statement::ForNum((n, _, _, _, _))),
        ) ==> (util::spec_name_at(input@, p) matches Some((w, _)) && n@ == w)),
        util::spec_keyword_at(input@, 0, "for"@) matches Some(p) ==> (r matches Ok(
            (_, Statement::ForGeneric((ns, _, _))),
        ) ==> (common::spec_namelist_at(input@, p) matches Some((w, _)) && common::spec_texts(ns@)
            == w)),
        util::spec_keyword_at(input@, 0, "function"@) matches Some(p) ==> (r matches Ok(
            (_, Statement::FunctionDecl((name, pl, _))),
        ) ==> (statement::spec_funcname_at(input@, p) matches Some((w, q)) && name@ == w
            && common::spec_body_params(input@, q) == Some((common::spec_texts(pl.0@), pl.1)))),
        util::spec_keyword_at(input@, 0, "local"@) matches Some(p) ==> (util::spec_keyword_at(
            input@,
            p,
            "function"@,
        ) matches Some(p2) ==> (r matches Ok((_, Statement::LocalFuncDecl((name, pl, _)))) ==> (
        util::spec_name_at(input@, p2) matches Some((w, q)) && name@ == w && common::spec_body_params(
            input@,
            q,
        ) == Some((common::spec_texts(pl.0@), pl.1))))),
{
    let s = str_to_chars(input);
    let r = statement::stmt_at(&s, 0);
    finish(&s, r, "a statement")
}

/// Parses a function call: a prefix expression that ends with arguments.
pub fn parse_functioncall(input: &str) -> (r: Result<(String, FunctionCall), ASTParseError>)
    ensures
        r matches Ok((rest, _)) ==> is_rest_of(rest@, input@),
        r matches Err(e) ==> e.0@ == spec_parse_error(input@, "a function call"@),
{
    let s = str_to_chars(input);
    let r = match common::prefixexp_at(&s, 0) {
        Some((PrefixExp::FunctionCall(c), e)) => Some((c, e)),
        _ => None,
    };
    finish(&s, r, "a function call")
}

/// Parses a function call as a statement.
pub fn parse_functioncall_statement(input: &str) -> (r: Result<(String, Statement), ASTParseError>)
    ensures
        r matches Ok((rest, st)) ==> is_rest_of(rest@, input@) && st is FunctionCall,
        r matches Err(e) ==> e.0@ == spec_parse_error(input@, "a function call"@),
{
    let s = str_to_chars(input);
    let r = match common::prefixexp_at(&s, 0) {
        Some((PrefixExp::FunctionCall(c), e)) => Some((Statement::FunctionCall(c), e)),
        _ => None,
    };
    finish(&s, r, "a function call")
}

/// Parses a return statement: `return`, optional expressions, optional
/// `;`. Gives the expressions.
pub fn parse_return(input: &str) -> (r: Result<(String, Vec<Expression>), ASTParseError>)
    ensures
        (r is Ok) == (util::spec_keyword_at(input@, 0, "return"@) is Some),
        r matches Ok((rest, _)) ==> is_rest_of(rest@, input@),
        r matches Err(e) ==> e.0@ == spec_parse_error(input@, "a return statement"@),
{
    let s = str_to_chars(input);
    let r = match util::keyword(&s, 0, "return") {
        Some(q) => {
            let mut q2 = q;
            let mut exps: Vec<Expression> = Vec::new();
            if let Some((v, q3)) = expression::explist_at(&s, q) {
                exps = v;
                q2 = q3;
            }
            if let Some(q4) = util::sym1(&s, q2, ';') {
                q2 = q4;
            }
            Some((exps, q2))
        },
        None => None,
    };
    finish(&s, r, "a return statement")
}

} // verus!
