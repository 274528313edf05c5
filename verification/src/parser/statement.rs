//! Statements.
use crate::ast::{Block, Expression, FunctionCall, PrefixExp, Statement, Var};
use crate::parser::common::{
    block_at, funcbody_at, namelist_at, prefixexp_at, spec_block_stop, spec_body_params, spec_namelist_at,
    spec_no_suffix, spec_texts,
};
use crate::parser::expression::{
    exp_at, explist_at, spec_no_exp_start, spec_operand_end, spec_operand_is, spec_operator_free,
    spec_simple_operand,
};
use crate::parser::util::{
    identifier, keyword, lemma_next_char, lemma_word_range, spec_keyword_at, spec_name_at, spec_next_char, spec_sym1_at,
    spec_sym2_at, spec_word, sym1, sym2,
};
use vstd::prelude::*;

verus! {

/// The word that is the next token (empty when the next token is no word).
pub open spec fn spec_next_word(s: Seq<char>, pos: int) -> Seq<char> {
    let (p, e) = spec_word(s, pos);
    s.subrange(p, e)
}

/// The kind of statement that its first word (and, after `local`, its
/// second word) selects: a loop, a block, an `if` or a declaration for its
/// keyword, a `local` assignment after `local`, and otherwise a call or an
/// assignment that is not `local`.
pub open spec fn spec_stmt_kind(st: Statement, w: Seq<char>, w2: Seq<char>) -> bool {
    if w == "while"@ {
        st is While
    } else if w == "repeat"@ {
        st is Repeat
    } else if w == "do"@ {
        st is DoBlock
    } else if w == "if"@ {
        st is If
    } else if w == "for"@ {
        st is ForNum || st is ForGeneric
    } else if w == "function"@ {
        st is FunctionDecl
    } else if w == "local"@ {
        if w2 == "function"@ {
            st is LocalFuncDecl
        } else {
            st matches Statement::Assignment((_, _, true))
        }
    } else {
        st is FunctionCall || st matches Statement::Assignment((_, _, false))
    }
}

/// A statement at the next token: `;`, `break`, a loop, a `do` block, an
/// `if`, a function declaration, a call, or an assignment (`local` or not).
pub fn stmt_at(s: &Vec<char>, pos: usize) -> (r: Option<(Statement, usize)>)
    requires
        pos <= s@.len(),
    ensures
        r matches Some((_, e)) ==> pos < e <= s@.len(),
        spec_sym1_at(s@, pos as int, ';') matches Some(e) ==> (r matches Some((st, e2)) && st
            is Semicolon && e2 == e),
        spec_sym1_at(s@, pos as int, ';') is None ==> (spec_keyword_at(s@, pos as int, "break"@)
            matches Some(e) ==> (r matches Some((st, e2)) && st is Break && e2 == e)),
        spec_sym1_at(s@, pos as int, ';') is None && spec_keyword_at(s@, pos as int, "break"@)
            is None ==> (r matches Some((st, _)) ==> spec_stmt_kind(
            st,
            spec_next_word(s@, pos as int),
            spec_next_word(s@, spec_word(s@, pos as int).1),
        )),
        spec_keyword_at(s@, pos as int, "for"@) matches Some(p) ==> (r matches Some(
            (Statement::ForNum((n, _, _, _, _)), _),
        ) ==> (spec_name_at(s@, p) matches Some((w, _)) && n@ == w)),
        spec_keyword_at(s@, pos as int, "for"@) matches Some(p) ==> (r matches Some(
            (Statement::ForGeneric((ns, _, _)), _),
        ) ==> (spec_namelist_at(s@, p) matches Some((w, _)) && spec_texts(ns@) == w)),
        spec_keyword_at(s@, pos as int, "function"@) matches Some(p) ==> (r matches Some(
            (Statement::FunctionDecl((name, pl, _)), _),
        ) ==> (spec_funcname_at(s@, p) matches Some((w, q)) && name@ == w && spec_body_params(s@, q)
            == Some((spec_texts(pl.0@), pl.1)))),
        spec_keyword_at(s@, pos as int, "local"@) matches Some(p) ==> (spec_keyword_at(
            s@,
            p,
            "function"@,
        ) matches Some(p2) ==> (r matches Some((Statement::LocalFuncDecl((name, pl, _)), _)) ==> (
        spec_name_at(s@, p2) matches Some((w, q)) && name@ == w && spec_body_params(s@, q) == Some(
            (spec_texts(pl.0@), pl.1),
        )))),
        spec_block_stop(s@, pos as int) || spec_keyword_at(s@, pos as int, "return"@) is Some ==> r is None,
    decreases s@.len() - pos, 90int,
{
    proof {
        lemma_stop_words(s@, pos as int);
        reveal_strlit("while");
        reveal_strlit("repeat");
        reveal_strlit("do");
        reveal_strlit("if");
        reveal_strlit("for");
        reveal_strlit("function");
        reveal_strlit("local");
        lemma_word_range(s@, pos as int);
        lemma_not_keyword(s@, pos as int, "while"@);
        lemma_not_keyword(s@, pos as int, "repeat"@);
        lemma_not_keyword(s@, pos as int, "do"@);
        lemma_not_keyword(s@, pos as int, "if"@);
        lemma_not_keyword(s@, pos as int, "for"@);
        lemma_not_keyword(s@, pos as int, "function"@);
        lemma_not_keyword(s@, pos as int, "local"@);
        lemma_not_keyword(s@, spec_word(s@, pos as int).1, "function"@);
    }
    if let Some(e) = sym1(s, pos, ';') {
        return Some((Statement::Semicolon, e));
    }
    if let Some(e) = keyword(s, pos, "break") {
        return Some((Statement::Break, e));
    }
    if let Some(p) = keyword(s, pos, "while") {
        let (cond, p2) = exp_at(s, p)?;
        let p3 = keyword(s, p2, "do")?;
        let (block, p4) = block_at(s, p3)?;
        let p5 = keyword(s, p4, "end")?;
        return Some((Statement::While((cond, block)), p5));
    }
    if let Some(p) = keyword(s, pos, "repeat") {
        let (block, p2) = block_at(s, p)?;
        let p3 = keyword(s, p2, "until")?;
        let (cond, p4) = exp_at(s, p3)?;
        return Some((Statement::Repeat((block, cond)), p4));
    }
    if let Some(p) = keyword(s, pos, "do") {
        let (block, p2) = block_at(s, p)?;
        let p3 = keyword(s, p2, "end")?;
        return Some((Statement::DoBlock(block), p3));
    }
    if let Some(p) = keyword(s, pos, "if") {
        return if_rest_at(s, pos, p);
    }
    if let Some(p) = keyword(s, pos, "for") {
        return for_rest_at(s, pos, p);
    }
    if let Some(p) = keyword(s, pos, "function") {
        let (name, p2) = funcname_at(s, p)?;
        let ((par_list, block), p3) = funcbody_at(s, p2)?;
        return Some((Statement::FunctionDecl((name, par_list, block)), p3));
    }
    if let Some(p) = keyword(s, pos, "local") {
        if let Some(p2) = keyword(s, p, "function") {
            let (name, p3) = identifier(s, p2)?;
            let ((par_list, block), p4) = funcbody_at(s, p3)?;
            return Some((Statement::LocalFuncDecl((name, par_list, block)), p4));
        }
        return assignment_at(s, pos, p, true);
    }
    assignment_at(s, pos, pos, false)
}

/// Where a block ends, or `return` is next, no statement starts; where a
/// block ends, no `return` starts.
pub proof fn lemma_stop_words(s: Seq<char>, pos: int)
    requires
        0 <= pos <= s.len(),
    ensures
        spec_block_stop(s, pos) || spec_keyword_at(s, pos, "return"@) is Some ==> spec_sym1_at(s, pos, ';')
            is None && spec_keyword_at(s, pos, "break"@) is None && spec_keyword_at(s, pos, "while"@) is None
            && spec_keyword_at(s, pos, "repeat"@) is None && spec_keyword_at(s, pos, "do"@) is None
            && spec_keyword_at(s, pos, "if"@) is None && spec_keyword_at(s, pos, "for"@) is None
            && spec_keyword_at(s, pos, "function"@) is None && spec_keyword_at(s, pos, "local"@) is None
            && spec_name_at(s, pos) is None && spec_sym1_at(s, pos, '(') is None,
        spec_block_stop(s, pos) ==> spec_keyword_at(s, pos, "return"@) is None,
{
    reveal_strlit("end");
    reveal_strlit("else");
    reveal_strlit("elseif");
    reveal_strlit("until");
    reveal_strlit("return");
    reveal_strlit("break");
    reveal_strlit("while");
    reveal_strlit("repeat");
    reveal_strlit("do");
    reveal_strlit("if");
    reveal_strlit("for");
    reveal_strlit("function");
    reveal_strlit("local");
    lemma_word_range(s, pos);
    lemma_next_char(s, pos, "end"@, ';', ';');
    lemma_next_char(s, pos, "else"@, '(', '(');
    lemma_next_char(s, pos, "elseif"@, '(', '(');
    lemma_next_char(s, pos, "until"@, '(', '(');
    lemma_next_char(s, pos, "return"@, '(', '(');
    let (p, e) = spec_word(s, pos);
    let w = s.subrange(p, e);
    if spec_block_stop(s, pos) || spec_keyword_at(s, pos, "return"@) is Some {
        if spec_next_char(s, pos) is Some {
            assert(w == "end"@ || w == "else"@ || w == "elseif"@ || w == "until"@ || w == "return"@);
            assert(w.len() >= 3);
            assert(w != "do"@ && w != "if"@);
            assert(w[0] == 'e' || w[0] == 'u' || w[0] == 'r');
            assert(w != "break"@ && w != "while"@ && w != "for"@ && w != "function"@ && w != "local"@);
            if spec_block_stop(s, pos) && w == "return"@ {
                assert(w[0] == 'r');
            }
            if w == "repeat"@ {
                assert(w[2] == 'p');
                assert(w == "return"@ || w == "elseif"@);
                assert("return"@[2] == 't' && "elseif"@[0] == 'e');
            }
        } else {
            assert(p == e);
        }
    }
}

/// A keyword that is not the next token is not the next word.
proof fn lemma_not_keyword(s: Seq<char>, pos: int, w: Seq<char>)
    requires
        0 <= pos <= s.len(),
        w.len() > 0,
    ensures
        spec_keyword_at(s, pos, w) is None ==> spec_next_word(s, pos) != w,
{
    lemma_word_range(s, pos);
}

/// The numeric `for` loop at `p` (after `for`) with a name, a simple
/// operand as start and as limit (see `spec_simple_operand`), no step and an
/// empty body: the name, where the start and the limit begin, and where
/// the loop ends.
pub open spec fn spec_simple_for(s: Seq<char>, p: int) -> Option<(Seq<char>, int, int, int)> {
    match spec_name_at(s, p) {
        Some((w, q)) => if spec_sym2_at(s, q, '=', '=') is None {
            match spec_sym1_at(s, q, '=') {
                Some(q3) => if spec_simple_operand(s, q3) && spec_operator_free(s, spec_operand_end(s, q3)) {
                    match spec_sym1_at(s, spec_operand_end(s, q3), ',') {
                        Some(q5) => {
                            let e5 = spec_operand_end(s, q5);
                            if spec_simple_operand(s, q5) && spec_operator_free(s, e5) && spec_sym1_at(s, e5, ',')
                                is None {
                                match spec_keyword_at(s, e5, "do"@) {
                                    Some(q8) => match spec_keyword_at(s, q8, "end"@) {
                                        Some(e) => Some((w, q3, q5, e)),
                                        None => None,
                                    },
                                    None => None,
                                }
                            } else {
                                None
                            }
                        },
                        None => None,
                    }
                } else {
                    None
                },
                None => None,
            }
        } else {
            None
        },
        None => None,
    }
}

/// The rest of an `if` statement after `if`: condition, `then` block, any
/// `elseif` parts, an optional `else` block, and `end`.
fn if_rest_at(s: &Vec<char>, pos: usize, p: usize) -> (r: Option<(Statement, usize)>)
    requires
        pos < p <= s@.len(),
    ensures
        r matches Some((_, e)) ==> pos < e <= s@.len(),
        r matches Some((st, _)) ==> st is If,
        spec_no_exp_start(s@, p as int) ==> r is None,
        spec_simple_operand(s@, p as int) && spec_operator_free(s@, spec_operand_end(s@, p as int)) ==> (
        spec_keyword_at(s@, spec_operand_end(s@, p as int), "then"@) matches Some(q) ==> (spec_keyword_at(
            s@,
            q,
            "end"@,
        ) matches Some(e) ==> (r matches Some((Statement::If((c, b, elifs, els)), e2)) && spec_operand_is(
            c,
            s@,
            p as int,
        ) && b.statements@.len() == 0 && b.return_stat is None && elifs@.len() == 0 && els is None && e2
            == e))),
    decreases s@.len() - pos, 88int,
{
    let (cond, p2) = exp_at(s, p)?;
    let p3 = keyword(s, p2, "then")?;
    let (block, mut q) = block_at(s, p3)?;
    let ghost q0 = q;
    let ghost closed = spec_keyword_at(s@, q as int, "end"@) is Some;
    let ghost simple_if = spec_simple_operand(s@, p as int) && spec_operator_free(
        s@,
        spec_operand_end(s@, p as int),
    ) && (spec_keyword_at(s@, spec_operand_end(s@, p as int), "then"@) matches Some(q1)
        && spec_keyword_at(s@, q1, "end"@) is Some);
    assert(simple_if ==> closed);
    proof {
        reveal_strlit("end");
        reveal_strlit("elseif");
        reveal_strlit("else");
        if closed {
            let (a, b) = spec_word(s@, q as int);
            assert(s@.subrange(a, b) == "end"@);
            assert("end"@.len() == 3 && "else"@.len() == 4 && "elseif"@.len() == 6);
        }
    }
    let mut elseifs: Vec<(Expression, Block)> = Vec::new();
    loop
        invariant
            closed ==> q == q0 && elseifs@.len() == 0 && spec_keyword_at(s@, q0 as int, "elseif"@) is None,
            simple_if ==> closed,
            simple_if == (spec_simple_operand(s@, p as int) && spec_operator_free(
                s@,
                spec_operand_end(s@, p as int),
            ) && (spec_keyword_at(s@, spec_operand_end(s@, p as int), "then"@) matches Some(q1)
                && spec_keyword_at(s@, q1, "end"@) is Some)),
            pos < q <= s@.len(),
        decreases s@.len() - q,
    {
        match keyword(s, q, "elseif") {
            Some(q2) => {
                let (c, q3) = exp_at(s, q2)?;
                let q4 = keyword(s, q3, "then")?;
                let (b, q5) = block_at(s, q4)?;
                elseifs.push((c, b));
                q = q5;
            },
            None => {
                break ;
            },
        }
    }
    let mut else_block: Option<Block> = None;
    if let Some(q2) = keyword(s, q, "else") {
        let (b, q3) = block_at(s, q2)?;
        else_block = Some(b);
        q = q3;
    }
    let e = keyword(s, q, "end")?;
    Some((Statement::If((cond, block, elseifs, else_block)), e))
}

/// The rest of a `for` statement after `for`: either `name = exp, exp
/// [, exp] do block end` or `names in exps do block end`.
fn for_rest_at(s: &Vec<char>, pos: usize, p: usize) -> (r: Option<(Statement, usize)>)
    requires
        pos < p <= s@.len(),
    ensures
        r matches Some((_, e)) ==> pos < e <= s@.len(),
        r matches Some((st, _)) ==> st is ForNum || st is ForGeneric,
        r matches Some((Statement::ForNum((n, _, _, _, _)), _)) ==> (spec_name_at(s@, p as int) matches Some(
            (w, _),
        ) && n@ == w),
        r matches Some((Statement::ForGeneric((ns, _, _)), _)) ==> (spec_namelist_at(s@, p as int) matches Some(
            (w, _),
        ) && spec_texts(ns@) == w),
        spec_name_at(s@, p as int) is None ==> r is None,
        spec_simple_for(s@, p as int) matches Some((w, q3, q5, e)) ==> (r matches Some(
            (Statement::ForNum((n, x1, x2, step, b)), e2),
        ) && n@ == w && spec_operand_is(x1, s@, q3) && spec_operand_is(x2, s@, q5) && step is None
            && b.statements@.len() == 0 && b.return_stat is None && e2 == e),
    decreases s@.len() - pos, 88int,
{
    let (name, p2) = identifier(s, p)?;
    if sym2(s, p2, '=', '=').is_none() && sym1(s, p2, '=').is_some() {
        let p3 = sym1(s, p2, '=').unwrap();
        let (start, p4) = exp_at(s, p3)?;
        let p5 = sym1(s, p4, ',')?;
        let (limit, p6) = exp_at(s, p5)?;
        let (step, p7) = match sym1(s, p6, ',') {
            Some(q) => {
                let (e, q2) = exp_at(s, q)?;
                (Some(e), q2)
            },
            None => (None, p6),
        };
        let p8 = keyword(s, p7, "do")?;
        let (block, p9) = block_at(s, p8)?;
        let e = keyword(s, p9, "end")?;
        return Some((Statement::ForNum((name, start, limit, step, block)), e));
    }
    let (names, p3) = namelist_at(s, p)?;
    let p4 = keyword(s, p3, "in")?;
    let (exps, p5) = explist_at(s, p4)?;
    let p6 = keyword(s, p5, "do")?;
    let (block, p7) = block_at(s, p6)?;
    let e = keyword(s, p7, "end")?;
    Some((Statement::ForGeneric((names, exps, block)), e))
}

/// The parts `.name` that follow at `p` in a function's name (not `..`),
/// concatenated, and where they end.
pub open spec fn spec_dotted_parts(s: Seq<char>, p: int) -> (Seq<char>, int)
    decreases s.len() - p,
{
    if spec_sym2_at(s, p, '.', '.') is Some {
        (Seq::empty(), p)
    } else {
        match spec_sym1_at(s, p, '.') {
            Some(q) => match spec_name_at(s, q) {
                Some((part, q2)) => if p < q2 <= s.len() {
                    let rest = spec_dotted_parts(s, q2);
                    (part + rest.0, rest.1)
                } else {
                    (Seq::empty(), p)
                },
                None => (Seq::empty(), p),
            },
            None => (Seq::empty(), p),
        }
    }
}

/// The name in a function declaration at `pos`: a name, the parts `.name`
/// and an optional part `:name`, all concatenated; and where it ends.
pub open spec fn spec_funcname_at(s: Seq<char>, pos: int) -> Option<(Seq<char>, int)> {
    match spec_name_at(s, pos) {
        Some((first, p)) => {
            let (more, p2) = spec_dotted_parts(s, p);
            match spec_sym1_at(s, p2, ':') {
                Some(q) => match spec_name_at(s, q) {
                    Some((part, q2)) => Some((first + more + part, q2)),
                    None => Some((first + more, p2)),
                },
                None => Some((first + more, p2)),
            }
        },
        None => None,
    }
}

/// The name in a function declaration: names joined by `.`, then an
/// optional `:` name. The parts are concatenated.
fn funcname_at(s: &Vec<char>, pos: usize) -> (r: Option<(String, usize)>)
    requires
        pos <= s@.len(),
    ensures
        r matches Some((_, e)) ==> pos < e <= s@.len(),
        match spec_funcname_at(s@, pos as int) {
            Some((w, e)) => r matches Some((n, e2)) && n@ == w && e2 == e,
            None => r is None,
        },
{
    let (first, mut p) = identifier(s, pos)?;
    let mut name = first;
    let ghost p0 = p as int;
    loop
        invariant
            pos < p <= s@.len(),
            p0 <= p,
            name@ + spec_dotted_parts(s@, p as int).0 == first@ + spec_dotted_parts(s@, p0).0,
            spec_dotted_parts(s@, p as int).1 == spec_dotted_parts(s@, p0).1,
        ensures
            spec_dotted_parts(s@, p as int) == (Seq::<char>::empty(), p as int),
        decreases s@.len() - p,
    {
        if sym2(s, p, '.', '.').is_some() {
            break ;
        }
        match sym1(s, p, '.') {
            Some(q) => match identifier(s, q) {
                Some((part, q2)) => {
                    let ghost old_name = name@;
                    crate::text::append_string(&mut name, &part);
                    proof {
                        assert(name@ + spec_dotted_parts(s@, q2 as int).0 =~= old_name + (part@
                            + spec_dotted_parts(s@, q2 as int).0));
                    }
                    p = q2;
                },
                None => {
                    break ;
                },
            },
            None => {
                break ;
            },
        }
    }
    assert(name@ =~= first@ + spec_dotted_parts(s@, p0).0);
    if let Some(q) = sym1(s, p, ':') {
        if let Some((part, q2)) = identifier(s, q) {
            crate::text::append_string(&mut name, &part);
            p = q2;
        }
    }
    Some((name, p))
}

/// An assignment or a call. `p` is where the variables start (after
/// `local` when `is_local`). A call cannot be `local`. A `local`
/// assignment without `=` assigns `nil` to each variable; any other
/// assignment needs `=`.
fn assignment_at(s: &Vec<char>, pos: usize, p: usize, is_local: bool) -> (r: Option<
    (Statement, usize),
>)
    requires
        pos <= p <= s@.len(),
    ensures
        r matches Some((_, e)) ==> pos < e <= s@.len(),
        r matches Some((st, _)) ==> (st is FunctionCall && !is_local) || (st matches Statement::Assignment(
            (_, _, l),
        ) && l == is_local),
        spec_name_at(s@, p as int) is None && spec_sym1_at(s@, p as int, '(') is None ==> r is None,
        spec_name_at(s@, p as int) matches Some((w, q)) ==> (spec_no_suffix(s@, q) ==> (is_local ==> (
        r matches Some((Statement::Assignment((vars, _, true)), _)) && vars@.len() >= 1 && (
        vars@[0] matches Var::NameVar(n) && n@ == w)))),
        spec_name_at(s@, p as int) matches Some((w, q)) ==> (spec_no_suffix(s@, q) && spec_sym1_at(s@, q, ',')
            is None && spec_sym2_at(s@, q, '=', '=') is None ==> (spec_sym1_at(s@, q, '=') matches Some(q2)
            ==> (spec_simple_operand(s@, q2) && spec_operator_free(s@, spec_operand_end(s@, q2))
            && spec_sym1_at(s@, spec_operand_end(s@, q2), ',') is None ==> (r matches Some(
            (Statement::Assignment((vars, exps, l)), e),
        ) && l == is_local && vars@.len() == 1 && (vars@[0] matches Var::NameVar(n) && n@ == w)
            && exps@.len() == 1 && spec_operand_is(exps@[0], s@, q2) && e == spec_operand_end(s@, q2))))),
    decreases s@.len() - pos, 89int,
{
    let (first, mut q) = prefixexp_at(s, p)?;
    let mut vars: Vec<Var> = Vec::new();
    let ghost v0 = first;
    match first {
        PrefixExp::FunctionCall(call) => {
            if is_local {
                return None;
            }
            return Some((Statement::FunctionCall(call), q));
        },
        PrefixExp::Var(v) => {
            vars.push(v);
        },
        PrefixExp::Exp(_) => {
            return None;
        },
    }
    let ghost q0 = q;
    let ghost single = spec_name_at(s@, p as int) is Some && spec_no_suffix(s@, q as int) && spec_sym1_at(
        s@,
        q as int,
        ',',
    ) is None;
    loop
        invariant
            vars@.len() >= 1,
            PrefixExp::Var(vars@[0]) == v0,
            single ==> q == q0 && vars@.len() == 1 && spec_sym1_at(s@, q0 as int, ',') is None,
            pos < q <= s@.len(),
        decreases s@.len() - q,
    {
        match sym1(s, q, ',') {
            Some(q2) => match prefixexp_at(s, q2) {
                Some((PrefixExp::Var(v), q3)) => {
                    vars.push(v);
                    q = q3;
                },
                _ => {
                    break ;
                },
            },
            None => {
                break ;
            },
        }
    }
    if sym2(s, q, '=', '=').is_none() && sym1(s, q, '=').is_some() {
        let q2 = sym1(s, q, '=').unwrap();
        if let Some((exps, q3)) = explist_at(s, q2) {
            return Some((Statement::Assignment((vars, exps, is_local)), q3));
        }
    }
    if !is_local {
        return None;
    }
    let mut exps: Vec<Expression> = Vec::new();
    let mut i: usize = 0;
    while i < vars.len()
        decreases vars@.len() - i,
    {
        exps.push(Expression::Nil);
        i = i + 1;
    }
    Some((Statement::Assignment((vars, exps, is_local)), q))
}

} // verus!
