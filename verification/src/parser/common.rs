//! Parts shared by expressions and statements: blocks, function bodies,
//! parameter lists, table constructors, prefix expressions and arguments.
use crate::ast::{Args, Block, Expression, Field, FunctionCall, ParList, PrefixExp, Var};
use crate::parser::expression::{
    exp_at, explist_at, spec_no_exp_start, spec_operand_end, spec_operand_is, spec_operator_free,
    spec_simple_operand,
};
use crate::parser::statement::{lemma_stop_words, stmt_at};
use crate::parser::util::{
    identifier, keyword, lemma_next_char, opt_int, parse_string, spec_keyword_at, spec_name_at, spec_next_char,
    spec_string_at, spec_sym1_at, spec_sym2_at, sym1, sym2,
};
use vstd::prelude::*;

verus! {

/// A block ends at the next token: there is none, or it is `end`, `else`,
/// `elseif` or `until`.
pub open spec fn spec_block_stop(s: Seq<char>, pos: int) -> bool {
    ||| spec_next_char(s, pos) is None
    ||| spec_keyword_at(s, pos, "end"@) is Some
    ||| spec_keyword_at(s, pos, "else"@) is Some
    ||| spec_keyword_at(s, pos, "elseif"@) is Some
    ||| spec_keyword_at(s, pos, "until"@) is Some
}

/// A block: statements, then an optional `return` with its expressions and
/// an optional `;`. It may be empty.
pub fn block_at(s: &Vec<char>, pos: usize) -> (r: Option<(Block, usize)>)
    requires
        pos <= s@.len(),
    ensures
        r matches Some((_, e)) ==> pos <= e <= s@.len(),
        r is Some,
        spec_block_stop(s@, pos as int) ==> (r matches Some((b, e)) && b.statements@.len() == 0
            && b.return_stat is None && e == pos),
        spec_keyword_at(s@, pos as int, "return"@) is Some ==> (r matches Some((b, _))
            && b.statements@.len() == 0 && b.return_stat is Some),
        spec_sym1_at(s@, pos as int, ';') is Some ==> (r matches Some((b, _)) && b.statements@.len() > 0
            && b.statements@[0] is Semicolon),
    decreases s@.len() - pos, 100int,
{
    proof {
        lemma_stop_words(s@, pos as int);
    }
    let ghost semi = spec_sym1_at(s@, pos as int, ';') is Some;
    let mut statements: Vec<crate::ast::Statement> = Vec::new();
    let mut p = pos;
    loop
        invariant
            pos <= p <= s@.len(),
            semi == (spec_sym1_at(s@, pos as int, ';') is Some),
            statements@.len() == 0 ==> p == pos,
            statements@.len() > 0 ==> p > pos,
            semi && statements@.len() > 0 ==> statements@[0] is Semicolon,
            spec_block_stop(s@, pos as int) || spec_keyword_at(s@, pos as int, "return"@) is Some ==> p == pos,
        ensures
            pos <= p <= s@.len(),
            statements@.len() == 0 ==> p == pos,
            semi ==> statements@.len() > 0 && statements@[0] is Semicolon,
            spec_block_stop(s@, pos as int) || spec_keyword_at(s@, pos as int, "return"@) is Some ==> p == pos
                && statements@.len() == 0,
        decreases s@.len() - p,
    {
        match stmt_at(s, p) {
            Some((st, q)) => {
                statements.push(st);
                p = q;
            },
            None => {
                break ;
            },
        }
    }
    let mut return_stat: Option<Vec<Expression>> = None;
    if let Some(q) = keyword(s, p, "return") {
        let mut q2 = q;
        let mut exps: Vec<Expression> = Vec::new();
        if let Some((v, q3)) = explist_at(s, q) {
            exps = v;
            q2 = q3;
        }
        if let Some(q4) = sym1(s, q2, ';') {
            q2 = q4;
        }
        return_stat = Some(exps);
        p = q2;
    }
    Some((Block { statements, return_stat }, p))
}

/// Names separated by commas (at least one).
pub fn namelist_at(s: &Vec<char>, pos: usize) -> (r: Option<(Vec<String>, usize)>)
    requires
        pos <= s@.len(),
    ensures
        r matches Some((v, e)) ==> pos < e <= s@.len() && v@.len() >= 1,
        match spec_namelist_at(s@, pos as int) {
            Some((ns, e)) => r matches Some((v, e2)) && spec_texts(v@) == ns && e2 == e,
            None => r is None,
        },
{
    let (first, mut p) = identifier(s, pos)?;
    let mut names: Vec<String> = Vec::new();
    names.push(first);
    let ghost p0 = p as int;
    proof {
        assert(spec_texts(names@) =~= seq![first@]);
    }
    loop
        invariant
            pos < p <= s@.len(),
            names@.len() >= 1,
            spec_name_at(s@, pos as int) matches Some((n0, e0)) && e0 == p0 && seq![n0] + spec_more_names(
                s@,
                p0,
            ).0 == spec_texts(names@) + spec_more_names(s@, p as int).0 && spec_more_names(
                s@,
                p0,
            ).1 == spec_more_names(s@, p as int).1,
        ensures
            pos < p <= s@.len(),
            spec_name_at(s@, pos as int) matches Some((n0, e0)) && e0 == p0 && seq![n0] + spec_more_names(
                s@,
                p0,
            ).0 == spec_texts(names@) + spec_more_names(s@, p as int).0 && spec_more_names(
                s@,
                p0,
            ).1 == spec_more_names(s@, p as int).1,
            spec_more_names(s@, p as int).0 == Seq::<Seq<char>>::empty(),
            spec_more_names(s@, p as int).1 == p,
        decreases s@.len() - p,
    {
        match sym1(s, p, ',') {
            Some(q) => match identifier(s, q) {
                Some((n, q2)) => {
                    let ghost before = names@;
                    names.push(n);
                    proof {
                        assert(spec_texts(names@) =~= spec_texts(before).push(n@));
                        let rest = spec_more_names(s@, q2 as int);
                        assert(spec_more_names(s@, p as int).0 == seq![n@] + rest.0);
                        assert(spec_texts(before) + (seq![n@] + rest.0) =~= spec_texts(names@) + rest.0);
                    }
                    p = q2;
                },
                None => {
                    break ;
                },
            },
            None => {
                break ;
            },
        }
    }
    proof {
        assert(spec_texts(names@) + Seq::<Seq<char>>::empty() =~= spec_texts(names@));
    }
    Some((names, p))
}

/// Where `...` ends, if it is the next token.
pub open spec fn spec_dots_at(s: Seq<char>, pos: int) -> Option<int> {
    match spec_sym2_at(s, pos, '.', '.') {
        Some(e) => if e < s.len() && s[e] == '.' {
            Some(e + 1)
        } else {
            None
        },
        None => None,
    }
}

/// The names that follow a first name ending at `p`, each after a comma,
/// and where they end.
pub open spec fn spec_more_names(s: Seq<char>, p: int) -> (Seq<Seq<char>>, int)
    decreases s.len() - p,
{
    match spec_sym1_at(s, p, ',') {
        Some(q) => match spec_name_at(s, q) {
            Some((n, q2)) => if p < q2 <= s.len() {
                let (rest, e) = spec_more_names(s, q2);
                (seq![n] + rest, e)
            } else {
                (Seq::empty(), p)
            },
            None => (Seq::empty(), p),
        },
        None => (Seq::empty(), p),
    }
}

/// Names separated by commas (at least one), and where they end.
pub open spec fn spec_namelist_at(s: Seq<char>, pos: int) -> Option<(Seq<Seq<char>>, int)> {
    match spec_name_at(s, pos) {
        Some((n, p)) => {
            let (rest, e) = spec_more_names(s, p);
            Some((seq![n] + rest, e))
        },
        None => None,
    }
}

/// The texts of strings.
pub open spec fn spec_texts(v: Seq<String>) -> Seq<Seq<char>> {
    v.map_values(|x: String| x@)
}

/// Parameters: names with an optional `, ...`, or `...` alone. Gives the
/// names, whether `...` is there, and where the list ends.
pub open spec fn spec_parlist_at(s: Seq<char>, pos: int) -> Option<(Seq<Seq<char>>, bool, int)> {
    match spec_namelist_at(s, pos) {
        Some((ns, p)) => match spec_sym1_at(s, p, ',') {
            Some(q) => match spec_dots_at(s, q) {
                Some(q2) => Some((ns, true, q2)),
                None => Some((ns, false, p)),
            },
            None => Some((ns, false, p)),
        },
        None => match spec_dots_at(s, pos) {
            Some(p) => Some((Seq::empty(), true, p)),
            None => None,
        },
    }
}

/// `...` as the next token.
fn dot_dot_dot_at(s: &Vec<char>, pos: usize) -> (r: Option<usize>)
    requires
        pos <= s@.len(),
    ensures
        r matches Some(e) ==> pos < e <= s@.len(),
        opt_int(r) == spec_dots_at(s@, pos as int),
{
    match sym2(s, pos, '.', '.') {
        Some(e) => if e < s.len() && s[e] == '.' {
            Some(e + 1)
        } else {
            None
        },
        None => None,
    }
}

/// Parameters: names with an optional `, ...`, or `...` alone.
pub fn parlist_at(s: &Vec<char>, pos: usize) -> (r: Option<(ParList, usize)>)
    requires
        pos <= s@.len(),
    ensures
        r matches Some((_, e)) ==> pos < e <= s@.len(),
        match spec_parlist_at(s@, pos as int) {
            Some((ns, dots, e)) => r matches Some((pl, e2)) && spec_texts(pl.0@) == ns && pl.1 == dots
                && e2 == e,
            None => r is None,
        },
{
    match namelist_at(s, pos) {
        Some((names, p)) => {
            if let Some(q) = sym1(s, p, ',') {
                if let Some(q2) = dot_dot_dot_at(s, q) {
                    return Some((ParList(names, true), q2));
                }
            }
            Some((ParList(names, false), p))
        },
        None => match dot_dot_dot_at(s, pos) {
            Some(p) => Some((ParList(Vec::new(), true), p)),
            None => None,
        },
    }
}

/// The parameters of a function body at `pos`: the names and whether `...`
/// is there, from the parameter list after `(` (none when no list
/// follows); `None` when no `(` is next.
pub open spec fn spec_body_params(s: Seq<char>, pos: int) -> Option<(Seq<Seq<char>>, bool)> {
    match spec_sym1_at(s, pos, '(') {
        Some(p) => match spec_parlist_at(s, p) {
            Some((ns, dots, _)) => Some((ns, dots)),
            None => Some((Seq::empty(), false)),
        },
        None => None,
    }
}

/// A function body: `(` parameters `)` block `end`.
pub fn funcbody_at(s: &Vec<char>, pos: usize) -> (r: Option<((ParList, Block), usize)>)
    requires
        pos <= s@.len(),
    ensures
        r matches Some((_, e)) ==> pos < e <= s@.len(),
        r matches Some(((pl, _), _)) ==> spec_body_params(s@, pos as int) == Some(
            (spec_texts(pl.0@), pl.1),
        ),
        spec_sym1_at(s@, pos as int, '(') is None ==> r is None,
        spec_sym1_at(s@, pos as int, '(') matches Some(q) ==> (spec_sym1_at(s@, q, ')') matches Some(q2)
            ==> (spec_keyword_at(s@, q2, "end"@) matches Some(e) ==> (r matches Some(((pl, b), e2))
            && pl.0@.len() == 0 && !pl.1 && b.statements@.len() == 0 && b.return_stat is None && e2 == e))),
    decreases s@.len() - pos, 20int,
{
    let p = sym1(s, pos, '(')?;
    proof {
        lemma_next_char(s@, p as int, Seq::empty(), ')', '.');
        lemma_next_char(s@, p as int, Seq::empty(), '.', '.');
        reveal_strlit("end");
        lemma_next_char(s@, p as int, "end"@, ')', ')');
    }
    let (par_list, p2) = match parlist_at(s, p) {
        Some((pl, q)) => (pl, q),
        None => (ParList(Vec::new(), false), p),
    };
    assert(spec_texts(par_list.0@) =~= (match spec_parlist_at(s@, p as int) {
        Some((ns, _, _)) => ns,
        None => Seq::empty(),
    }));
    let p3 = sym1(s, p2, ')')?;
    let (block, p4) = block_at(s, p3)?;
    let p5 = keyword(s, p4, "end")?;
    Some(((par_list, block), p5))
}

/// A table constructor: `{` fields separated by `,` or `;` (a last
/// separator is allowed) `}`.
pub fn table_at(s: &Vec<char>, pos: usize) -> (r: Option<(Vec<Field>, usize)>)
    requires
        pos <= s@.len(),
    ensures
        r matches Some((_, e)) ==> pos < e <= s@.len(),
        spec_sym1_at(s@, pos as int, '{') is None ==> r is None,
        spec_sym1_at(s@, pos as int, '{') matches Some(q) ==> (spec_sym1_at(s@, q, '}') matches Some(e)
            ==> (r matches Some((fs, e2)) && fs@.len() == 0 && e2 == e)),
    decreases s@.len() - pos, 30int,
{
    let mut p = sym1(s, pos, '{')?;
    let mut fields: Vec<Field> = Vec::new();
    let ghost p0 = p;
    let ghost closed = spec_sym1_at(s@, p as int, '}') is Some;
    proof {
        lemma_next_char(s@, p as int, Seq::empty(), '}', '}');
        lemma_next_char(s@, p as int, Seq::empty(), '[', '[');
    }
    loop
        invariant
            pos < p <= s@.len(),
            closed ==> p == p0 && fields@.len() == 0 && spec_sym1_at(s@, p0 as int, '}') is Some
                && spec_sym1_at(s@, p0 as int, '[') is None && spec_no_exp_start(s@, p0 as int)
                && spec_name_at(s@, p0 as int) is None,
        decreases s@.len() - p,
    {
        match field_at(s, p) {
            Some((f, q)) => {
                fields.push(f);
                p = q;
                match sym1(s, p, ',') {
                    Some(q2) => {
                        p = q2;
                    },
                    None => match sym1(s, p, ';') {
                        Some(q2) => {
                            p = q2;
                        },
                        None => {
                            break ;
                        },
                    },
                }
            },
            None => {
                break ;
            },
        }
    }
    let e = sym1(s, p, '}')?;
    Some((fields, e))
}

/// A field: `[exp] = exp`, `name = exp`, or `exp`.
fn field_at(s: &Vec<char>, pos: usize) -> (r: Option<(Field, usize)>)
    requires
        pos <= s@.len(),
    ensures
        r matches Some((_, e)) ==> pos < e <= s@.len(),
        spec_sym1_at(s@, pos as int, '[') is None && spec_no_exp_start(s@, pos as int) ==> r is None,
        spec_name_at(s@, pos as int) matches Some((w, q)) ==> (spec_sym2_at(s@, q, '=', '=') is None
            ==> (spec_sym1_at(s@, q, '=') matches Some(q2) ==> (spec_simple_operand(s@, q2)
            && spec_operator_free(s@, spec_operand_end(s@, q2)) ==> (r matches Some(
            (Field::NameAssign((n, x)), e),
        ) && n@ == w && spec_operand_is(x, s@, q2) && e == spec_operand_end(s@, q2))))),
    decreases s@.len() - pos, 85int,
{
    proof {
        lemma_next_char(s@, pos as int, Seq::empty(), '[', '[');
    }
    if let Some(p) = sym1(s, pos, '[') {
        let (k, p2) = exp_at(s, p)?;
        let p3 = sym1(s, p2, ']')?;
        let p4 = sym1(s, p3, '=')?;
        let (v, p5) = exp_at(s, p4)?;
        return Some((Field::BracketedAssign((k, v)), p5));
    }
    if let Some((name, p)) = identifier(s, pos) {
        if sym2(s, p, '=', '=').is_none() {
            if let Some(p2) = sym1(s, p, '=') {
                let (v, p3) = exp_at(s, p2)?;
                return Some((Field::NameAssign((name, v)), p3));
            }
        }
    }
    let (v, p) = exp_at(s, pos)?;
    Some((Field::UnnamedAssign(v), p))
}

/// The arguments of a call: `(` expressions `)`, a table constructor, or a
/// string literal.
pub fn args_at(s: &Vec<char>, pos: usize) -> (r: Option<(Args, usize)>)
    requires
        pos <= s@.len(),
    ensures
        r matches Some((_, e)) ==> pos < e <= s@.len(),
        spec_sym1_at(s@, pos as int, '(') is None && spec_sym1_at(s@, pos as int, '{') is None
            && spec_sym1_at(s@, pos as int, '"') is None ==> r is None,
        spec_sym1_at(s@, pos as int, '(') matches Some(q) ==> (spec_sym1_at(s@, q, ')') matches Some(e)
            ==> (r matches Some((Args::ExpList(v), e2)) && v@.len() == 0 && e2 == e)),
        spec_string_at(s@, pos as int) matches Some((t, e)) ==> (r matches Some((Args::LiteralString(st), e2))
            && st@ == t && e2 == e),
    decreases s@.len() - pos, 35int,
{
    proof {
        lemma_next_char(s@, pos as int, Seq::empty(), '"', '"');
        lemma_next_char(s@, pos as int, Seq::empty(), '(', '(');
        lemma_next_char(s@, pos as int, Seq::empty(), '{', '{');
    }
    if let Some(p) = sym1(s, pos, '(') {
        proof {
            lemma_next_char(s@, p as int, Seq::empty(), ')', ')');
        }
        let (exps, p2) = match explist_at(s, p) {
            Some((v, q)) => (v, q),
            None => (Vec::new(), p),
        };
        let p3 = sym1(s, p2, ')')?;
        return Some((Args::ExpList(exps), p3));
    }
    if sym1(s, pos, '{').is_some() {
        let (fields, p) = table_at(s, pos)?;
        return Some((Args::TableConstructor(fields), p));
    }
    let (t, p) = parse_string(s, pos)?;
    Some((Args::LiteralString(t), p))
}

/// Whether arguments start at the next token.
fn args_ahead(s: &Vec<char>, pos: usize) -> (b: bool)
    requires
        pos <= s@.len(),
    ensures
        b == (spec_sym1_at(s@, pos as int, '(') is Some || spec_sym1_at(s@, pos as int, '{') is Some
            || spec_sym1_at(s@, pos as int, '"') is Some),
{
    sym1(s, pos, '(').is_some() || sym1(s, pos, '{').is_some() || sym1(s, pos, '"').is_some()
}

/// No suffix of a prefix expression (`[exp]`, `.name`, `:name args` or
/// arguments) starts at the next token.
pub open spec fn spec_no_suffix(s: Seq<char>, q: int) -> bool {
    match spec_next_char(s, q) {
        Some(c) => c != '[' && c != '.' && c != ':' && c != '(' && c != '{' && c != '"',
        None => true,
    }
}

/// A prefix expression: a name or `(exp)`, followed by any number of
/// `[exp]`, `.name`, `:name args` and `args`, read from left to right.
pub fn prefixexp_at(s: &Vec<char>, pos: usize) -> (r: Option<(PrefixExp, usize)>)
    requires
        pos <= s@.len(),
    ensures
        r matches Some((_, e)) ==> pos < e <= s@.len(),
        spec_name_at(s@, pos as int) is Some ==> r is Some,
        spec_name_at(s@, pos as int) matches Some((w, q)) ==> (spec_no_suffix(s@, q) ==> (r matches Some(
            (PrefixExp::Var(Var::NameVar(n)), e),
        ) && n@ == w && e == q)),
        spec_name_at(s@, pos as int) is None && spec_sym1_at(s@, pos as int, '(') is None ==> r is None,
    decreases s@.len() - pos, 10int,
{
    let (mut cur, mut p) = if let Some((name, p)) = identifier(s, pos) {
        (PrefixExp::Var(Var::NameVar(name)), p)
    } else {
        let p = sym1(s, pos, '(')?;
        let (e, p2) = exp_at(s, p)?;
        let p3 = sym1(s, p2, ')')?;
        (PrefixExp::Exp(e), p3)
    };
    let ghost cur0 = cur;
    let ghost p0 = p;
    let ghost plain = spec_name_at(s@, pos as int) is Some && spec_no_suffix(s@, p as int);
    loop
        invariant
            pos < p <= s@.len(),
            plain ==> spec_no_suffix(s@, p0 as int),
            plain ==> cur == cur0 && p == p0,
        decreases s@.len() - p,
    {
        proof {
            if plain {
                lemma_next_char(s@, p as int, Seq::empty(), '[', '[');
                lemma_next_char(s@, p as int, Seq::empty(), '.', '.');
                lemma_next_char(s@, p as int, Seq::empty(), ':', ':');
                lemma_next_char(s@, p as int, Seq::empty(), '(', '(');
                lemma_next_char(s@, p as int, Seq::empty(), '{', '{');
                lemma_next_char(s@, p as int, Seq::empty(), '"', '"');
            }
        }
        if let Some(q) = sym1(s, p, '[') {
            match exp_at(s, q) {
                Some((e, q2)) => match sym1(s, q2, ']') {
                    Some(q3) => {
                        cur = PrefixExp::Var(Var::BracketVar((Box::new(cur), e)));
                        p = q3;
                    },
                    None => {
                        break ;
                    },
                },
                None => {
                    break ;
                },
            }
        } else if sym2(s, p, '.', '.').is_none() && sym1(s, p, '.').is_some() {
            let q = sym1(s, p, '.').unwrap();
            match identifier(s, q) {
                Some((name, q2)) => {
                    cur = PrefixExp::Var(Var::DotVar((Box::new(cur), name)));
                    p = q2;
                },
                None => {
                    break ;
                },
            }
        } else if sym2(s, p, ':', ':').is_none() && sym1(s, p, ':').is_some() {
            let q = sym1(s, p, ':').unwrap();
            match identifier(s, q) {
                Some((name, q2)) => match args_at(s, q2) {
                    Some((args, q3)) => {
                        cur = PrefixExp::FunctionCall(
                            FunctionCall::Method((Box::new(cur), name, args)),
                        );
                        p = q3;
                    },
                    None => {
                        break ;
                    },
                },
                None => {
                    break ;
                },
            }
        } else if args_ahead(s, p) {
            match args_at(s, p) {
                Some((args, q)) => {
                    cur = PrefixExp::FunctionCall(FunctionCall::Standard((Box::new(cur), args)));
                    p = q;
                },
                None => {
                    break ;
                },
            }
        } else {
            break ;
        }
    }
    Some((cur, p))
}

} // verus!
