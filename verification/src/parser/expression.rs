//! Expressions, parsed by operator precedence (from `or`, the loosest, to
//! `^`, the tightest).
use crate::ast::{BinOp, Expression, Numeral, PrefixExp, UnOp, Var};
use crate::parser::common::{funcbody_at, prefixexp_at, spec_no_suffix, table_at};
use crate::parser::util::{
    is_name_char, keyword, lemma_next_char, spec_word, parse_numeral, parse_string, spec_keyword_at, spec_name_at,
    spec_next_char, spec_numeral_at, spec_skip, spec_string_at, spec_sym1_at, spec_sym2_at, sym1, sym2,
};
use vstd::prelude::*;

verus! {

/// Folds pairs of operator and operand onto `init`, to the left:
/// `((init op1 e1) op2 e2) ...`.
pub open spec fn spec_foldl(init: Expression, ops: Seq<(BinOp, Expression)>) -> Expression
    decreases ops.len(),
{
    if ops.len() == 0 {
        init
    } else {
        Expression::BinaryOp(
            (Box::new(spec_foldl(init, ops.drop_last())), ops.last().0, Box::new(ops.last().1)),
        )
    }
}

/// Folds a non-empty list of operands with one operator, to the right:
/// `e0 op (e1 op (e2 ...))`.
pub open spec fn spec_foldr(all: Seq<Expression>, op: BinOp) -> Expression
    decreases all.len(),
{
    if all.len() <= 1 {
        all[0]
    } else {
        Expression::BinaryOp((Box::new(all[0]), op, Box::new(spec_foldr(all.drop_first(), op))))
    }
}

/// Folding to the right over `p + q` folds `q` first and puts the result
/// after `p`.
pub proof fn lemma_foldr_split(p: Seq<Expression>, q: Seq<Expression>, op: BinOp)
    requires
        q.len() >= 1,
    ensures
        spec_foldr(p + q, op) == spec_foldr(p.push(spec_foldr(q, op)), op),
    decreases p.len(),
{
    if p.len() == 0 {
        assert(p + q =~= q);
        assert(p.push(spec_foldr(q, op)) =~= seq![spec_foldr(q, op)]);
    } else {
        lemma_foldr_split(p.drop_first(), q, op);
        assert((p + q).drop_first() =~= p.drop_first() + q);
        assert(p.push(spec_foldr(q, op)).drop_first() =~= p.drop_first().push(spec_foldr(q, op)));
    }
}

/// How tightly a binary operator binds: higher binds tighter. Unary
/// operators bind at 10, between `* / // %` and `^`.
pub open spec fn spec_prec(op: BinOp) -> int {
    match op {
        BinOp::LogicalOr => 0,
        BinOp::LogicalAnd => 1,
        BinOp::LessThan => 2,
        BinOp::LessEq => 2,
        BinOp::GreaterThan => 2,
        BinOp::GreaterEq => 2,
        BinOp::Equal => 2,
        BinOp::NotEqual => 2,
        BinOp::BitOr => 3,
        BinOp::BitXor => 4,
        BinOp::BitAnd => 5,
        BinOp::ShiftLeft => 6,
        BinOp::ShiftRight => 6,
        BinOp::Concat => 7,
        BinOp::Add => 8,
        BinOp::Sub => 8,
        BinOp::Mult => 9,
        BinOp::Div => 9,
        BinOp::IntegerDiv => 9,
        BinOp::Mod => 9,
        BinOp::Pow => 11,
    }
}

/// How tightly the outermost operator of an expression binds; 12 when it
/// has none (a literal, a prefix expression, a function or a table).
pub open spec fn spec_top(e: Expression) -> int {
    match e {
        Expression::BinaryOp((_, op, _)) => spec_prec(op),
        Expression::UnaryOp(_) => 10,
        _ => 12,
    }
}

/// The operators of an expression (outside parentheses) nest by
/// precedence: an operand binds at least as tightly as its operator, and
/// strictly more on the side the operator does not associate to. `..` and
/// `^` associate to the right, the others to the left; the right operand
/// of `^` and the operand of a unary operator may be unary.
pub open spec fn spec_respects_precedence(e: Expression) -> bool
    decreases e,
{
    match e {
        Expression::BinaryOp((l, op, r)) => {
            &&& spec_respects_precedence(*l)
            &&& spec_respects_precedence(*r)
            &&& if op == BinOp::Pow {
                spec_top(*l) > 11 && spec_top(*r) >= 10
            } else if op == BinOp::Concat {
                spec_top(*l) > 7 && spec_top(*r) >= 7
            } else {
                spec_top(*l) >= spec_prec(op) && spec_top(*r) > spec_prec(op)
            }
        },
        Expression::UnaryOp((_, x)) => spec_respects_precedence(*x) && spec_top(*x) >= 10,
        _ => true,
    }
}

proof fn lemma_foldl_respects(init: Expression, ops: Seq<(BinOp, Expression)>, level: int)
    requires
        0 <= level <= 9,
        level != 7,
        spec_respects_precedence(init),
        spec_top(init) > level,
        forall|k: int|
            0 <= k < ops.len() ==> spec_prec((#[trigger] ops[k]).0) == level
                && spec_respects_precedence(ops[k].1) && spec_top(ops[k].1) > level,
    ensures
        spec_respects_precedence(spec_foldl(init, ops)),
        spec_top(spec_foldl(init, ops)) >= level,
    decreases ops.len(),
{
    if ops.len() > 0 {
        let d = ops.drop_last();
        assert forall|k: int| 0 <= k < d.len() implies spec_prec((#[trigger] d[k]).0) == level
            && spec_respects_precedence(d[k].1) && spec_top(d[k].1) > level by {
            assert(d[k] == ops[k]);
        }
        lemma_foldl_respects(init, d, level);
        assert(spec_prec(ops[ops.len() - 1].0) == level);
    }
}

proof fn lemma_foldr_respects(all: Seq<Expression>)
    requires
        all.len() >= 1,
        forall|k: int|
            0 <= k < all.len() ==> spec_respects_precedence(#[trigger] all[k]) && spec_top(all[k])
                > 7,
    ensures
        spec_respects_precedence(spec_foldr(all, BinOp::Concat)),
        spec_top(spec_foldr(all, BinOp::Concat)) >= 7,
    decreases all.len(),
{
    if all.len() > 1 {
        let d = all.drop_first();
        assert forall|k: int| 0 <= k < d.len() implies spec_respects_precedence(#[trigger] d[k])
            && spec_top(d[k]) > 7 by {
            assert(d[k] == all[k + 1]);
        }
        lemma_foldr_respects(d);
        assert(spec_respects_precedence(all[0]));
    } else {
        assert(spec_respects_precedence(all[0]));
    }
}

/// Fold (in a left-associative manner) a list of binary operators and
/// expressions into a single expression, starting from `init`.
pub fn foldl_exp(init: Expression, op_and_exps: Vec<(BinOp, Expression)>) -> (e: Expression)
    ensures
        e == spec_foldl(init, op_and_exps@),
{
    let ghost all = op_and_exps@;
    let mut rest = op_and_exps;
    let mut acc = init;
    let total: usize = rest.len();
    let mut i: usize = 0;
    while rest.len() > 0
        invariant
            total == all.len(),
            i + rest@.len() == all.len(),
            rest@ == all.skip(i as int),
            acc == spec_foldl(init, all.take(i as int)),
        decreases rest@.len(),
    {
        let (op, exp) = rest.remove(0);
        proof {
            assert(all.take(i + 1).drop_last() =~= all.take(i as int));
            assert(all[i as int] == (op, exp));
        }
        acc = Expression::BinaryOp((Box::new(acc), op, Box::new(exp)));
        i = i + 1;
        proof {
            assert(rest@ =~= all.skip(i as int));
        }
    }
    assert(all.take(i as int) =~= all);
    acc
}

/// Fold (in a right-associative manner) `init` and a list of expressions
/// with the binary operator `op`.
pub fn foldr_op_exp(init: Expression, op: BinOp, exps: Vec<Expression>) -> (e: Expression)
    ensures
        e == spec_foldr(seq![init] + exps@, op),
{
    let ghost all = seq![init] + exps@;
    let mut front: Vec<Expression> = Vec::new();
    front.push(init);
    let mut rest = exps;
    front.append(&mut rest);
    assert(front@ =~= all);
    let mut acc = front.pop().unwrap();
    proof {
        assert(all =~= front@ + seq![acc]);
        assert(spec_foldr(seq![acc], op) == acc);
        lemma_foldr_split(front@, seq![acc], op);
    }
    while front.len() > 0
        invariant
            spec_foldr(all, op) == spec_foldr(front@.push(acc), op),
        decreases front@.len(),
    {
        let ghost before = front@;
        let ghost old_acc = acc;
        let e = front.pop().unwrap();
        acc = Expression::BinaryOp((Box::new(e), op, Box::new(acc)));
        proof {
            assert(before =~= front@.push(e));
            let q = seq![e, old_acc];
            assert(before.push(old_acc) =~= front@ + q);
            lemma_foldr_split(front@, q, op);
            assert(q.drop_first() =~= seq![old_acc]);
            assert(spec_foldr(seq![old_acc], op) == old_acc);
            assert(spec_foldr(q, op) == acc);
        }
    }
    proof {
        assert(front@.push(acc) =~= seq![acc]);
    }
    acc
}

/// The next token is a simple operand: `nil`, `true`, `false`, a numeral,
/// a string literal or a name.
pub open spec fn spec_simple_operand(s: Seq<char>, pos: int) -> bool {
    ||| spec_keyword_at(s, pos, "nil"@) is Some
    ||| spec_keyword_at(s, pos, "true"@) is Some
    ||| spec_keyword_at(s, pos, "false"@) is Some
    ||| spec_numeral_at(s, pos) is Some
    ||| spec_string_at(s, pos) is Some
    ||| spec_name_at(s, pos) is Some
}

/// Where the simple operand at `pos` ends (see `spec_simple_operand`).
pub open spec fn spec_operand_end(s: Seq<char>, pos: int) -> int {
    if let Some(e) = spec_keyword_at(s, pos, "nil"@) {
        e
    } else if let Some(e) = spec_keyword_at(s, pos, "true"@) {
        e
    } else if let Some(e) = spec_keyword_at(s, pos, "false"@) {
        e
    } else if let Some((_, _, e)) = spec_numeral_at(s, pos) {
        e
    } else if let Some((_, e)) = spec_string_at(s, pos) {
        e
    } else if let Some((_, e)) = spec_name_at(s, pos) {
        e
    } else {
        pos
    }
}

/// `x` is the expression of the simple operand at `pos`: `nil`, `true`,
/// `false`, the numeral (a float keeps its text), the string, or the name
/// as a variable.
pub open spec fn spec_operand_is(x: Expression, s: Seq<char>, pos: int) -> bool {
    if spec_keyword_at(s, pos, "nil"@) is Some {
        x is Nil
    } else if spec_keyword_at(s, pos, "true"@) is Some {
        x is True
    } else if spec_keyword_at(s, pos, "false"@) is Some {
        x is False
    } else if let Some((is_float, v, e)) = spec_numeral_at(s, pos) {
        if is_float {
            x matches Expression::Numeral(Numeral::Float(t)) && t@ == s.subrange(spec_skip(s, pos), e)
        } else {
            x matches Expression::Numeral(Numeral::Integer(i)) && i == v
        }
    } else if let Some((t, _)) = spec_string_at(s, pos) {
        x matches Expression::LiteralString(st) && st@ == t
    } else if let Some((w, _)) = spec_name_at(s, pos) {
        x matches Expression::PrefixExp(p) && (*p matches PrefixExp::Var(Var::NameVar(n)) && n@ == w)
    } else {
        false
    }
}

/// No operator, `^` or suffix of a prefix expression follows at `q`: the
/// next token is none of `+ - * / % ^ . < > = ~ & | [ : ( { "`, `and` or
/// `or` (or there is no next token).
pub open spec fn spec_operator_free(s: Seq<char>, q: int) -> bool {
    &&& match spec_next_char(s, q) {
        Some(c) => c != '+' && c != '-' && c != '*' && c != '/' && c != '%' && c != '^' && c != '.'
            && c != '<' && c != '>' && c != '=' && c != '~' && c != '&' && c != '|' && c != '['
            && c != ':' && c != '(' && c != '{' && c != '"',
        None => true,
    }
    &&& spec_keyword_at(s, q, "and"@) is None
    &&& spec_keyword_at(s, q, "or"@) is None
}

/// No expression can start at the next token: there is none, or it starts
/// with a character that begins no name, keyword, numeral, string,
/// parenthesis, table or unary operator.
pub open spec fn spec_no_exp_start(s: Seq<char>, pos: int) -> bool {
    match spec_next_char(s, pos) {
        Some(c) => !is_name_char(c) && c != '.' && c != '"' && c != '{' && c != '(' && c != '-'
            && c != '#' && c != '~',
        None => true,
    }
}

/// The unary operator that is the next token (`-`, `not`, `#`, or `~` but
/// not `~=`), and where it ends.
pub open spec fn spec_unop_at(s: Seq<char>, pos: int) -> Option<(UnOp, int)> {
    if let Some(e) = spec_sym1_at(s, pos, '-') {
        Some((UnOp::Negate, e))
    } else if let Some(e) = spec_keyword_at(s, pos, "not"@) {
        Some((UnOp::LogicalNot, e))
    } else if let Some(e) = spec_sym1_at(s, pos, '#') {
        Some((UnOp::Length, e))
    } else if spec_sym2_at(s, pos, '~', '=') is Some {
        None
    } else if let Some(e) = spec_sym1_at(s, pos, '~') {
        Some((UnOp::BitNot, e))
    } else {
        None
    }
}

/// What the first character of the next token rules out.
proof fn lemma_operand_start(s: Seq<char>, pos: int)
    requires
        0 <= pos <= s.len(),
    ensures
        spec_simple_operand(s, pos) ==> spec_sym1_at(s, pos, '-') is None && spec_sym1_at(s, pos, '#')
            is None && spec_sym1_at(s, pos, '~') is None && spec_sym2_at(s, pos, '~', '=') is None
            && spec_keyword_at(s, pos, "not"@) is None,
        spec_name_at(s, pos) is Some ==> spec_keyword_at(s, pos, "nil"@) is None && spec_keyword_at(
            s,
            pos,
            "true"@,
        ) is None && spec_keyword_at(s, pos, "false"@) is None && spec_numeral_at(s, pos) is None
            && spec_string_at(s, pos) is None && spec_sym2_at(s, pos, '.', '.') is None
            && spec_keyword_at(s, pos, "function"@) is None && spec_sym1_at(s, pos, '{') is None,
        spec_no_exp_start(s, pos) ==> !spec_simple_operand(s, pos) && spec_sym1_at(s, pos, '-') is None
            && spec_sym1_at(s, pos, '#') is None && spec_sym1_at(s, pos, '~') is None
            && spec_keyword_at(s, pos, "not"@) is None && spec_sym2_at(s, pos, '.', '.') is None
            && spec_keyword_at(s, pos, "function"@) is None && spec_sym1_at(s, pos, '{') is None
            && spec_sym1_at(s, pos, '(') is None,
{
    reveal_strlit("nil");
    reveal_strlit("true");
    reveal_strlit("false");
    reveal_strlit("not");
    reveal_strlit("function");
    lemma_next_char(s, pos, "nil"@, '-', '-');
    lemma_next_char(s, pos, "true"@, '#', '#');
    lemma_next_char(s, pos, "false"@, '~', '=');
    lemma_next_char(s, pos, "not"@, '{', '{');
    lemma_next_char(s, pos, "function"@, '.', '.');
    lemma_next_char(s, pos, "function"@, '(', '(');
    lemma_next_char(s, pos, "function"@, '~', '~');
    lemma_next_char(s, pos, "not"@, '#', '#');
    lemma_next_char(s, pos, "not"@, '~', '~');
    lemma_next_char(s, pos, "not"@, '-', '-');
    if spec_keyword_at(s, pos, "not"@) is Some {
        let (p, e) = spec_word(s, pos);
        assert(s.subrange(p, e) == "not"@);
        assert("not"@[1] == 'o' && "nil"@[1] == 'i' && "not"@.len() == 3 && "true"@.len() == 4
            && "false"@.len() == 5);
        assert(spec_keyword_at(s, pos, "nil"@) is None);
        assert(spec_keyword_at(s, pos, "true"@) is None);
        assert(spec_keyword_at(s, pos, "false"@) is None);
        assert(spec_name_at(s, pos) is None);
        assert(spec_numeral_at(s, pos) is None);
        assert(spec_string_at(s, pos) is None);
    }
}

/// Where no operator follows, no suffix of a prefix expression and no `^`
/// follows either.
proof fn lemma_operator_free_ends(s: Seq<char>, q: int)
    ensures
        spec_operator_free(s, q) ==> spec_no_suffix(s, q),
        spec_operator_free(s, q) && 0 <= q <= s.len() ==> spec_sym1_at(s, q, '^') is None,
{
    if spec_operator_free(s, q) && 0 <= q <= s.len() {
        lemma_next_char(s, q, Seq::empty(), '^', '^');
    }
}

/// After a simple operand with no operator following, no operator of any
/// level is next.
proof fn lemma_operator_free(s: Seq<char>, q: int, level: int)
    requires
        0 <= q <= s.len(),
        spec_operator_free(s, q),
    ensures
        spec_binop_at(s, q, level) is None,
        spec_sym1_at(s, q, '^') is None,
{
    lemma_next_char(s, q, Seq::empty(), '<', '=');
    lemma_next_char(s, q, Seq::empty(), '>', '=');
    lemma_next_char(s, q, Seq::empty(), '~', '=');
    lemma_next_char(s, q, Seq::empty(), '=', '=');
    lemma_next_char(s, q, Seq::empty(), '<', '<');
    lemma_next_char(s, q, Seq::empty(), '>', '>');
    lemma_next_char(s, q, Seq::empty(), '.', '.');
    lemma_next_char(s, q, Seq::empty(), '/', '/');
    lemma_next_char(s, q, Seq::empty(), '|', '|');
    lemma_next_char(s, q, Seq::empty(), '&', '&');
    lemma_next_char(s, q, Seq::empty(), '+', '+');
    lemma_next_char(s, q, Seq::empty(), '-', '-');
    lemma_next_char(s, q, Seq::empty(), '*', '*');
    lemma_next_char(s, q, Seq::empty(), '%', '%');
    lemma_next_char(s, q, Seq::empty(), '^', '^');
    lemma_next_char(s, q, Seq::empty(), '~', '~');
    lemma_next_char(s, q, Seq::empty(), '<', '<');
    lemma_next_char(s, q, Seq::empty(), '>', '>');
    lemma_next_char(s, q, Seq::empty(), '/', '/');
}

/// The operator of precedence `level` that is the next token, and where it
/// ends (see `binop_at`).
pub open spec fn spec_binop_at(s: Seq<char>, pos: int, level: int) -> Option<(BinOp, int)> {
    if level == 0 {
        match spec_keyword_at(s, pos, "or"@) {
            Some(e) => Some((BinOp::LogicalOr, e)),
            None => None,
        }
    } else if level == 1 {
        match spec_keyword_at(s, pos, "and"@) {
            Some(e) => Some((BinOp::LogicalAnd, e)),
            None => None,
        }
    } else if level == 2 {
        if let Some(e) = spec_sym2_at(s, pos, '<', '=') {
            Some((BinOp::LessEq, e))
        } else if let Some(e) = spec_sym2_at(s, pos, '>', '=') {
            Some((BinOp::GreaterEq, e))
        } else if let Some(e) = spec_sym2_at(s, pos, '~', '=') {
            Some((BinOp::NotEqual, e))
        } else if let Some(e) = spec_sym2_at(s, pos, '=', '=') {
            Some((BinOp::Equal, e))
        } else if spec_sym2_at(s, pos, '<', '<') is Some || spec_sym2_at(s, pos, '>', '>') is Some {
            None
        } else if let Some(e) = spec_sym1_at(s, pos, '<') {
            Some((BinOp::LessThan, e))
        } else if let Some(e) = spec_sym1_at(s, pos, '>') {
            Some((BinOp::GreaterThan, e))
        } else {
            None
        }
    } else if level == 3 {
        match spec_sym1_at(s, pos, '|') {
            Some(e) => Some((BinOp::BitOr, e)),
            None => None,
        }
    } else if level == 4 {
        if spec_sym2_at(s, pos, '~', '=') is Some {
            None
        } else {
            match spec_sym1_at(s, pos, '~') {
                Some(e) => Some((BinOp::BitXor, e)),
                None => None,
            }
        }
    } else if level == 5 {
        match spec_sym1_at(s, pos, '&') {
            Some(e) => Some((BinOp::BitAnd, e)),
            None => None,
        }
    } else if level == 6 {
        if let Some(e) = spec_sym2_at(s, pos, '<', '<') {
            Some((BinOp::ShiftLeft, e))
        } else if let Some(e) = spec_sym2_at(s, pos, '>', '>') {
            Some((BinOp::ShiftRight, e))
        } else {
            None
        }
    } else if level == 7 {
        match spec_sym2_at(s, pos, '.', '.') {
            Some(e) => if e < s.len() && s[e] == '.' {
                None
            } else {
                Some((BinOp::Concat, e))
            },
            None => None,
        }
    } else if level == 8 {
        if let Some(e) = spec_sym1_at(s, pos, '+') {
            Some((BinOp::Add, e))
        } else if let Some(e) = spec_sym1_at(s, pos, '-') {
            Some((BinOp::Sub, e))
        } else {
            None
        }
    } else {
        if let Some(e) = spec_sym2_at(s, pos, '/', '/') {
            Some((BinOp::IntegerDiv, e))
        } else if let Some(e) = spec_sym1_at(s, pos, '*') {
            Some((BinOp::Mult, e))
        } else if let Some(e) = spec_sym1_at(s, pos, '/') {
            Some((BinOp::Div, e))
        } else if let Some(e) = spec_sym1_at(s, pos, '%') {
            Some((BinOp::Mod, e))
        } else {
            None
        }
    }
}

/// The operator of precedence `level` that is the next token, and where it
/// ends. Levels, loosest first: `or`; `and`; comparisons; `|`; `~`; `&`;
/// shifts; `..`; `+ -`; `* / // %`.
fn binop_at(s: &Vec<char>, pos: usize, level: u8) -> (r: Option<(BinOp, usize)>)
    requires
        pos <= s@.len(),
        level <= 9,
    ensures
        r matches Some((_, e)) ==> pos < e <= s@.len(),
        r matches Some((op, _)) ==> spec_prec(op) == level,
        match spec_binop_at(s@, pos as int, level as int) {
            Some((op, e)) => r matches Some((op2, e2)) && op2 == op && e2 == e,
            None => r is None,
        },
{
    if level == 0 {
        match keyword(s, pos, "or") {
            Some(e) => Some((BinOp::LogicalOr, e)),
            None => None,
        }
    } else if level == 1 {
        match keyword(s, pos, "and") {
            Some(e) => Some((BinOp::LogicalAnd, e)),
            None => None,
        }
    } else if level == 2 {
        if let Some(e) = sym2(s, pos, '<', '=') {
            Some((BinOp::LessEq, e))
        } else if let Some(e) = sym2(s, pos, '>', '=') {
            Some((BinOp::GreaterEq, e))
        } else if let Some(e) = sym2(s, pos, '~', '=') {
            Some((BinOp::NotEqual, e))
        } else if let Some(e) = sym2(s, pos, '=', '=') {
            Some((BinOp::Equal, e))
        } else if sym2(s, pos, '<', '<').is_some() || sym2(s, pos, '>', '>').is_some() {
            None
        } else if let Some(e) = sym1(s, pos, '<') {
            Some((BinOp::LessThan, e))
        } else if let Some(e) = sym1(s, pos, '>') {
            Some((BinOp::GreaterThan, e))
        } else {
            None
        }
    } else if level == 3 {
        match sym1(s, pos, '|') {
            Some(e) => Some((BinOp::BitOr, e)),
            None => None,
        }
    } else if level == 4 {
        if sym2(s, pos, '~', '=').is_some() {
            None
        } else {
            match sym1(s, pos, '~') {
                Some(e) => Some((BinOp::BitXor, e)),
                None => None,
            }
        }
    } else if level == 5 {
        match sym1(s, pos, '&') {
            Some(e) => Some((BinOp::BitAnd, e)),
            None => None,
        }
    } else if level == 6 {
        if let Some(e) = sym2(s, pos, '<', '<') {
            Some((BinOp::ShiftLeft, e))
        } else if let Some(e) = sym2(s, pos, '>', '>') {
            Some((BinOp::ShiftRight, e))
        } else {
            None
        }
    } else if level == 7 {
        match sym2(s, pos, '.', '.') {
            Some(e) => if e < s.len() && s[e] == '.' {
                None
            } else {
                Some((BinOp::Concat, e))
            },
            None => None,
        }
    } else if level == 8 {
        if let Some(e) = sym1(s, pos, '+') {
            Some((BinOp::Add, e))
        } else if let Some(e) = sym1(s, pos, '-') {
            Some((BinOp::Sub, e))
        } else {
            None
        }
    } else {
        if let Some(e) = sym2(s, pos, '/', '/') {
            Some((BinOp::IntegerDiv, e))
        } else if let Some(e) = sym1(s, pos, '*') {
            Some((BinOp::Mult, e))
        } else if let Some(e) = sym1(s, pos, '/') {
            Some((BinOp::Div, e))
        } else if let Some(e) = sym1(s, pos, '%') {
            Some((BinOp::Mod, e))
        } else {
            None
        }
    }
}

/// An expression at the next token.
pub fn exp_at(s: &Vec<char>, pos: usize) -> (r: Option<(Expression, usize)>)
    requires
        pos <= s@.len(),
    ensures
        r matches Some((_, e)) ==> pos < e <= s@.len(),
        r matches Some((e, _)) ==> spec_respects_precedence(e),
        spec_simple_operand(s@, pos as int) ==> r is Some,
        spec_simple_operand(s@, pos as int) && spec_operator_free(s@, spec_operand_end(s@, pos as int))
            ==> (r matches Some((x, e)) && spec_operand_is(x, s@, pos as int) && e == spec_operand_end(
            s@,
            pos as int,
        )),
        spec_no_exp_start(s@, pos as int) ==> r is None,
    decreases s@.len() - pos, 80int,
{
    binary_at(s, pos, 0)
}

/// An expression whose operators bind at least as tightly as `level`.
/// `..` folds to the right; the other levels fold to the left.
fn binary_at(s: &Vec<char>, pos: usize, level: u8) -> (r: Option<(Expression, usize)>)
    requires
        pos <= s@.len(),
        level <= 10,
    ensures
        r matches Some((_, e)) ==> pos < e <= s@.len(),
        r matches Some((e, _)) ==> spec_respects_precedence(e) && spec_top(e) >= level,
        spec_simple_operand(s@, pos as int) ==> r is Some,
        spec_simple_operand(s@, pos as int) && spec_operator_free(s@, spec_operand_end(s@, pos as int))
            ==> (r matches Some((x, e)) && spec_operand_is(x, s@, pos as int) && e == spec_operand_end(
            s@,
            pos as int,
        )),
        spec_no_exp_start(s@, pos as int) ==> r is None,
    decreases s@.len() - pos, 70 - level,
{
    if level == 10 {
        return unary_at(s, pos);
    }
    let (first, mut p) = binary_at(s, pos, level + 1)?;
    let ghost exact = spec_simple_operand(s@, pos as int) && spec_operator_free(
        s@,
        spec_operand_end(s@, pos as int),
    );
    let ghost p0 = p;
    proof {
        if exact {
            lemma_operator_free(s@, p as int, level as int);
        }
    }
    if level == 7 {
        let mut rest: Vec<Expression> = Vec::new();
        loop
            invariant
                exact ==> p == p0 && rest@.len() == 0 && spec_binop_at(s@, p0 as int, 7) is None,
                pos < p <= s@.len(),
                spec_respects_precedence(first) && spec_top(first) >= 8,
                forall|k: int|
                    0 <= k < rest@.len() ==> spec_respects_precedence(#[trigger] rest@[k])
                        && spec_top(rest@[k]) >= 8,
            decreases s@.len() - p,
        {
            match binop_at(s, p, 7) {
                Some((_, q)) => match binary_at(s, q, 8) {
                    Some((e, q2)) => {
                        rest.push(e);
                        p = q2;
                    },
                    None => {
                        break ;
                    },
                },
                None => {
                    break ;
                },
            }
        }
        proof {
            let all = seq![first] + rest@;
            assert forall|k: int| 0 <= k < all.len() implies spec_respects_precedence(
                #[trigger] all[k],
            ) && spec_top(all[k]) > 7 by {
                if k > 0 {
                    assert(all[k] == rest@[k - 1]);
                }
            }
            lemma_foldr_respects(all);
        }
        assert(exact ==> (seq![first] + rest@).len() == 1 && (seq![first] + rest@)[0] == first);
        return Some((foldr_op_exp(first, BinOp::Concat, rest), p));
    }
    let mut pairs: Vec<(BinOp, Expression)> = Vec::new();
    loop
        invariant
            exact ==> p == p0 && pairs@.len() == 0 && spec_binop_at(s@, p0 as int, level as int) is None,
            pos < p <= s@.len(),
            level < 10,
            level != 7,
            spec_respects_precedence(first) && spec_top(first) > level,
            forall|k: int|
                0 <= k < pairs@.len() ==> spec_prec((#[trigger] pairs@[k]).0) == level
                    && spec_respects_precedence(pairs@[k].1) && spec_top(pairs@[k].1) > level,
        decreases s@.len() - p,
    {
        match binop_at(s, p, level) {
            Some((op, q)) => match binary_at(s, q, level + 1) {
                Some((e, q2)) => {
                    pairs.push((op, e));
                    p = q2;
                },
                None => {
                    break ;
                },
            },
            None => {
                break ;
            },
        }
    }
    proof {
        lemma_foldl_respects(first, pairs@, level as int);
    }
    Some((foldl_exp(first, pairs), p))
}

/// A unary operator (`-`, `not`, `#`, `~`) applied to a unary expression,
/// or a power expression.
fn unary_at(s: &Vec<char>, pos: usize) -> (r: Option<(Expression, usize)>)
    requires
        pos <= s@.len(),
    ensures
        r matches Some((_, e)) ==> pos < e <= s@.len(),
        r matches Some((e, _)) ==> spec_respects_precedence(e) && spec_top(e) >= 10,
        spec_simple_operand(s@, pos as int) ==> r is Some,
        spec_simple_operand(s@, pos as int) && spec_operator_free(s@, spec_operand_end(s@, pos as int))
            ==> (r matches Some((x, e)) && spec_operand_is(x, s@, pos as int) && e == spec_operand_end(
            s@,
            pos as int,
        )),
        spec_no_exp_start(s@, pos as int) ==> r is None,
        spec_unop_at(s@, pos as int) matches Some((op, q)) ==> (spec_simple_operand(s@, q) ==> r is Some),
        spec_unop_at(s@, pos as int) matches Some((op, q)) ==> (spec_simple_operand(s@, q)
            && spec_operator_free(s@, spec_operand_end(s@, q)) ==> (r matches Some(
            (Expression::UnaryOp((op2, x)), e),
        ) && op2 == op && spec_operand_is(*x, s@, q) && e == spec_operand_end(s@, q))),
    decreases s@.len() - pos, 50int,
{
    proof {
        lemma_operand_start(s@, pos as int);
    }
    let op = if let Some(e) = sym1(s, pos, '-') {
        Some((UnOp::Negate, e))
    } else if let Some(e) = keyword(s, pos, "not") {
        Some((UnOp::LogicalNot, e))
    } else if let Some(e) = sym1(s, pos, '#') {
        Some((UnOp::Length, e))
    } else if sym2(s, pos, '~', '=').is_some() {
        None
    } else if let Some(e) = sym1(s, pos, '~') {
        Some((UnOp::BitNot, e))
    } else {
        None
    };
    match op {
        Some((op, p)) => {
            let (e, q) = unary_at(s, p)?;
            Some((Expression::UnaryOp((op, Box::new(e))), q))
        },
        None => pow_at(s, pos),
    }
}

/// An atom, optionally raised (`^`, to the right) to a unary expression.
fn pow_at(s: &Vec<char>, pos: usize) -> (r: Option<(Expression, usize)>)
    requires
        pos <= s@.len(),
    ensures
        r matches Some((_, e)) ==> pos < e <= s@.len(),
        r matches Some((e, _)) ==> spec_respects_precedence(e) && spec_top(e) >= 11,
        spec_simple_operand(s@, pos as int) ==> r is Some,
        spec_simple_operand(s@, pos as int) && spec_operator_free(s@, spec_operand_end(s@, pos as int))
            ==> (r matches Some((x, e)) && spec_operand_is(x, s@, pos as int) && e == spec_operand_end(
            s@,
            pos as int,
        )),
        spec_no_exp_start(s@, pos as int) ==> r is None,
    decreases s@.len() - pos, 45int,
{
    let (base, p) = atom_at(s, pos)?;
    proof {
        lemma_operator_free_ends(s@, spec_operand_end(s@, pos as int));
    }
    match sym1(s, p, '^') {
        Some(q) => match unary_at(s, q) {
            Some((exponent, q2)) => Some(
                (Expression::BinaryOp((Box::new(base), BinOp::Pow, Box::new(exponent))), q2),
            ),
            None => Some((base, p)),
        },
        None => Some((base, p)),
    }
}

/// A simple expression: `nil`, `true`, `false`, a numeral, a string, `...`,
/// a function definition, a table constructor, or a prefix expression.
fn atom_at(s: &Vec<char>, pos: usize) -> (r: Option<(Expression, usize)>)
    requires
        pos <= s@.len(),
    ensures
        r matches Some((_, e)) ==> pos < e <= s@.len(),
        r matches Some((e, _)) ==> spec_top(e) == 12 && spec_respects_precedence(e),
        spec_keyword_at(s@, pos as int, "nil"@) matches Some(e) ==> (r matches Some((x, e2)) && x
            is Nil && e2 == e),
        spec_keyword_at(s@, pos as int, "nil"@) is None ==> (spec_keyword_at(
            s@,
            pos as int,
            "true"@,
        ) matches Some(e) ==> (r matches Some((x, e2)) && x is True && e2 == e)),
        spec_keyword_at(s@, pos as int, "nil"@) is None && spec_keyword_at(s@, pos as int, "true"@)
            is None ==> (spec_keyword_at(s@, pos as int, "false"@) matches Some(e) ==> (
        r matches Some((x, e2)) && x is False && e2 == e)),
        spec_keyword_at(s@, pos as int, "nil"@) is None && spec_keyword_at(s@, pos as int, "true"@)
            is None && spec_keyword_at(s@, pos as int, "false"@) is None ==> (spec_numeral_at(
            s@,
            pos as int,
        ) matches Some((is_float, v, e)) ==> (r matches Some((Expression::Numeral(n), e2)) && e2
            == e && if is_float {
            n matches Numeral::Float(t) && t@ == s@.subrange(spec_skip(s@, pos as int), e)
        } else {
            n matches Numeral::Integer(i) && i == v
        })),
        spec_keyword_at(s@, pos as int, "nil"@) is None && spec_keyword_at(s@, pos as int, "true"@)
            is None && spec_keyword_at(s@, pos as int, "false"@) is None && spec_numeral_at(
            s@,
            pos as int,
        ) is None ==> (spec_string_at(s@, pos as int) matches Some((t, e)) ==> (r matches Some(
            (Expression::LiteralString(st), e2),
        ) && st@ == t && e2 == e)),
        spec_simple_operand(s@, pos as int) ==> r is Some,
        spec_simple_operand(s@, pos as int) && spec_no_suffix(s@, spec_operand_end(s@, pos as int)) ==> (
        r matches Some((x, e)) && spec_operand_is(x, s@, pos as int) && e == spec_operand_end(
            s@,
            pos as int,
        )),
        spec_no_exp_start(s@, pos as int) ==> r is None,
    decreases s@.len() - pos, 40int,
{
    proof {
        lemma_operand_start(s@, pos as int);
    }
    if let Some(e) = keyword(s, pos, "nil") {
        return Some((Expression::Nil, e));
    }
    if let Some(e) = keyword(s, pos, "true") {
        return Some((Expression::True, e));
    }
    if let Some(e) = keyword(s, pos, "false") {
        return Some((Expression::False, e));
    }
    if let Some((n, e)) = parse_numeral(s, pos) {
        return Some((Expression::Numeral(n), e));
    }
    if let Some((t, e)) = parse_string(s, pos) {
        return Some((Expression::LiteralString(t), e));
    }
    if let Some(e) = sym2(s, pos, '.', '.') {
        if e < s.len() && s[e] == '.' {
            return Some((Expression::DotDotDot, e + 1));
        }
    }
    if let Some(e) = keyword(s, pos, "function") {
        let (body, q) = funcbody_at(s, e)?;
        return Some((Expression::FunctionDef(body), q));
    }
    if sym1(s, pos, '{').is_some() {
        let (fields, q) = table_at(s, pos)?;
        return Some((Expression::TableConstructor(fields), q));
    }
    let (p, q) = prefixexp_at(s, pos)?;
    Some((Expression::PrefixExp(Box::new(p)), q))
}

/// A list of one or more expressions separated by commas.
pub fn explist_at(s: &Vec<char>, pos: usize) -> (r: Option<(Vec<Expression>, usize)>)
    requires
        pos <= s@.len(),
    ensures
        r matches Some((v, e)) ==> pos < e <= s@.len() && v@.len() >= 1,
        spec_simple_operand(s@, pos as int) ==> r is Some,
        spec_simple_operand(s@, pos as int) && spec_operator_free(s@, spec_operand_end(s@, pos as int))
            && spec_sym1_at(s@, spec_operand_end(s@, pos as int), ',') is None ==> (r matches Some((v, e))
            && v@.len() == 1 && spec_operand_is(v@[0], s@, pos as int) && e == spec_operand_end(
            s@,
            pos as int,
        )),
        spec_no_exp_start(s@, pos as int) ==> r is None,
    decreases s@.len() - pos, 82int,
{
    let (first, mut p) = exp_at(s, pos)?;
    let mut exps: Vec<Expression> = Vec::new();
    exps.push(first);
    let ghost one = spec_simple_operand(s@, pos as int) && spec_operator_free(
        s@,
        spec_operand_end(s@, pos as int),
    ) && spec_sym1_at(s@, spec_operand_end(s@, pos as int), ',') is None;
    let ghost p0 = p;
    loop
        invariant
            one ==> p == p0 && exps@ == seq![first] && spec_sym1_at(s@, p0 as int, ',') is None,
            pos < p <= s@.len(),
            exps@.len() >= 1,
        decreases s@.len() - p,
    {
        match sym1(s, p, ',') {
            Some(q) => match exp_at(s, q) {
                Some((e, q2)) => {
                    exps.push(e);
                    p = q2;
                },
                None => {
                    break ;
                },
            },
            None => {
                break ;
            },
        }
    }
    Some((exps, p))
}

} // verus!
