use crate::text::{int_to_chars, push_chars, push_str, spec_int_text, chars_to_string};
use vstd::prelude::*;

verus! {

/// A Lua statement.
#[derive(Debug, PartialEq)]
pub enum Statement {
    /// Variables, expressions, and whether the assignment is `local`.
    Assignment((Vec<Var>, Vec<Expression>, bool)),
    FunctionCall(FunctionCall),
    Break,
    DoBlock(Block),
    While((Expression, Block)),
    Repeat((Block, Expression)),
    If((Expression, Block, Vec<(Expression, Block)>, Option<Block>)),
    ForNum((String, Expression, Expression, Option<Expression>, Block)),
    ForGeneric((Vec<String>, Vec<Expression>, Block)),
    FunctionDecl((String, ParList, Block)),
    LocalFuncDecl((String, ParList, Block)),
    Semicolon,
}

/// A Lua expression.
#[derive(Debug, PartialEq)]
pub enum Expression {
    Nil,
    False,
    True,
    Numeral(Numeral),
    LiteralString(String),
    /// Variable number of arguments (`...`).
    DotDotDot,
    FunctionDef((ParList, Block)),
    PrefixExp(Box<PrefixExp>),
    TableConstructor(Vec<Field>),
    BinaryOp((Box<Expression>, BinOp, Box<Expression>)),
    UnaryOp((UnOp, Box<Expression>)),
}

/// Binary operators, from lowest to highest precedence group.
#[derive(Debug, PartialEq, Eq, Clone, Copy, Structural)]
pub enum BinOp {
    Add,
    Sub,
    Mult,
    Div,
    IntegerDiv,
    Pow,
    Mod,
    BitAnd,
    BitXor,
    BitOr,
    ShiftRight,
    ShiftLeft,
    Concat,
    LessThan,
    LessEq,
    GreaterThan,
    GreaterEq,
    Equal,
    NotEqual,
    LogicalAnd,
    LogicalOr,
}

/// Unary operators.
#[derive(Debug, PartialEq, Eq, Clone, Copy, Structural)]
pub enum UnOp {
    Negate,
    LogicalNot,
    Length,
    BitNot,
}

/// A numeric literal. An integer literal holds its value; a float literal
/// holds its source text, which the float arithmetic of the host turns into
/// a number when the literal is evaluated.
#[derive(Debug, PartialEq)]
pub enum Numeral {
    Integer(i64),
    Float(String),
}

/// A prefix expression: a variable, a call, or a parenthesised expression.
#[derive(Debug, PartialEq)]
pub enum PrefixExp {
    Var(Var),
    FunctionCall(FunctionCall),
    Exp(Expression),
}

/// A function call, either `f(args)` or `obj:method(args)`.
#[derive(Debug, PartialEq)]
pub enum FunctionCall {
    Standard((Box<PrefixExp>, Args)),
    Method((Box<PrefixExp>, String, Args)),
}

/// The arguments of a call.
#[derive(Debug, PartialEq)]
pub enum Args {
    ExpList(Vec<Expression>),
    TableConstructor(Vec<Field>),
    LiteralString(String),
}

/// Parameter names, and whether the function takes varargs.
#[derive(Debug, PartialEq)]
pub struct ParList(pub Vec<String>, pub bool);

/// A field of a table constructor.
#[derive(Debug, PartialEq)]
pub enum Field {
    BracketedAssign((Expression, Expression)),
    NameAssign((String, Expression)),
    UnnamedAssign(Expression),
}

/// A variable: a name, `prefix[exp]` or `prefix.name`.
#[derive(Debug, PartialEq)]
pub enum Var {
    NameVar(String),
    BracketVar((Box<PrefixExp>, Expression)),
    DotVar((Box<PrefixExp>, String)),
}

/// Statements followed by an optional return statement.
#[derive(Debug, PartialEq)]
pub struct Block {
    pub statements: Vec<Statement>,
    pub return_stat: Option<Vec<Expression>>,
}

/// The root of a program: one block.
#[derive(Debug, PartialEq)]
pub struct AST(pub Block);


// ---------------------------------------------------------------------
// Lua source text of the syntax tree
// ---------------------------------------------------------------------

/// The text of a binary operator, with the spaces around it.
pub open spec fn spec_binop_text(op: BinOp) -> Seq<char> {
    match op {
        BinOp::Add => " + "@,
        BinOp::Sub => " - "@,
        BinOp::Mult => " * "@,
        BinOp::Div => " / "@,
        BinOp::IntegerDiv => " // "@,
        BinOp::Pow => " ^ "@,
        BinOp::Mod => " % "@,
        BinOp::BitAnd => " & "@,
        BinOp::BitXor => " ~ "@,
        BinOp::BitOr => " | "@,
        BinOp::ShiftRight => " >> "@,
        BinOp::ShiftLeft => " << "@,
        BinOp::Concat => " .. "@,
        BinOp::LessThan => " < "@,
        BinOp::LessEq => " <= "@,
        BinOp::GreaterThan => " > "@,
        BinOp::GreaterEq => " >= "@,
        BinOp::Equal => " == "@,
        BinOp::NotEqual => " ~= "@,
        BinOp::LogicalAnd => " and "@,
        BinOp::LogicalOr => " or "@,
    }
}

/// The text of a unary operator.
pub open spec fn spec_unop_text(op: UnOp) -> Seq<char> {
    match op {
        UnOp::Negate => "-"@,
        UnOp::LogicalNot => "not"@,
        UnOp::Length => "#"@,
        UnOp::BitNot => "~"@,
    }
}

/// The text of a numeral: the decimal value of an integer, the source
/// text of a float.
pub open spec fn spec_numeral_text(n: Numeral) -> Seq<char> {
    match n {
        Numeral::Integer(i) => spec_int_text(i as int),
        Numeral::Float(t) => t@,
    }
}

/// The separator of a list: `, ` or, between lines, `, ` and a newline.
pub open spec fn spec_separator(lines: bool) -> Seq<char> {
    if lines {
        ", \n"@
    } else {
        ", "@
    }
}

/// Texts joined by the list separator.
pub open spec fn spec_join(items: Seq<Seq<char>>, lines: bool) -> Seq<char>
    decreases items.len(),
{
    if items.len() == 0 {
        Seq::empty()
    } else if items.len() == 1 {
        items[0]
    } else {
        spec_join(items.drop_last(), lines) + spec_separator(lines) + items.last()
    }
}

/// Names joined by the list separator.
pub open spec fn spec_names_text(names: Seq<String>) -> Seq<char> {
    spec_join(names.map_values(|n: String| n@), false)
}

/// The text of a parameter list.
pub open spec fn spec_parlist_text(p: ParList) -> Seq<char> {
    if p.0@.len() == 0 {
        if p.1 {
            "..."@
        } else {
            Seq::empty()
        }
    } else if p.1 {
        spec_names_text(p.0@) + ", ..."@
    } else {
        spec_names_text(p.0@)
    }
}

/// The text of an expression.
pub open spec fn spec_exp_text(e: Expression) -> Seq<char>
    decreases e,
{
    match e {
        Expression::Nil => "nil"@,
        Expression::False => "false"@,
        Expression::True => "true"@,
        Expression::Numeral(n) => spec_numeral_text(n),
        Expression::LiteralString(s) => seq!['"'] + s@ + seq!['"'],
        Expression::DotDotDot => "..."@,
        Expression::FunctionDef((p, b)) => "function("@ + spec_parlist_text(p) + ")\n"@
            + spec_block_text(b) + "end\n"@,
        Expression::PrefixExp(pe) => spec_pexp_text(*pe),
        Expression::TableConstructor(fields) => "{\n"@ + spec_fields_text(fields@) + "}\n"@,
        Expression::BinaryOp((l, op, r)) => spec_exp_text(*l) + spec_binop_text(op)
            + spec_exp_text(*r),
        Expression::UnaryOp((op, x)) => spec_unop_text(op) + spec_exp_text(*x),
    }
}

/// Expressions joined by the list separator.
pub open spec fn spec_exps_text(es: Seq<Expression>) -> Seq<char>
    decreases es,
{
    if es.len() == 0 {
        Seq::empty()
    } else if es.len() == 1 {
        spec_exp_text(es[0])
    } else {
        spec_exps_text(es.drop_last()) + ", "@ + spec_exp_text(es.last())
    }
}

/// Expressions written one after another, as in a return statement.
pub open spec fn spec_exps_concat(es: Seq<Expression>) -> Seq<char>
    decreases es,
{
    if es.len() == 0 {
        Seq::empty()
    } else {
        spec_exps_concat(es.drop_last()) + spec_exp_text(es.last())
    }
}

/// The text of a field of a table constructor.
pub open spec fn spec_field_text(f: Field) -> Seq<char>
    decreases f,
{
    match f {
        Field::BracketedAssign((k, v)) => "["@ + spec_exp_text(k) + "] = "@ + spec_exp_text(v),
        Field::NameAssign((n, v)) => n@ + " = "@ + spec_exp_text(v),
        Field::UnnamedAssign(v) => spec_exp_text(v),
    }
}

/// Fields, one per line.
pub open spec fn spec_fields_text(fs: Seq<Field>) -> Seq<char>
    decreases fs,
{
    if fs.len() == 0 {
        Seq::empty()
    } else if fs.len() == 1 {
        spec_field_text(fs[0])
    } else {
        spec_fields_text(fs.drop_last()) + ", \n"@ + spec_field_text(fs.last())
    }
}

/// The text of a prefix expression (a parenthesised expression is written
/// without its parentheses).
pub open spec fn spec_pexp_text(p: PrefixExp) -> Seq<char>
    decreases p,
{
    match p {
        PrefixExp::Var(v) => spec_var_text(v),
        PrefixExp::FunctionCall(c) => spec_call_text(c),
        PrefixExp::Exp(e) => spec_exp_text(e),
    }
}

/// The text of a variable.
pub open spec fn spec_var_text(v: Var) -> Seq<char>
    decreases v,
{
    match v {
        Var::NameVar(n) => n@,
        Var::BracketVar((p, e)) => spec_pexp_text(*p) + "["@ + spec_exp_text(e) + "]"@,
        Var::DotVar((p, n)) => spec_pexp_text(*p) + "."@ + n@,
    }
}

/// Variables joined by the list separator.
pub open spec fn spec_vars_text(vs: Seq<Var>) -> Seq<char>
    decreases vs,
{
    if vs.len() == 0 {
        Seq::empty()
    } else if vs.len() == 1 {
        spec_var_text(vs[0])
    } else {
        spec_vars_text(vs.drop_last()) + ", "@ + spec_var_text(vs.last())
    }
}

/// The text of a call.
pub open spec fn spec_call_text(c: FunctionCall) -> Seq<char>
    decreases c,
{
    match c {
        FunctionCall::Standard((p, a)) => spec_pexp_text(*p) + spec_args_text(a),
        FunctionCall::Method((p, n, a)) => spec_pexp_text(*p) + ":"@ + n@ + spec_args_text(a),
    }
}

/// The text of the arguments of a call.
pub open spec fn spec_args_text(a: Args) -> Seq<char>
    decreases a,
{
    match a {
        Args::ExpList(es) => "("@ + spec_exps_text(es@) + ")"@,
        Args::TableConstructor(fs) => "{\n"@ + spec_fields_text(fs@) + "}\n"@,
        Args::LiteralString(s) => seq!['"'] + s@ + seq!['"'],
    }
}

/// The text of a block: each statement indented, then the return
/// statement.
pub open spec fn spec_block_text(b: Block) -> Seq<char>
    decreases b,
{
    spec_stmts_text(b.statements@) + match b.return_stat {
        Some(es) => "    return "@ + spec_exps_concat(es@),
        None => Seq::empty(),
    }
}

/// Statements, each indented.
pub open spec fn spec_stmts_text(ss: Seq<Statement>) -> Seq<char>
    decreases ss,
{
    if ss.len() == 0 {
        Seq::empty()
    } else {
        spec_stmts_text(ss.drop_last()) + "    "@ + spec_stmt_body(ss.last()) + "\n"@
    }
}

/// The `elseif` parts of an if statement.
pub open spec fn spec_elseifs_text(es: Seq<(Expression, Block)>) -> Seq<char>
    decreases es,
{
    if es.len() == 0 {
        Seq::empty()
    } else {
        spec_elseifs_text(es.drop_last()) + "elseif "@ + spec_exp_text(es.last().0) + " then\n"@
            + spec_block_text(es.last().1)
    }
}

/// The text of a statement, ending with a newline.
pub open spec fn spec_stmt_text(s: Statement) -> Seq<char> {
    spec_stmt_body(s) + "\n"@
}

/// The text of a statement, without the final newline.
pub open spec fn spec_stmt_body(s: Statement) -> Seq<char>
    decreases s,
{
    match s {
        Statement::Assignment((vs, es, local)) => (if local {
            "local "@
        } else {
            Seq::empty()
        }) + spec_vars_text(vs@) + " = "@ + spec_exps_text(es@),
        Statement::FunctionCall(c) => spec_call_text(c),
        Statement::Break => "break"@,
        Statement::DoBlock(b) => "do\n"@ + spec_block_text(b) + "end"@,
        Statement::While((e, b)) => "while "@ + spec_exp_text(e) + " do\n"@ + spec_block_text(b)
            + "end"@,
        Statement::Repeat((b, e)) => "repeat\n"@ + spec_block_text(b) + "until "@ + spec_exp_text(
            e,
        ),
        Statement::If((c, b, eis, els)) => "if "@ + spec_exp_text(c) + " then\n"@
            + spec_block_text(b) + spec_elseifs_text(eis@) + match els {
            Some(eb) => "else\n"@ + spec_block_text(eb),
            None => Seq::empty(),
        } + " end"@,
        Statement::ForNum((n, e1, e2, e3, b)) => "for "@ + n@ + " = "@ + spec_exp_text(e1)
            + ", "@ + spec_exp_text(e2) + match e3 {
            Some(e) => ", "@ + spec_exp_text(e),
            None => Seq::empty(),
        } + " do\n"@ + spec_block_text(b) + "end"@,
        Statement::ForGeneric((ns, es, b)) => "for "@ + spec_names_text(ns@) + " in "@
            + spec_exps_text(es@) + " do\n"@ + spec_block_text(b) + "end"@,
        Statement::FunctionDecl((n, p, b)) => "function "@ + n@ + "("@ + spec_parlist_text(p)
            + ")\n"@ + spec_block_text(b) + "end"@,
        Statement::LocalFuncDecl((n, p, b)) => "local function "@ + n@ + "("@
            + spec_parlist_text(p) + ")\n"@ + spec_block_text(b) + "end"@,
        Statement::Semicolon => ";"@,
    }
}


proof fn lemma_take_all<T>(s: Seq<T>)
    ensures
        s.take(s.len() as int) == s,
{
    assert(s.take(s.len() as int) =~= s);
}

proof fn lemma_take_last<T>(s: Seq<T>, i: int)
    requires
        0 < i <= s.len(),
    ensures
        s.take(i).drop_last() == s.take(i - 1),
        s.take(i).last() == s[i - 1],
        s.take(i).len() == i,
{
    assert(s.take(i).drop_last() =~= s.take(i - 1));
}

impl BinOp {
    /// The operator as written between its operands, with spaces.
    pub fn text(&self) -> (s: &'static str)
        ensures
            s@ == spec_binop_text(*self),
    {
        match self {
            BinOp::Add => " + ",
            BinOp::Sub => " - ",
            BinOp::Mult => " * ",
            BinOp::Div => " / ",
            BinOp::IntegerDiv => " // ",
            BinOp::Pow => " ^ ",
            BinOp::Mod => " % ",
            BinOp::BitAnd => " & ",
            BinOp::BitXor => " ~ ",
            BinOp::BitOr => " | ",
            BinOp::ShiftRight => " >> ",
            BinOp::ShiftLeft => " << ",
            BinOp::Concat => " .. ",
            BinOp::LessThan => " < ",
            BinOp::LessEq => " <= ",
            BinOp::GreaterThan => " > ",
            BinOp::GreaterEq => " >= ",
            BinOp::Equal => " == ",
            BinOp::NotEqual => " ~= ",
            BinOp::LogicalAnd => " and ",
            BinOp::LogicalOr => " or ",
        }
    }

    /// The operator as text.
    pub fn to_lua_string(&self) -> (s: String)
        ensures
            s@ == spec_binop_text(*self),
    {
        String::from_str(self.text())
    }
}

impl UnOp {
    /// The operator as written before its operand.
    pub fn text(&self) -> (s: &'static str)
        ensures
            s@ == spec_unop_text(*self),
    {
        match self {
            UnOp::Negate => "-",
            UnOp::LogicalNot => "not",
            UnOp::Length => "#",
            UnOp::BitNot => "~",
        }
    }

    /// The operator as text.
    pub fn to_lua_string(&self) -> (s: String)
        ensures
            s@ == spec_unop_text(*self),
    {
        String::from_str(self.text())
    }
}

/// Texts joined by `, ` (or by `, ` and a newline when `lines` holds).
pub fn format_list(elements: &Vec<String>, lines: bool) -> (s: String)
    ensures
        s@ == spec_join(elements@.map_values(|e: String| e@), lines),
{
    let ghost items = elements@.map_values(|e: String| e@);
    let mut out: Vec<char> = Vec::new();
    let mut i: usize = 0;
    while i < elements.len()
        invariant
            i <= elements@.len(),
            items == elements@.map_values(|e: String| e@),
            out@ == spec_join(items.take(i as int), lines),
        decreases elements@.len() - i,
    {
        proof {
            lemma_take_last(items, (i + 1) as int);
        }
        if i > 0 {
            if lines {
                push_str(&mut out, ", \n");
            } else {
                push_str(&mut out, ", ");
            }
        } else {
            assert(items.take(0) =~= Seq::<Seq<char>>::empty());
        }
        push_str(&mut out, elements[i].as_str());
        i = i + 1;
    }
    proof {
        lemma_take_all(items);
    }
    chars_to_string(out.as_slice())
}

fn write_names(names: &Vec<String>, out: &mut Vec<char>)
    ensures
        final(out)@ == old(out)@ + spec_names_text(names@),
{
    let ghost items = names@.map_values(|n: String| n@);
    let mut i: usize = 0;
    while i < names.len()
        invariant
            i <= names@.len(),
            items == names@.map_values(|n: String| n@),
            out@ == old(out)@ + spec_join(items.take(i as int), false),
        decreases names@.len() - i,
    {
        proof {
            lemma_take_last(items, (i + 1) as int);
        }
        if i > 0 {
            push_str(out, ", ");
        } else {
            assert(items.take(0) =~= Seq::<Seq<char>>::empty());
        }
        push_str(out, names[i].as_str());
        i = i + 1;
    }
    proof {
        lemma_take_all(items);
    }
}

fn write_parlist(p: &ParList, out: &mut Vec<char>)
    ensures
        final(out)@ == old(out)@ + spec_parlist_text(*p),
{
    if p.0.len() == 0 {
        if p.1 {
            push_str(out, "...");
        } else {
            assert(out@ =~= old(out)@ + Seq::<char>::empty());
        }
    } else {
        write_names(&p.0, out);
        if p.1 {
            push_str(out, ", ...");
        }
    }
}

fn write_numeral(n: &Numeral, out: &mut Vec<char>)
    ensures
        final(out)@ == old(out)@ + spec_numeral_text(*n),
{
    match n {
        Numeral::Integer(i) => {
            let v = int_to_chars(*i);
            push_chars(out, &v);
        },
        Numeral::Float(t) => push_str(out, t.as_str()),
    }
}

fn write_quoted(s: &String, out: &mut Vec<char>)
    ensures
        final(out)@ == old(out)@ + seq!['"'] + s@ + seq!['"'],
{
    out.push('"');
    push_str(out, s.as_str());
    out.push('"');
}

fn write_exp(e: &Expression, out: &mut Vec<char>)
    ensures
        final(out)@ == old(out)@ + spec_exp_text(*e),
    decreases e,
{
    match e {
        Expression::Nil => push_str(out, "nil"),
        Expression::False => push_str(out, "false"),
        Expression::True => push_str(out, "true"),
        Expression::Numeral(n) => write_numeral(n, out),
        Expression::LiteralString(s) => write_quoted(s, out),
        Expression::DotDotDot => push_str(out, "..."),
        Expression::FunctionDef((p, b)) => {
            push_str(out, "function(");
            write_parlist(p, out);
            push_str(out, ")\n");
            write_block(b, out);
            push_str(out, "end\n");
        },
        Expression::PrefixExp(pe) => write_pexp(pe, out),
        Expression::TableConstructor(fields) => {
            push_str(out, "{\n");
            write_fields(fields, out);
            push_str(out, "}\n");
        },
        Expression::BinaryOp((l, op, r)) => {
            write_exp(l, out);
            push_str(out, op.text());
            write_exp(r, out);
        },
        Expression::UnaryOp((op, x)) => {
            push_str(out, op.text());
            write_exp(x, out);
        },
    }
}

fn write_exps(es: &Vec<Expression>, out: &mut Vec<char>)
    ensures
        final(out)@ == old(out)@ + spec_exps_text(es@),
    decreases es,
{
    let mut i: usize = 0;
    while i < es.len()
        invariant
            i <= es@.len(),
            out@ == old(out)@ + spec_exps_text(es@.take(i as int)),
        decreases es@.len() - i,
    {
        proof {
            lemma_take_last(es@, (i + 1) as int);
        }
        if i > 0 {
            push_str(out, ", ");
        } else {
            assert(es@.take(0) =~= Seq::<Expression>::empty());
        }
        write_exp(&es[i], out);
        i = i + 1;
    }
    proof {
        lemma_take_all(es@);
    }
}

fn write_exps_concat(es: &Vec<Expression>, out: &mut Vec<char>)
    ensures
        final(out)@ == old(out)@ + spec_exps_concat(es@),
    decreases es,
{
    let mut i: usize = 0;
    assert(es@.take(0) =~= Seq::<Expression>::empty());
    while i < es.len()
        invariant
            i <= es@.len(),
            out@ == old(out)@ + spec_exps_concat(es@.take(i as int)),
        decreases es@.len() - i,
    {
        proof {
            lemma_take_last(es@, (i + 1) as int);
        }
        write_exp(&es[i], out);
        i = i + 1;
    }
    proof {
        lemma_take_all(es@);
    }
}

fn write_field(f: &Field, out: &mut Vec<char>)
    ensures
        final(out)@ == old(out)@ + spec_field_text(*f),
    decreases f,
{
    match f {
        Field::BracketedAssign((k, v)) => {
            push_str(out, "[");
            write_exp(k, out);
            push_str(out, "] = ");
            write_exp(v, out);
        },
        Field::NameAssign((n, v)) => {
            push_str(out, n.as_str());
            push_str(out, " = ");
            write_exp(v, out);
        },
        Field::UnnamedAssign(v) => write_exp(v, out),
    }
}

fn write_fields(fs: &Vec<Field>, out: &mut Vec<char>)
    ensures
        final(out)@ == old(out)@ + spec_fields_text(fs@),
    decreases fs,
{
    let mut i: usize = 0;
    while i < fs.len()
        invariant
            i <= fs@.len(),
            out@ == old(out)@ + spec_fields_text(fs@.take(i as int)),
        decreases fs@.len() - i,
    {
        proof {
            lemma_take_last(fs@, (i + 1) as int);
        }
        if i > 0 {
            push_str(out, ", \n");
        } else {
            assert(fs@.take(0) =~= Seq::<Field>::empty());
        }
        write_field(&fs[i], out);
        i = i + 1;
    }
    proof {
        lemma_take_all(fs@);
    }
}

fn write_pexp(p: &PrefixExp, out: &mut Vec<char>)
    ensures
        final(out)@ == old(out)@ + spec_pexp_text(*p),
    decreases p,
{
    match p {
        PrefixExp::Var(v) => write_var(v, out),
        PrefixExp::FunctionCall(c) => write_call(c, out),
        PrefixExp::Exp(e) => write_exp(e, out),
    }
}

fn write_var(v: &Var, out: &mut Vec<char>)
    ensures
        final(out)@ == old(out)@ + spec_var_text(*v),
    decreases v,
{
    match v {
        Var::NameVar(n) => push_str(out, n.as_str()),
        Var::BracketVar((p, e)) => {
            write_pexp(p, out);
            push_str(out, "[");
            write_exp(e, out);
            push_str(out, "]");
        },
        Var::DotVar((p, n)) => {
            write_pexp(p, out);
            push_str(out, ".");
            push_str(out, n.as_str());
        },
    }
}

fn write_vars(vs: &Vec<Var>, out: &mut Vec<char>)
    ensures
        final(out)@ == old(out)@ + spec_vars_text(vs@),
    decreases vs,
{
    let mut i: usize = 0;
    while i < vs.len()
        invariant
            i <= vs@.len(),
            out@ == old(out)@ + spec_vars_text(vs@.take(i as int)),
        decreases vs@.len() - i,
    {
        proof {
            lemma_take_last(vs@, (i + 1) as int);
        }
        if i > 0 {
            push_str(out, ", ");
        } else {
            assert(vs@.take(0) =~= Seq::<Var>::empty());
        }
        write_var(&vs[i], out);
        i = i + 1;
    }
    proof {
        lemma_take_all(vs@);
    }
}

fn write_call(c: &FunctionCall, out: &mut Vec<char>)
    ensures
        final(out)@ == old(out)@ + spec_call_text(*c),
    decreases c,
{
    match c {
        FunctionCall::Standard((p, a)) => {
            write_pexp(p, out);
            write_args(a, out);
        },
        FunctionCall::Method((p, n, a)) => {
            write_pexp(p, out);
            push_str(out, ":");
            push_str(out, n.as_str());
            write_args(a, out);
        },
    }
}

fn write_args(a: &Args, out: &mut Vec<char>)
    ensures
        final(out)@ == old(out)@ + spec_args_text(*a),
    decreases a,
{
    match a {
        Args::ExpList(es) => {
            push_str(out, "(");
            write_exps(es, out);
            push_str(out, ")");
        },
        Args::TableConstructor(fs) => {
            push_str(out, "{\n");
            write_fields(fs, out);
            push_str(out, "}\n");
        },
        Args::LiteralString(s) => write_quoted(s, out),
    }
}

fn write_block(b: &Block, out: &mut Vec<char>)
    ensures
        final(out)@ == old(out)@ + spec_block_text(*b),
    decreases b,
{
    write_stmts(&b.statements, out);
    match &b.return_stat {
        Some(es) => {
            push_str(out, "    return ");
            write_exps_concat(es, out);
        },
        None => {
            assert(out@ =~= out@ + Seq::<char>::empty());
        },
    }
}

fn write_stmts(ss: &Vec<Statement>, out: &mut Vec<char>)
    ensures
        final(out)@ == old(out)@ + spec_stmts_text(ss@),
    decreases ss,
{
    let mut i: usize = 0;
    assert(ss@.take(0) =~= Seq::<Statement>::empty());
    while i < ss.len()
        invariant
            i <= ss@.len(),
            out@ == old(out)@ + spec_stmts_text(ss@.take(i as int)),
        decreases ss@.len() - i,
    {
        proof {
            lemma_take_last(ss@, (i + 1) as int);
        }
        push_str(out, "    ");
        write_stmt_body(&ss[i], out);
        push_str(out, "\n");
        i = i + 1;
    }
    proof {
        lemma_take_all(ss@);
    }
}

fn write_elseifs(es: &Vec<(Expression, Block)>, out: &mut Vec<char>)
    ensures
        final(out)@ == old(out)@ + spec_elseifs_text(es@),
    decreases es,
{
    let mut i: usize = 0;
    assert(es@.take(0) =~= Seq::<(Expression, Block)>::empty());
    while i < es.len()
        invariant
            i <= es@.len(),
            out@ == old(out)@ + spec_elseifs_text(es@.take(i as int)),
        decreases es@.len() - i,
    {
        proof {
            lemma_take_last(es@, (i + 1) as int);
        }
        push_str(out, "elseif ");
        write_exp(&es[i].0, out);
        push_str(out, " then\n");
        write_block(&es[i].1, out);
        i = i + 1;
    }
    proof {
        lemma_take_all(es@);
    }
}

fn write_stmt(s: &Statement, out: &mut Vec<char>)
    ensures
        final(out)@ == old(out)@ + spec_stmt_text(*s),
{
    write_stmt_body(s, out);
    push_str(out, "\n");
}

#[verifier::rlimit(100)]
#[verifier::spinoff_prover]
fn write_stmt_body(s: &Statement, out: &mut Vec<char>)
    ensures
        final(out)@ == old(out)@ + spec_stmt_body(*s),
    decreases s,
{
    match s {
        Statement::Assignment((vs, es, local)) => {
            if *local {
                push_str(out, "local ");
            }
            write_vars(vs, out);
            push_str(out, " = ");
            write_exps(es, out);
        },
        Statement::FunctionCall(c) => write_call(c, out),
        Statement::Break => push_str(out, "break"),
        Statement::DoBlock(b) => {
            push_str(out, "do\n");
            write_block(b, out);
            push_str(out, "end");
        },
        Statement::While((e, b)) => {
            push_str(out, "while ");
            write_exp(e, out);
            push_str(out, " do\n");
            write_block(b, out);
            push_str(out, "end");
        },
        Statement::Repeat((b, e)) => {
            push_str(out, "repeat\n");
            write_block(b, out);
            push_str(out, "until ");
            write_exp(e, out);
        },
        Statement::If((c, b, eis, els)) => {
            push_str(out, "if ");
            write_exp(c, out);
            push_str(out, " then\n");
            write_block(b, out);
            write_elseifs(eis, out);
            match els {
                Some(eb) => {
                    push_str(out, "else\n");
                    write_block(eb, out);
                },
                None => {},
            }
            push_str(out, " end");
        },
        Statement::ForNum((n, e1, e2, e3, b)) => {
            push_str(out, "for ");
            push_str(out, n.as_str());
            push_str(out, " = ");
            write_exp(e1, out);
            push_str(out, ", ");
            write_exp(e2, out);
            match e3 {
                Some(e) => {
                    push_str(out, ", ");
                    write_exp(e, out);
                },
                None => {},
            }
            push_str(out, " do\n");
            write_block(b, out);
            push_str(out, "end");
        },
        Statement::ForGeneric((ns, es, b)) => {
            push_str(out, "for ");
            write_names(ns, out);
            push_str(out, " in ");
            write_exps(es, out);
            push_str(out, " do\n");
            write_block(b, out);
            push_str(out, "end");
        },
        Statement::FunctionDecl((n, p, b)) => {
            push_str(out, "function ");
            push_str(out, n.as_str());
            push_str(out, "(");
            write_parlist(p, out);
            push_str(out, ")\n");
            write_block(b, out);
            push_str(out, "end");
        },
        Statement::LocalFuncDecl((n, p, b)) => {
            push_str(out, "local function ");
            push_str(out, n.as_str());
            push_str(out, "(");
            write_parlist(p, out);
            push_str(out, ")\n");
            write_block(b, out);
            push_str(out, "end");
        },
        Statement::Semicolon => push_str(out, ";"),
    }
}

/// The text of a whole program: its statements, then the expressions of
/// its return statement, then a newline.
pub open spec fn spec_ast_text(a: AST) -> Seq<char> {
    spec_stmts_plain(a.0.statements@) + match a.0.return_stat {
        Some(es) => spec_exps_concat(es@),
        None => Seq::empty(),
    } + "\n"@
}

/// Statements one after another, without indentation.
pub open spec fn spec_stmts_plain(ss: Seq<Statement>) -> Seq<char>
    decreases ss.len(),
{
    if ss.len() == 0 {
        Seq::empty()
    } else {
        spec_stmts_plain(ss.drop_last()) + spec_stmt_text(ss.last())
    }
}

impl Expression {
    /// The Lua text of this expression.
    pub fn to_lua_string(&self) -> (s: String)
        ensures
            s@ == spec_exp_text(*self),
    {
        let mut out: Vec<char> = Vec::new();
        write_exp(self, &mut out);
        assert(out@ =~= spec_exp_text(*self));
        chars_to_string(out.as_slice())
    }
}

impl Statement {
    /// The Lua text of this statement, ending with a newline.
    pub fn to_lua_string(&self) -> (s: String)
        ensures
            s@ == spec_stmt_text(*self),
    {
        let mut out: Vec<char> = Vec::new();
        write_stmt(self, &mut out);
        assert(out@ =~= spec_stmt_text(*self));
        chars_to_string(out.as_slice())
    }
}

impl Block {
    /// The Lua text of this block.
    pub fn to_lua_string(&self) -> (s: String)
        ensures
            s@ == spec_block_text(*self),
    {
        let mut out: Vec<char> = Vec::new();
        write_block(self, &mut out);
        assert(out@ =~= spec_block_text(*self));
        chars_to_string(out.as_slice())
    }
}

impl PrefixExp {
    /// The Lua text of this prefix expression.
    pub fn to_lua_string(&self) -> (s: String)
        ensures
            s@ == spec_pexp_text(*self),
    {
        let mut out: Vec<char> = Vec::new();
        write_pexp(self, &mut out);
        assert(out@ =~= spec_pexp_text(*self));
        chars_to_string(out.as_slice())
    }
}

impl AST {
    /// The Lua text of the whole program.
    pub fn to_lua_string(&self) -> (s: String)
        ensures
            s@ == spec_ast_text(*self),
    {
        let mut out: Vec<char> = Vec::new();
        let ss = &self.0.statements;
        let mut i: usize = 0;
        assert(ss@.take(0) =~= Seq::<Statement>::empty());
        while i < ss.len()
            invariant
                i <= ss@.len(),
                ss == &self.0.statements,
                out@ == spec_stmts_plain(ss@.take(i as int)),
            decreases ss@.len() - i,
        {
            proof {
                lemma_take_last(ss@, (i + 1) as int);
            }
            write_stmt(&ss[i], &mut out);
            i = i + 1;
        }
        proof {
            lemma_take_all(ss@);
        }
        match &self.0.return_stat {
            Some(es) => write_exps_concat(es, &mut out),
            None => {},
        }
        push_str(&mut out, "\n");
        assert(out@ =~= spec_ast_text(*self));
        chars_to_string(out.as_slice())
    }
}

} // verus!
