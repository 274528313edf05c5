use moonrust::ast::{
    Args, BinOp, Block, Expression, Field, FunctionCall, Numeral, ParList, PrefixExp, Statement,
    UnOp, Var,
};
use moonrust::parser::{parse, parse_exp, parse_stmt};
use moonrust::parser::ASTParseError;
use moonrust::AST;

fn ok<T>(rest: &str, t: T) -> Result<(String, T), ASTParseError> {
    Ok((String::from(rest), t))
}

fn name(n: &str) -> Var {
    Var::NameVar(String::from(n))
}

fn var_exp(n: &str) -> Expression {
    Expression::PrefixExp(Box::new(PrefixExp::Var(name(n))))
}

fn int_exp(i: i64) -> Expression {
    Expression::Numeral(Numeral::Integer(i))
}

fn float(t: &str) -> Expression {
    Expression::Numeral(Numeral::Float(String::from(t)))
}

fn bin(l: Expression, op: BinOp, r: Expression) -> Expression {
    Expression::BinaryOp((Box::new(l), op, Box::new(r)))
}

fn sum_statement() -> Statement {
    Statement::Assignment((
        vec![name("a")],
        vec![bin(bin(int_exp(3), BinOp::Add, int_exp(5)), BinOp::Add, float("10.0"))],
        false,
    ))
}

#[test]
fn accepts_ast() {
    let input = "
        a = 3 + 5 + 10.0
        a = 3 + 5 + 10.0
        a = 3 + 5 + 10.0
        ";
    let result = parse(input);
    assert_eq!(
        result,
        ok(
            "",
            AST(Block {
                statements: vec![sum_statement(), sum_statement(), sum_statement()],
                return_stat: None
            })
        )
    );
}

#[test]
fn accepts_nil() {
    assert_eq!(parse_exp("nil"), ok("", Expression::Nil));
    assert_eq!(parse_exp("    nil  "), ok("", Expression::Nil));
}

#[test]
fn accepts_bools() {
    assert_eq!(parse_exp("true"), ok("", Expression::True));
    assert_eq!(parse_exp("false"), ok("", Expression::False));
    assert_eq!(parse_exp("    true  "), ok("", Expression::True));
}

#[test]
fn accepts_numerals() {
    assert_eq!(parse_exp("123"), ok("", int_exp(123)));
    assert_eq!(parse_exp("    1.23  "), ok("", float("1.23")));
    assert_eq!(parse_exp("    6.02E23  "), ok("", float("6.02E23")));
}

#[test]
fn accepts_string_literals() {
    let result = parse_exp("    \"Foo bar baz!\"     ");
    assert_eq!(result, ok("", Expression::LiteralString(String::from("Foo bar baz!"))));

    let data = "\"tab:\\tafter tab, newline:\\nnew line, quote: \\\", emoji: \\u{1F602}, newline:\\nescaped whitespace: \\    abc\"";
    let expected = "tab:\tafter tab, newline:\nnew line, quote: \", emoji: 😂, newline:\nescaped whitespace: abc";
    assert_eq!(parse_exp(data), ok("", Expression::LiteralString(String::from(expected))));
}

#[test]
fn accepts_dotdotdot() {
    assert_eq!(parse_exp("  ...  "), ok("", Expression::DotDotDot));
}

fn color_table() -> Expression {
    Expression::TableConstructor(vec![
        Field::NameAssign((
            String::from("red"),
            Expression::LiteralString(String::from("#ff0000")),
        )),
        Field::BracketedAssign((int_exp(1), float("3.14159265"))),
        Field::UnnamedAssign(Expression::True),
    ])
}

#[test]
fn accepts_tableconstructor() {
    let input = "{red=\"#ff0000\",[1]=3.14159265,true}";
    assert_eq!(parse_exp(input), ok("", color_table()));

    let input = "{
            red=\"#ff0000\",
            [1]=3.14159265,
            true
        }";
    assert_eq!(parse_exp(input), ok("", color_table()));

    let input = "{
            red      =       \"#ff0000\"       ,
            [  1      ]  =    3.14159265    ,
            true
        }";
    assert_eq!(parse_exp(input), ok("", color_table()));
}

#[test]
fn accepts_binop_exp() {
    assert_eq!(parse_exp("1 + 2"), ok("", bin(int_exp(1), BinOp::Add, int_exp(2))));

    // Right associativity of `^`.
    assert_eq!(
        parse_exp("2 ^ 3 ^ 4"),
        ok("", bin(int_exp(2), BinOp::Pow, bin(int_exp(3), BinOp::Pow, int_exp(4))))
    );

    let result = parse_exp("(1 + 2)");
    println!("{:#?}", result);
}

#[test]
fn accepts_unop_exp() {
    assert_eq!(
        parse_exp("not not true"),
        ok(
            "",
            Expression::UnaryOp((
                UnOp::LogicalNot,
                Box::new(Expression::UnaryOp((UnOp::LogicalNot, Box::new(Expression::True))))
            ))
        )
    );
    assert_eq!(
        parse_exp("#\"wow!\""),
        ok(
            "",
            Expression::UnaryOp((
                UnOp::Length,
                Box::new(Expression::LiteralString(String::from("wow!")))
            ))
        )
    );
}

#[test]
fn accepts_simple_var() {
    assert_eq!(parse_exp("my_variable;"), ok(";", var_exp("my_variable")));
}

#[test]
fn expression_accepts_functioncall() {
    assert_eq!(
        parse_exp("launch_missiles( launch_code, 23 )"),
        ok(
            "",
            Expression::PrefixExp(Box::new(PrefixExp::FunctionCall(FunctionCall::Standard((
                Box::new(PrefixExp::Var(name("launch_missiles"))),
                Args::ExpList(vec![var_exp("launch_code"), int_exp(23)])
            )))))
        )
    );
}

#[test]
fn accepts_methodcall() {
    assert_eq!(
        parse_exp("government:launch_missiles(nil, ...)"),
        ok(
            "",
            Expression::PrefixExp(Box::new(PrefixExp::FunctionCall(FunctionCall::Method((
                Box::new(PrefixExp::Var(name("government"))),
                String::from("launch_missiles"),
                Args::ExpList(vec![Expression::Nil, Expression::DotDotDot])
            )))))
        )
    );
}

#[test]
fn accepts_semicolon() {
    assert_eq!(parse_stmt(";"), ok("", Statement::Semicolon));
    assert_eq!(parse_stmt("     ;     "), ok("", Statement::Semicolon));
}

#[test]
fn accepts_assignment() {
    assert_eq!(
        parse_stmt("local   r,v  "),
        ok(
            "",
            Statement::Assignment((
                vec![name("r"), name("v")],
                vec![Expression::Nil, Expression::Nil],
                true,
            ))
        )
    );
}

#[test]
fn statement_accepts_functioncall() {
    assert_eq!(
        parse_stmt("do_thing(true, false)"),
        ok(
            "",
            Statement::FunctionCall(FunctionCall::Standard((
                Box::new(PrefixExp::Var(name("do_thing"))),
                Args::ExpList(vec![Expression::True, Expression::False]),
            )))
        )
    );
}

#[test]
fn accepts_break() {
    assert_eq!(parse_stmt("break"), ok("", Statement::Break));
    assert_eq!(parse_stmt("     break     "), ok("", Statement::Break));
}

#[test]
fn accepts_do_block() {
    let input = "do 
            local a = 1
            b = a + 3
        end";
    let expected = Statement::DoBlock(Block {
        statements: vec![
            Statement::Assignment((vec![name("a")], vec![int_exp(1)], true)),
            Statement::Assignment((vec![name("b")], vec![bin(var_exp("a"), BinOp::Add, int_exp(3))], false)),
        ],
        return_stat: None,
    });
    assert_eq!(parse_stmt(input), ok("", expected));
}

fn print_call(arg: Expression) -> Statement {
    Statement::FunctionCall(FunctionCall::Standard((
        Box::new(PrefixExp::Var(name("print"))),
        Args::ExpList(vec![arg]),
    )))
}

#[test]
fn accepts_while() {
    let input = "while i <= x do
            local x = i*2
            print(x)
            i = i + 1
        end
        ";
    let expected = Statement::While((
        bin(var_exp("i"), BinOp::LessEq, var_exp("x")),
        Block {
            statements: vec![
                Statement::Assignment((vec![name("x")], vec![bin(var_exp("i"), BinOp::Mult, int_exp(2))], true)),
                print_call(var_exp("x")),
                Statement::Assignment((vec![name("i")], vec![bin(var_exp("i"), BinOp::Add, int_exp(1))], false)),
            ],
            return_stat: None,
        },
    ));
    assert_eq!(parse_stmt(input), ok("", expected));
}

#[test]
fn accepts_repeat() {
    let input = "
            repeat
                a = a + 1
                until(a > 15)
        ";
    let expected = Statement::Repeat((
        Block {
            statements: vec![Statement::Assignment((
                vec![name("a")],
                vec![bin(var_exp("a"), BinOp::Add, int_exp(1))],
                false,
            ))],
            return_stat: None,
        },
        Expression::PrefixExp(Box::new(PrefixExp::Exp(bin(var_exp("a"), BinOp::GreaterThan, int_exp(15))))),
    ));
    assert_eq!(parse_stmt(input), ok("", expected));
}

fn returning(s: &str) -> Block {
    Block {
        statements: vec![],
        return_stat: Some(vec![Expression::LiteralString(String::from(s))]),
    }
}

#[test]
fn accepts_if() {
    let input = "
            if(c < 43)
            then
                return \"yes\"
            elseif (c > 43)
            then
                return \"no\"
            else
                return \"maybe\"
            end
        ";
    let expected = Statement::If((
        Expression::PrefixExp(Box::new(PrefixExp::Exp(bin(var_exp("c"), BinOp::LessThan, int_exp(43))))),
        returning("yes"),
        vec![(
            Expression::PrefixExp(Box::new(PrefixExp::Exp(bin(var_exp("c"), BinOp::GreaterThan, int_exp(43))))),
            returning("no"),
        )],
        Some(returning("maybe")),
    ));
    assert_eq!(parse_stmt(input), ok("", expected));
}

#[test]
fn accepts_for_num() {
    let input = "
            for i = 10,1,-1
            do
                print(i)
            end
        ";
    let expected = Statement::ForNum((
        String::from("i"),
        int_exp(10),
        int_exp(1),
        Some(Expression::UnaryOp((UnOp::Negate, Box::new(int_exp(1))))),
        Block { statements: vec![print_call(var_exp("i"))], return_stat: None },
    ));
    assert_eq!(parse_stmt(input), ok("", expected));
}

#[test]
fn accepts_for_generic() {
    let input = "
            for index, name in names do
                print(name)
                print(index)
            end
        ";
    let expected = Statement::ForGeneric((
        vec![String::from("index"), String::from("name")],
        vec![var_exp("names")],
        Block {
            statements: vec![print_call(var_exp("name")), print_call(var_exp("index"))],
            return_stat: None,
        },
    ));
    assert_eq!(parse_stmt(input), ok("", expected));
}

#[test]
fn accepts_function_decl() {
    let input = "
            function num(num1)

                return num1; 
            end
        ";
    let expected = Statement::FunctionDecl((
        String::from("num"),
        ParList(vec![String::from("num1")], false),
        Block { statements: vec![], return_stat: Some(vec![var_exp("num1")]) },
    ));
    assert_eq!(parse_stmt(input), ok("", expected));
}

#[test]
fn accepts_local_func_def() {
    let input = "
            local function fact(n)
                if n == 0 then return 1
                end
            end 
        ";
    let expected = Statement::LocalFuncDecl((
        String::from("fact"),
        ParList(vec![String::from("n")], false),
        Block {
            statements: vec![Statement::If((
                bin(var_exp("n"), BinOp::Equal, int_exp(0)),
                Block { statements: vec![], return_stat: Some(vec![int_exp(1)]) },
                vec![],
                None,
            ))],
            return_stat: None,
        },
    ));
    assert_eq!(parse_stmt(input), ok("", expected));
}
