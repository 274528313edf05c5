use moonrust::ast::{BinOp, Expression, Numeral, PrefixExp, Statement, UnOp, Var};
use moonrust::interpreter::environment::Env;
use moonrust::interpreter::expression::first_value;
use moonrust::interpreter::float::FloatOps;
use moonrust::interpreter::{ASTExecError, Heap, LuaVal, LuaValue};
use moonrust::parser::expression::{foldl_exp, foldr_op_exp};
use moonrust::parser::{parse, parse_exp, parse_parlist, parse_stmt, ws};
use moonrust::AST;

struct F64;

fn f(a: u64) -> f64 {
    f64::from_bits(a)
}

impl FloatOps for F64 {
    fn parse_float(&self, text: &str) -> Option<u64> {
        text.parse::<f64>().ok().map(|x| x.to_bits())
    }
    fn from_int(&self, i: i64) -> u64 {
        (i as f64).to_bits()
    }
    fn add(&self, a: u64, b: u64) -> u64 {
        (f(a) + f(b)).to_bits()
    }
    fn sub(&self, a: u64, b: u64) -> u64 {
        (f(a) - f(b)).to_bits()
    }
    fn mul(&self, a: u64, b: u64) -> u64 {
        (f(a) * f(b)).to_bits()
    }
    fn div(&self, a: u64, b: u64) -> u64 {
        (f(a) / f(b)).to_bits()
    }
    fn pow(&self, a: u64, b: u64) -> u64 {
        f(a).powf(f(b)).to_bits()
    }
    fn rem(&self, a: u64, b: u64) -> u64 {
        (f(a) % f(b)).to_bits()
    }
    fn floor_div(&self, a: u64, b: u64) -> i64 {
        (f(a) / f(b)).floor() as i64
    }
    fn less_than(&self, a: u64, b: u64) -> bool {
        f(a) < f(b)
    }
    fn greater_than(&self, a: u64, b: u64) -> bool {
        f(a) > f(b)
    }
    fn equal(&self, a: u64, b: u64) -> bool {
        f(a) == f(b)
    }
    fn exact_int(&self, a: u64) -> Option<i64> {
        let x = f(a);
        if x.floor() == x.ceil() {
            Some(x.floor() as i64)
        } else {
            None
        }
    }
    fn integral_value(&self, a: u64) -> Option<i64> {
        let x = f(a);
        if x % 1.0 == 0.0 {
            Some(x as i64)
        } else {
            None
        }
    }
    fn floor_int(&self, a: u64) -> i64 {
        f(a).floor() as i64
    }
    fn ceil_int(&self, a: u64) -> i64 {
        f(a).ceil() as i64
    }
    fn to_text(&self, a: u64) -> String {
        let x = f(a);
        if x.floor() != x.ceil() {
            format!("{}", x)
        } else {
            format!("{:.1}", x)
        }
    }
}

/// Runs a program with the given input lines and step budget; gives the
/// result and the printed lines.
fn run_with(src: &str, input: Vec<String>, fuel: u64) -> (Result<(), ASTExecError>, Vec<String>) {
    let ast: AST = src.parse::<AST>().unwrap();
    let mut heap = Heap::new(input);
    let mut env = Env::new(&mut heap);
    let mut fuel = fuel;
    let r = ast.exec(&mut env, &mut heap, &F64, &mut fuel);
    let out = heap.output.clone();
    (r, out)
}

fn run(src: &str) -> (Result<(), ASTExecError>, Vec<String>) {
    run_with(src, Vec::new(), u64::MAX)
}

fn output(src: &str) -> Vec<String> {
    let (r, out) = run(src);
    assert_eq!(r, Ok(()), "program failed: {src}");
    out
}

fn lines(v: &[&str]) -> Vec<String> {
    v.iter().map(|s| s.to_string()).collect()
}

fn error_of(src: &str) -> String {
    match run(src).0 {
        Err(e) => e.0,
        Ok(()) => panic!("program did not fail: {src}"),
    }
}

fn int_exp(i: i64) -> Expression {
    Expression::Numeral(Numeral::Integer(i))
}

fn var_exp(n: &str) -> Expression {
    Expression::PrefixExp(Box::new(PrefixExp::Var(Var::NameVar(String::from(n)))))
}

fn bin(l: Expression, op: BinOp, r: Expression) -> Expression {
    Expression::BinaryOp((Box::new(l), op, Box::new(r)))
}

fn parsed(src: &str) -> Expression {
    match parse_exp(src) {
        Ok((rest, e)) => {
            assert_eq!(rest, "");
            e
        }
        Err(e) => panic!("no parse of {src}: {:?}", e),
    }
}

#[test]
fn constant_expressions_follow_precedence() {
    assert_eq!(output("print(1 + 2 * 3)"), lines(&["7"]));
    assert_eq!(output("print((1 + 2) * 3)"), lines(&["9"]));
    assert_eq!(output("print(2 - 3 - 4)"), lines(&["-5"]));
    assert_eq!(output("print(7 // 2, 7 % 2, -7 // 2, -7 % 2)"), lines(&["3 1 -4 1"]));
    assert_eq!(output("print(7 // -2, 7 % -2, -7 // -2, -7 % -2)"), lines(&["-4 -1 3 -1"]));
    assert_eq!(output("print(\"a\" .. \"b\" .. 1 .. 2)"), lines(&["ab12"]));
    assert_eq!(output("print(not nil, not 0, #\"abc\")"), lines(&["true false 3"]));
    assert_eq!(output("print(1 < 2, \"b\" < \"a\", 2 >= 2, 3 ~= 3)"), lines(&["true false true false"]));
    assert_eq!(output("print(6 & 3, 6 | 3, 6 ~ 3, 1 << 4, 256 >> 4, ~0)"), lines(&["2 7 5 16 16 -1"]));
}

#[test]
fn and_or_evaluate_the_right_operand_only_when_needed() {
    assert_eq!(output("print(false and (nil + nil))"), lines(&["false"]));
    assert_eq!(output("print(1 or (nil + nil))"), lines(&["1"]));
    assert_eq!(output("print(nil or 2, 1 and 2, false or nil)"), lines(&["2 2 nil"]));
    assert_eq!(error_of("print(true and (nil + nil))"), "Cannot execute opration on values that are not numbers");
}

#[test]
fn integer_errors() {
    assert_eq!(error_of("x = 1 // 0"), "Cannot divide an integer by zero");
    assert_eq!(error_of("x = 1 % 0"), "Cannot divide an integer by zero");
    assert_eq!(error_of("x = #5"), "Cannot get length of value that is not a string or table");
    assert_eq!(error_of("x = 1 < \"a\""), "Cannot compare two values due to types");
}

#[test]
fn integers_wrap_around_and_shifts_follow_lua() {
    assert_eq!(output("print(9223372036854775807 + 1)"), lines(&["-9223372036854775808"]));
    assert_eq!(output("print(-9223372036854775807 - 2)"), lines(&["9223372036854775807"]));
    assert_eq!(output("print(-(-9223372036854775807 - 1))"), lines(&["-9223372036854775808"]));
    assert_eq!(output("print(4611686018427387904 * 4)"), lines(&["0"]));
    assert_eq!(output("print((-9223372036854775807 - 1) // -1, (-9223372036854775807 - 1) % -1)"), lines(&["-9223372036854775808 0"]));
    assert_eq!(output("print(1 << 64, 1 >> 64, 1 << -1, 8 >> -1, 8 << -2)"), lines(&["0 0 0 16 2"]));
    assert_eq!(output("print(-1 >> 60, 1 << 63)"), lines(&["15 -9223372036854775808"]));
}

#[test]
fn float_arithmetic_goes_to_the_host() {
    assert_eq!(output("print(7 / 2, 2 ^ 3, 1.5 + 1)"), lines(&["3.5 8.0 2.5"]));
    assert_eq!(output("print(2.0 == 2, 1.5 < 2)"), lines(&["true true"]));
}

#[test]
fn assignment_is_read_back() {
    assert_eq!(output("x = 1 + 2 print(x)"), lines(&["3"]));
    assert_eq!(output("x, y = 1 print(x, y)"), lines(&["1 nil"]));
    assert_eq!(output("x, y = 1, 2, 3 print(x, y)"), lines(&["1 2"]));
    assert_eq!(output("print(undefined)"), lines(&["nil"]));
}

#[test]
fn locals_shadow_and_are_forgotten_after_their_block() {
    assert_eq!(output("x = 1 do local x = 2 y = x end print(x, y)"), lines(&["1 2"]));
    assert_eq!(output("x = 1 do x = 5 end print(x)"), lines(&["5"]));
    assert_eq!(output("local x = 1 do local x = 2 x = 3 end print(x)"), lines(&["1"]));
}

#[test]
fn block_closes_its_scope_and_opens_a_fresh_table() {
    let ast: AST = "do local a = 1 local function f() return a end end".parse::<AST>().unwrap();
    let mut heap = Heap::new(Vec::new());
    let mut env = Env::new(&mut heap);
    let before = (env.global, env.local.0.clone());
    let mut fuel = u64::MAX;
    assert_eq!(ast.exec(&mut env, &mut heap, &F64, &mut fuel), Ok(()));
    assert_eq!(env.global, before.0);
    assert_eq!(env.local.0.len(), before.1.len() + 1);
    assert_eq!(env.local.0[..before.1.len()], before.1[..]);
    assert!(matches!(env.local.0[before.1.len()], Some(t) if t.0 == heap.scopes.len() - 1));
    assert!(heap.scopes[heap.scopes.len() - 1].is_empty());
    assert_eq!(env.get(&heap, "a"), None);
}

#[test]
fn locals_declared_after_a_block_are_hidden_from_its_closures() {
    let src = "do local a = 1 function g() print(a) print(b) end end local b = 3 g()";
    assert_eq!(output(src), lines(&["1", "nil"]));
}

#[test]
fn a_return_inside_a_statement_ends_the_function() {
    assert_eq!(output("function f(x) if x > 0 then return 1 end return 0 end print(f(5)) print(f(-5))"), lines(&["1", "0"]));
    assert_eq!(output("function f() while true do return 7 end return 8 end print(f())"), lines(&["7"]));
}

#[test]
fn closures_see_later_changes_but_not_later_locals() {
    assert_eq!(
        output("local x = 1 local function f() return x end x = 2 print(f())"),
        lines(&["2"])
    );
    assert_eq!(
        output("local function f() return y end local y = 5 print(f())"),
        lines(&["nil"])
    );
    assert_eq!(
        output("function counter() local n = 0 return function() n = n + 1 return n end end c = counter() c() print(c())"),
        lines(&["2"])
    );
}

#[test]
fn tables_read_back_what_was_written() {
    assert_eq!(output("t = {} t.a = 1 t[\"b\"] = 2 t[1] = 3 print(t.a, t.b, t[1], t.c)"), lines(&["1 2 3 nil"]));
    assert_eq!(output("t = {x = 1} u = t u.x = 2 print(t.x)"), lines(&["2"]));
    assert_eq!(output("t = {1, 2, 3} print(#t)"), lines(&["3"]));
    assert_eq!(output("t = {1, 2, nil, 4} print(#t)"), lines(&["2"]));
    assert_eq!(output("t = {} print(#t)"), lines(&["0"]));
    assert_eq!(output("t = {} t[2.0] = 5 print(t[2])"), lines(&["5"]));
}

#[test]
fn table_errors() {
    assert_eq!(error_of("t = {[nil] = 1}"), "Field key 'nil' does not evaluate to a string or numeral");
    assert_eq!(error_of("x = 1 y = x.a"), "attempt to index a non-table value '1'");
}

#[test]
fn calls_and_methods() {
    assert_eq!(output("function add(a, b) return a + b end print(add(1, 2))"), lines(&["3"]));
    assert_eq!(
        error_of("function add(a, b) return a + b end x = add(1)"),
        "Cannot execute opration on values that are not numbers"
    );
    assert_eq!(output("function two() return 1, 2 end a, b = two() print(a, b)"), lines(&["1 2"]));
    assert_eq!(output("t = {} t.get = function() return 7 end print(t:get())"), lines(&["7"]));
    assert_eq!(error_of("t = {} x = t:nope()"), "could not find value 'nope' in table");
    assert_eq!(error_of("t = {v = 1} x = t:v()"), "the value 'v' is not a function");
    assert_eq!(error_of("x = 1 y = x:m()"), "table '1' doesn't exist");
    assert_eq!(
        error_of("x = 1 x()"),
        "Cannot call non-function value with arguments. RC: LuaNum([0, 0, 0, 0, 0, 0, 0, 1], false)"
    );
}

#[test]
fn loops() {
    assert_eq!(output("s = 0 for i = 1, 4 do s = s + i end print(s)"), lines(&["10"]));
    assert_eq!(output("for i = 3, 1, -1 do print(i) end"), lines(&["3", "2", "1"]));
    assert_eq!(output("i = 0 while i < 3 do i = i + 1 end print(i)"), lines(&["3"]));
    assert_eq!(output("i = 0 repeat local j = i i = i + 1 until j >= 2 print(i)"), lines(&["3"]));
    assert_eq!(output("for i = 1, 10 do if i == 3 then break end print(i) end"), lines(&["1", "2"]));
    assert_eq!(error_of("for i = 1, 2, 0 do end"), "Step value in for loop cannot be 0");
    assert_eq!(error_of("for i = 1.5, 2 do end"), "Initial value in for loop must be an integer");
    assert_eq!(error_of("for k, v in t do end"), "Generic for loop is not supported");
    assert_eq!(
        error_of("do break end"),
        "Break statement can only be used inside a while, repeat, or for loop"
    );
}

#[test]
fn steps_run_out() {
    assert_eq!(run_with("x = 1", Vec::new(), 0).0, Err(ASTExecError(String::from("Execution step limit reached"))));
    assert_eq!(
        run_with("while true do end", Vec::new(), 1000).0,
        Err(ASTExecError(String::from("Execution step limit reached")))
    );
}

#[test]
fn print_appends_lines_in_order() {
    assert_eq!(output("print(1) print(\"two\", nil) print()"), lines(&["1", "two nil", ""]));
    let vals = vec![
        LuaValue::new(LuaVal::LuaNum(1i64.to_be_bytes(), false)),
        LuaValue::new(LuaVal::LuaString(String::from("a"))),
        LuaValue::new(LuaVal::LuaNil),
        LuaValue::new(LuaVal::LuaBool(true)),
    ];
    assert_eq!(moonrust::ast::FunctionCall::print_fn(&vals, &F64), "1 a nil true");
}

#[test]
fn read_takes_input_lines() {
    let input = vec![String::from("  hello  "), String::from("42"), String::from("2.5"), String::from("x")];
    let (r, out) = run_with(
        "a = read() b = read(\"*number\") c = read(\"*number\") print(a, b + 1, c)",
        input.clone(),
        u64::MAX,
    );
    assert_eq!(r, Ok(()));
    assert_eq!(out, lines(&["hello 43 2.5"]));
    let (r, _) = run_with("a = read() b = read() c = read() d = read(\"*number\")", input.clone(), u64::MAX);
    assert_eq!(r, Err(ASTExecError(String::from("Invalid number"))));
    let (r, _) = run_with("a = read(\"*all\")", input, u64::MAX);
    assert_eq!(r, Err(ASTExecError(String::from("Cannot read from stdin with argument '*all'"))));
}

#[test]
fn random_stays_in_bounds() {
    for _ in 0..20 {
        let out = output("print(random(3))");
        let n: i64 = out[0].parse().unwrap();
        assert!((0..=3).contains(&n));
    }
    assert_eq!(output("print(random(0))"), lines(&["0"]));
    assert_eq!(error_of("x = random(-1)"), "Cannot generate random number with a negative bound");
    assert_eq!(error_of("x = random(1.5)"), "Cannot generate random number with float");
    assert_eq!(error_of("x = random()"), "random() requires at least one argument");
}

#[test]
fn varargs_are_not_evaluated() {
    assert_eq!(error_of("x = ..."), "Variable arguments (...) are not supported");
}

#[test]
fn parser_respects_precedence_and_associativity() {
    assert_eq!(
        parsed("1 + 2 * 3"),
        bin(int_exp(1), BinOp::Add, bin(int_exp(2), BinOp::Mult, int_exp(3)))
    );
    assert_eq!(
        parsed("1 - 2 - 3"),
        bin(bin(int_exp(1), BinOp::Sub, int_exp(2)), BinOp::Sub, int_exp(3))
    );
    assert_eq!(
        parsed("a .. b .. c"),
        bin(var_exp("a"), BinOp::Concat, bin(var_exp("b"), BinOp::Concat, var_exp("c")))
    );
    assert_eq!(
        parsed("-2 ^ 2"),
        Expression::UnaryOp((UnOp::Negate, Box::new(bin(int_exp(2), BinOp::Pow, int_exp(2)))))
    );
    assert_eq!(
        parsed("2 ^ -1"),
        bin(int_exp(2), BinOp::Pow, Expression::UnaryOp((UnOp::Negate, Box::new(int_exp(1)))))
    );
    assert_eq!(
        parsed("a or b and c"),
        bin(var_exp("a"), BinOp::LogicalOr, bin(var_exp("b"), BinOp::LogicalAnd, var_exp("c")))
    );
    assert_eq!(
        parsed("1 << 2 == 4"),
        bin(bin(int_exp(1), BinOp::ShiftLeft, int_exp(2)), BinOp::Equal, int_exp(4))
    );
    assert_eq!(parsed("a ~= b"), bin(var_exp("a"), BinOp::NotEqual, var_exp("b")));
    assert_eq!(parsed("a ~ b"), bin(var_exp("a"), BinOp::BitXor, var_exp("b")));
    assert_eq!(parsed("7 // 2"), bin(int_exp(7), BinOp::IntegerDiv, int_exp(2)));
}

#[test]
fn folds_nest_to_the_left_and_to_the_right() {
    let l = foldl_exp(int_exp(1), vec![(BinOp::Sub, int_exp(2)), (BinOp::Sub, int_exp(3))]);
    assert_eq!(l, bin(bin(int_exp(1), BinOp::Sub, int_exp(2)), BinOp::Sub, int_exp(3)));
    let r = foldr_op_exp(int_exp(1), BinOp::Pow, vec![int_exp(2), int_exp(3)]);
    assert_eq!(r, bin(int_exp(1), BinOp::Pow, bin(int_exp(2), BinOp::Pow, int_exp(3))));
    assert_eq!(foldl_exp(int_exp(1), vec![]), int_exp(1));
    assert_eq!(foldr_op_exp(int_exp(1), BinOp::Concat, vec![]), int_exp(1));
}

#[test]
fn numerals_and_strings() {
    assert_eq!(parsed("0x1F"), int_exp(31));
    assert_eq!(parsed("0xff_ff"), int_exp(65535));
    assert_eq!(parsed("9223372036854775807"), int_exp(i64::MAX));
    assert!(parse_exp("9223372036854775808").is_err());
    assert_eq!(parsed(".5"), Expression::Numeral(Numeral::Float(String::from(".5"))));
    assert_eq!(parsed("3e2"), Expression::Numeral(Numeral::Float(String::from("3e2"))));
    assert_eq!(parsed("1.25E-2"), Expression::Numeral(Numeral::Float(String::from("1.25E-2"))));
    assert_eq!(parsed("\"a\\\\b\\/c\""), Expression::LiteralString(String::from("a\\b/c")));
    assert!(parse_exp("\"bad \\q escape\"").is_err());
    assert!(parse_exp("\"\\u{110000}\"").is_err());
    assert!(parse_exp("\"unterminated").is_err());
}

#[test]
fn comments_and_keywords() {
    assert_eq!(ws("  -- a comment\n  --[[ a long\n comment ]] x"), "x");
    assert_eq!(output("-- first\nx = 1 --[[ second\n]] print(x) -- last"), lines(&["1"]));
    assert!(parse_exp("end").is_err());
    assert_eq!(parse_stmt("breakfast = 1").map(|(_, s)| matches!(s, Statement::Assignment(_))), Ok(true));
}

#[test]
fn programs_are_read_as_far_as_they_parse() {
    let ast: AST = "x = 1 )".parse::<AST>().unwrap();
    assert_eq!(ast.0.statements.len(), 1);
    assert_eq!(parse("x = 1 ) y = 2").unwrap().0, ") y = 2");
    assert_eq!(output("print(1) ) print(2)"), lines(&["1"]));
}

#[test]
fn first_value_of_nothing_is_nil() {
    assert_eq!(first_value(vec![]), LuaValue::new(LuaVal::LuaNil));
}

#[test]
fn read_lines_move_on_one_line_per_argument() {
    let input = vec![String::from(" a "), String::from("b\t"), String::from("c")];
    let (r, out) = run_with(
        "x, y = read(\"*line\", \"*line\") z = read() w = read() print(x, y, z, w == \"\")",
        input,
        u64::MAX,
    );
    assert_eq!(r, Ok(()));
    assert_eq!(out, lines(&["a b c true"]));
    let (r, _) = run_with("x = read(1)", Vec::new(), u64::MAX);
    assert_eq!(r, Err(ASTExecError(String::from("Cannot read with argument of LuaNum([0, 0, 0, 0, 0, 0, 0, 1], false)"))));
}

#[test]
fn conditions_made_of_constants() {
    assert_eq!(output("while false do print(1) end print(2)"), lines(&["2"]));
    assert_eq!(output("while nil do print(1) end"), lines(&[]));
    assert_eq!(output("if false then print(1) end print(2)"), lines(&["2"]));
    assert_eq!(error_of("while 1 // 0 do end"), "Cannot divide an integer by zero");
    assert_eq!(error_of("if 1 % 0 then print(1) else print(2) end"), "Cannot divide an integer by zero");
    assert_eq!(output("for i = 3, 1 do print(i) end print(0)"), lines(&["0"]));
    assert_eq!(output("for i = 1, 3, -1 do print(i) end"), lines(&[]));
    assert_eq!(error_of("for i = \"a\", 2 do end"), "Initial value in for loop must be an integer");
    assert_eq!(error_of("for i = 1, 2, \"x\" do end"), "Step value in for loop must be an integer");
    assert_eq!(error_of("for i = 1, \"z\" do end"), "Cannot compare values (types cannot be compared)");
    assert_eq!(error_of("for a, b in x, y do end"), "Generic for loop must use iterator function");
}

#[test]
fn declared_functions_are_found_by_name() {
    assert_eq!(output("function f() return 1 end print(f())"), lines(&["1"]));
    assert_eq!(output("local function g(x) return x end print(g(5))"), lines(&["5"]));
    assert_eq!(output("function f() return 1 end function f() return 2 end print(f())"), lines(&["2"]));
}

#[test]
fn field_assignment_is_read_back() {
    assert_eq!(output("t = {} t.x = 5 print(t.x, t.y)"), lines(&["5 nil"]));
    assert_eq!(output("t = {x = 1} t.x = \"a\" t.x = \"b\" print(t.x)"), lines(&["b"]));
    assert_eq!(error_of("t = {} t.x = 1 // 0"), "Cannot divide an integer by zero");
}

#[test]
fn calls_bind_parameters_to_arguments() {
    assert_eq!(output("function f(a, b) return b, a, 3 end print(f(1, 2))"), lines(&["2 1 3"]));
    assert_eq!(output("function g(a, b) return b end print(g(1))"), lines(&["nil"]));
    assert_eq!(output("function h(a, a) return a end print(h(1, 2))"), lines(&["2"]));
    assert_eq!(output("function k(a) return a end print(k(\"x\", 5))"), lines(&["x"]));
}

#[test]
fn parse_errors_name_what_was_expected_and_the_line() {
    assert_eq!(
        parse_exp(")").unwrap_err().0,
        "Parsing Error: expected an expression at line 1"
    );
    assert_eq!(
        parse_stmt("\n-- note\n\n)").unwrap_err().0,
        "Parsing Error: expected a statement at line 4"
    );
}

#[test]
fn the_first_word_decides_the_statement() {
    assert!(matches!(parse_stmt("while x do end").unwrap().1, Statement::While(_)));
    assert!(matches!(parse_stmt("local function f() end").unwrap().1, Statement::LocalFuncDecl(_)));
    assert!(matches!(parse_stmt("local a = 1").unwrap().1, Statement::Assignment((_, _, true))));
    assert!(matches!(parse_stmt("a = 1").unwrap().1, Statement::Assignment((_, _, false))));
    assert!(matches!(parse_stmt("f(1)").unwrap().1, Statement::FunctionCall(_)));
    assert!(matches!(parse_stmt("for i = 1, 2 do end").unwrap().1, Statement::ForNum(_)));
    assert!(matches!(parse_stmt("; x = 1").unwrap().1, Statement::Semicolon));
}

#[test]
fn expressions_over_names_use_the_values_bound() {
    assert_eq!(output("x = 5 y = x * 2 + 1 print(y, x .. \"!\", -x, not x)"), lines(&["11 5! -5 false"]));
    assert_eq!(output("local s = \"ab\" print(#s, s == \"ab\", u == nil)"), lines(&["2 true true"]));
    assert_eq!(error_of("x = {} y = x + 1"), "Cannot execute opration on values that are not numbers");
}

#[test]
fn functions_return_expressions_of_their_parameters() {
    assert_eq!(output("function add(a, b) return a + b, a * b end print(add(2, 3))"), lines(&["5 6"]));
    assert_eq!(output("function f(a) return a // 0 end x = 1 print(pcall)"), lines(&["nil"]));
    assert_eq!(error_of("function f(a) return a // 0 end y = f(1)"), "Cannot divide an integer by zero");
    assert_eq!(output("x = 4 function g(a, b) return b - a end print(g(x, x + 3))"), lines(&["3"]));
}

#[test]
fn table_constructors_store_their_fields() {
    assert_eq!(
        output("t = {10, 20, x = 30, [\"y\"] = 40, [5] = 50} print(t[1], t[2], t.x, t.y, t[5], t[3])"),
        lines(&["10 20 30 40 50 nil"])
    );
    assert_eq!(output("a = 7 t = {a, a + 1, [a] = a * 2, a = 0} print(t[1], t[2], t[7], t.a)"), lines(&["7 8 14 0"]));
    assert_eq!(output("t = {x = 1, x = 2} print(t.x)"), lines(&["2"]));
    assert_eq!(error_of("t = {[nil] = 1}"), "Field key 'nil' does not evaluate to a string or numeral");
    assert_eq!(error_of("t = {1, 2 // 0}"), "Cannot divide an integer by zero");
}

#[test]
fn fields_of_tables_are_read_in_expressions() {
    assert_eq!(output("t = {x = 1, 5, {y = 2}} print(t.x + t[1], t[2].y, t.z, t[\"x\"])"), lines(&["6 2 nil 1"]));
    assert_eq!(error_of("x = 5 y = x.f"), "attempt to index a non-table value '5'");
    assert_eq!(error_of("t = {} y = t[nil]"), "Field key 'nil' does not evaluate to a string or numeral");
    assert_eq!(output("t = {} t.n = 3 if t.n > 2 then print(\"big\") end"), lines(&["big"]));
}

#[test]
fn writes_to_fields_are_read_back() {
    assert_eq!(output("t = {a = {}} t.a.b = 5 t[1] = \"x\" t[\"k\"] = true print(t.a.b, t[1], t.k)"), lines(&["5 x true"]));
    assert_eq!(output("t = {} i = 2 t[i] = i * 10 t[i] = t[i] + 1 print(t[2])"), lines(&["21"]));
    assert_eq!(error_of("x = 1 x.y = 2"), "attempt to index a non-table value '1'");
}

#[test]
fn functions_stored_in_tables_are_called() {
    assert_eq!(output("t = {} t.f = function(a) return a + 1 end print(t.f(4))"), lines(&["5"]));
    assert_eq!(output("p = print p(\"via\", 2)"), lines(&["via 2"]));
}

#[test]
fn method_calls_find_the_function_in_the_table() {
    assert_eq!(output("t = {} t.m = function(a) return a * 2 end print(t:m(3))"), lines(&["6"]));
    assert_eq!(error_of("t = {} x = t:nope()"), "could not find value 'nope' in table");
    assert_eq!(error_of("t = {m = 1} x = t:m()"), "the value 'm' is not a function");
    assert_eq!(error_of("x = 5 y = x:m()"), "table '5' doesn't exist");
}

#[test]
fn parameter_lists_are_names_and_dots() {
    let (rest, pl) = parse_parlist("a, b, ...) x").unwrap();
    assert_eq!((pl.0, pl.1, rest.as_str()), (vec![String::from("a"), String::from("b")], true, ") x"));
    let (rest, pl) = parse_parlist("...").unwrap();
    assert_eq!((pl.0.len(), pl.1, rest.as_str()), (0, true, ""));
    let (rest, pl) = parse_parlist("a, 1").unwrap();
    assert_eq!((pl.0, pl.1, rest.as_str()), (vec![String::from("a")], false, ", 1"));
    assert!(parse_parlist("1").is_err());
}

#[test]
fn length_of_a_table_is_its_border() {
    assert_eq!(output("t = {} t[1] = 1 t[2] = 2 t[4] = 4 print(#t)"), lines(&["2"]));
    assert_eq!(output("t = {x = 1} print(#t)"), lines(&["0"]));
    assert_eq!(output("t = {5, 6} print(#t + 1)"), lines(&["3"]));
}

/// Runs one statement in a fresh environment; gives its result with the
/// values it returns shown as text.
fn statement_result(src: &str) -> Result<Option<Vec<String>>, String> {
    let st = match parse_stmt(src) {
        Ok((rest, st)) => {
            assert_eq!(rest, "");
            st
        }
        Err(e) => panic!("no parse of {src}: {:?}", e),
    };
    let mut heap = Heap::new(Vec::new());
    let mut env = Env::new(&mut heap);
    let mut fuel = u64::MAX;
    match st.exec(&mut env, &mut heap, &F64, &mut fuel) {
        Ok(Some(vs)) => Ok(Some(vs.iter().map(|v| v.to_text(&F64)).collect())),
        Ok(None) => Ok(None),
        Err(e) => Err(e.0),
    }
}

#[test]
fn blocks_that_only_return_give_their_values() {
    assert_eq!(statement_result("if 1 < 2 then return 3, \"a\" end"), Ok(Some(lines(&["3", "a"]))));
    assert_eq!(statement_result("if false then return 1 else return 2 end"), Ok(Some(lines(&["2"]))));
    assert_eq!(statement_result("do return nil, true end"), Ok(Some(lines(&["nil", "true"]))));
    assert_eq!(statement_result("while true do return 7 end"), Ok(Some(lines(&["7"]))));
    assert_eq!(statement_result("repeat return 8 until false"), Ok(Some(lines(&["8"]))));
    assert_eq!(statement_result("do return 1 // 0 end"), Err(String::from("Cannot divide an integer by zero")));
    assert_eq!(statement_result("while 1 do return x.y end"), Err(String::from("attempt to index a non-table value 'nil'")));
}

#[test]
fn declarations_name_their_function_and_parameters() {
    match parse_stmt("function a.b:c(x, ...) end").unwrap().1 {
        Statement::FunctionDecl((name, pars, _)) => {
            assert_eq!(name, "abc");
            assert_eq!(pars.0, vec![String::from("x")]);
            assert!(pars.1);
        }
        _ => panic!("not a function declaration"),
    }
    match parse_stmt("local function g() end").unwrap().1 {
        Statement::LocalFuncDecl((name, pars, _)) => {
            assert_eq!(name, "g");
            assert!(pars.0.is_empty());
            assert!(!pars.1);
        }
        _ => panic!("not a local function declaration"),
    }
    match parse_stmt("function t.u.v(a, b) end").unwrap().1 {
        Statement::FunctionDecl((name, pars, _)) => {
            assert_eq!(name, "tuv");
            assert_eq!(pars.0, vec![String::from("a"), String::from("b")]);
        }
        _ => panic!("not a function declaration"),
    }
}

#[test]
fn for_loops_name_their_variables() {
    match parse_stmt("for i = 1, 2 do end").unwrap().1 {
        Statement::ForNum((name, _, _, step, _)) => {
            assert_eq!(name, "i");
            assert!(step.is_none());
        }
        _ => panic!("not a numeric for"),
    }
    match parse_stmt("for k, v in pairs(t) do end").unwrap().1 {
        Statement::ForGeneric((names, exps, _)) => {
            assert_eq!(names, vec![String::from("k"), String::from("v")]);
            assert_eq!(exps.len(), 1);
        }
        _ => panic!("not a generic for"),
    }
}

#[test]
fn functions_with_empty_bodies_return_nothing() {
    assert_eq!(output("function f() end x = f() print(x)"), lines(&["nil"]));
    assert_eq!(output("function f(a, b) end print(f(1, 2))"), lines(&[""]));
}

#[test]
fn simple_operands_parse_as_themselves() {
    assert_eq!(parsed("nil"), Expression::Nil);
    assert_eq!(parsed("42"), int_exp(42));
    assert_eq!(parsed("abc"), var_exp("abc"));
    assert_eq!(parsed("\"hi\""), Expression::LiteralString(String::from("hi")));
    assert_eq!(parsed("-x"), Expression::UnaryOp((UnOp::Negate, Box::new(var_exp("x")))));
    assert_eq!(parsed("not true"), Expression::UnaryOp((UnOp::LogicalNot, Box::new(Expression::True))));
    assert!(parse_exp(")").is_err());
    assert!(parse_exp("").is_err());
}

#[test]
fn programs_and_blocks_start_as_their_first_token_says() {
    let (rest, ast) = parse("   -- only a comment").unwrap();
    assert_eq!(rest, "");
    assert!(ast.0.statements.is_empty() && ast.0.return_stat.is_none());
    let (rest, ast) = parse("end x = 1").unwrap();
    assert_eq!(rest, "end x = 1");
    assert!(ast.0.statements.is_empty());
    let (_, ast) = parse("return 1").unwrap();
    assert!(ast.0.statements.is_empty() && ast.0.return_stat.is_some());
    let (_, ast) = parse("; x = 1").unwrap();
    assert!(matches!(ast.0.statements[0], Statement::Semicolon));
    let ast: AST = "".parse().unwrap();
    assert!(ast.0.statements.is_empty());
}

#[test]
fn simple_statements_parse_exactly() {
    match parse_stmt("x = 5").unwrap().1 {
        Statement::Assignment((vars, exps, false)) => {
            assert_eq!(vars, vec![Var::NameVar(String::from("x"))]);
            assert_eq!(exps, vec![int_exp(5)]);
        }
        _ => panic!("not an assignment"),
    }
    match parse_stmt("local y").unwrap().1 {
        Statement::Assignment((vars, exps, true)) => {
            assert_eq!(vars, vec![Var::NameVar(String::from("y"))]);
            assert_eq!(exps, vec![Expression::Nil]);
        }
        _ => panic!("not a local assignment"),
    }
    match parse_stmt("for i = 1, 10 do end").unwrap().1 {
        Statement::ForNum((name, start, limit, step, body)) => {
            assert_eq!(name, "i");
            assert_eq!(start, int_exp(1));
            assert_eq!(limit, int_exp(10));
            assert!(step.is_none() && body.statements.is_empty());
        }
        _ => panic!("not a numeric for"),
    }
    match parse_stmt("if ok then end").unwrap().1 {
        Statement::If((cond, body, elifs, els)) => {
            assert_eq!(cond, var_exp("ok"));
            assert!(body.statements.is_empty() && elifs.is_empty() && els.is_none());
        }
        _ => panic!("not an if"),
    }
    assert!(parse_stmt("end").is_err());
    assert!(parse_stmt("").is_err());
}

#[test]
fn empty_programs_and_step_budgets() {
    assert_eq!(run("").0, Ok(()));
    assert_eq!(run_with("print(1)", Vec::new(), 0).0, Err(ASTExecError(String::from("Execution step limit reached"))));
    assert_eq!(error_of("return 1 // 0"), "Cannot divide an integer by zero");
    assert_eq!(run("return 1, 2").0, Ok(()));
}

#[test]
fn assignments_evaluate_every_value_before_assigning() {
    assert_eq!(output("a, b, a = 30, a, 10 print(a, b)"), lines(&["10 nil"]));
    assert_eq!(output("local a, b = 10, 20 print(a, b)"), lines(&["10 20"]));
    assert_eq!(output("x, y = 1 print(x, y)"), lines(&["1 nil"]));
    assert_eq!(output("x = 1, 2 // 0 print(x)"), lines(&["1"]));
    assert_eq!(error_of("x, y = 1, 2 // 0"), "Cannot divide an integer by zero");
    assert_eq!(output("x, y = 1, 2 x, y = y, x print(x, y)"), lines(&["2 1"]));
}

#[test]
fn blocks_and_branches_run_their_statements() {
    assert_eq!(output("a = 10 do local a = 20 print(a) end print(a)"), lines(&["20", "10"]));
    assert_eq!(output("if 0 then a = 10 end print(a)"), lines(&["10"]));
    assert_eq!(output("if false then a = 10 elseif true then a = 20 else a = 30 end print(a)"), lines(&["20"]));
}

#[test]
fn plain_blocks_print_in_order_and_return_their_values() {
    assert_eq!(
        statement_result("do local a = 2 print(a) a = a * 3 print(a, \"x\") return a + 1 end"),
        Ok(Some(lines(&["7"])))
    );
    assert_eq!(
        statement_result("do print(1) x = 1 // 0 print(2) end"),
        Err(String::from("Cannot divide an integer by zero"))
    );
    assert_eq!(output("do local a = 2 print(a) a = a * 3 print(a, \"x\") end"), lines(&["2", "6 x"]));
    assert_eq!(output("if true then x, y = 1, 2 print(y, x) else print(0) end"), lines(&["2 1"]));
}

#[test]
fn the_first_branch_whose_condition_holds_runs() {
    assert_eq!(
        output("if false then print(1) elseif nil then print(2) elseif 0 then print(3) elseif true then print(4) else print(5) end"),
        lines(&["3"])
    );
    assert_eq!(output("if nil then print(1) elseif false then print(2) else print(5) end"), lines(&["5"]));
    assert_eq!(output("if nil then print(1) elseif false then print(2) end print(6)"), lines(&["6"]));
    assert_eq!(
        error_of("if false then print(1) elseif 1 // 0 then print(2) else print(3) end"),
        "Cannot divide an integer by zero"
    );
}

#[test]
fn tables_and_functions_print_as_addresses() {
    assert_eq!(output("t = {} u = {} print(t, u)"), lines(&["0x10 0x30"]));
    assert_eq!(output("function f() end print(f)"), lines(&["0x20"]));
}

#[test]
fn division_and_power_give_floats() {
    assert_eq!(output("print(4 / 2, 2 ^ 3, 1 + 2.0, 7 // 2, 7 // 2.0)"), lines(&["2.0 8.0 3.0 3 3"]));
}

#[test]
fn read_number_takes_integers_exactly() {
    let input = vec![String::from("9007199254740993"), String::from(" -12 ")];
    let (r, out) = run_with("a = read(\"*number\") b = read(\"*number\") print(a, b)", input, u64::MAX);
    assert_eq!(r, Ok(()));
    assert_eq!(out, lines(&["9007199254740993 -12"]));
}

#[test]
fn blocks_and_calls_finish_within_their_step_counts() {
    // A block of plain statements costs a bounded number of steps.
    let (r, out) = run_with("a = 1 b = a + 2 print(a, b)", Vec::new(), 40);
    assert_eq!(r, Ok(()));
    assert_eq!(out, lines(&["1 3"]));
    let (r, _) = run_with("a = 1 b = a + 2 print(a, b)", Vec::new(), 2);
    assert_eq!(r, Err(ASTExecError(String::from("Execution step limit reached"))));
    assert_eq!(output("function f(x, y) z = x + y print(z) return z * 2 end print(f(3, 4))"), lines(&["7", "14"]));
}

#[test]
fn local_assignments_stay_in_their_scope() {
    assert_eq!(output("a = 1 do local a, b = 10, 20 print(a, b) end print(a, b)"), lines(&["10 20", "1 nil"]));
    assert_eq!(output("a = 1 if a then a = 5 end do a = a + 1 end print(a)"), lines(&["6"]));
}

#[test]
fn numeric_for_runs_each_value_up_to_the_limit() {
    assert_eq!(output("a = 10 for i = 1, 5 do a = a + i end print(a)"), lines(&["25"]));
    assert_eq!(output("for i = 1, 7, 3 do print(i) end"), lines(&["1", "4", "7"]));
    assert_eq!(output("for i = 5, 1 do print(i) end print(0)"), lines(&["0"]));
    assert_eq!(output("i = 100 for i = 1, 2 do print(i) end print(i)"), lines(&["1", "2", "100"]));
    assert_eq!(
        output("n = 0 for i = 9223372036854775806, 9223372036854775807 do n = n + 1 end print(n)"),
        lines(&["2"])
    );
    assert_eq!(error_of("for i = 1, 3 do print(i) x = nil + i end"), NOT_NUMBERS_TEXT);
}

#[test]
fn while_runs_its_body_while_the_condition_holds() {
    assert_eq!(output("i = 0 s = 0 while i < 4 do i = i + 1 s = s + i end print(i, s)"), lines(&["4 10"]));
    assert_eq!(output("while false do print(1) end print(2)"), lines(&["2"]));
    assert_eq!(error_of("while 1 // 0 do end"), "Cannot divide an integer by zero");
}

const NOT_NUMBERS_TEXT: &str = "Cannot execute opration on values that are not numbers";
