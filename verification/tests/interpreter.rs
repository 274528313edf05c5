use moonrust::ast::{
    Args, BinOp, Block, Expression, Field, FunctionCall, Numeral, ParList, PrefixExp, Statement,
    UnOp, Var,
};
use moonrust::interpreter::environment::Env;
use moonrust::interpreter::float::FloatOps;
use moonrust::interpreter::{ASTExecError, Heap, LuaTable, LuaVal, LuaValue, TableKey};

struct F64;

fn f(a: u64) -> f64 {
    f64::from_bits(a)
}

impl FloatOps for F64 {
    fn parse_float(&self, text: &str) -> Option<u64> {
        text.parse::<f64>().ok().map(|x| x.to_bits())
    }
    fn from_int(&self, i: i64) -> u64 {
        (i as f64).to_bits()
    }
    fn add(&self, a: u64, b: u64) -> u64 {
        (f(a) + f(b)).to_bits()
    }
    fn sub(&self, a: u64, b: u64) -> u64 {
        (f(a) - f(b)).to_bits()
    }
    fn mul(&self, a: u64, b: u64) -> u64 {
        (f(a) * f(b)).to_bits()
    }
    fn div(&self, a: u64, b: u64) -> u64 {
        (f(a) / f(b)).to_bits()
    }
    fn pow(&self, a: u64, b: u64) -> u64 {
        f(a).powf(f(b)).to_bits()
    }
    fn rem(&self, a: u64, b: u64) -> u64 {
        (f(a) % f(b)).to_bits()
    }
    fn floor_div(&self, a: u64, b: u64) -> i64 {
        (f(a) / f(b)).floor() as i64
    }
    fn less_than(&self, a: u64, b: u64) -> bool {
        f(a) < f(b)
    }
    fn greater_than(&self, a: u64, b: u64) -> bool {
        f(a) > f(b)
    }
    fn equal(&self, a: u64, b: u64) -> bool {
        f(a) == f(b)
    }
    fn exact_int(&self, a: u64) -> Option<i64> {
        let x = f(a);
        if x.floor() == x.ceil() {
            Some(x.floor() as i64)
        } else {
            None
        }
    }
    fn integral_value(&self, a: u64) -> Option<i64> {
        let x = f(a);
        if x % 1.0 == 0.0 {
            Some(x as i64)
        } else {
            None
        }
    }
    fn floor_int(&self, a: u64) -> i64 {
        f(a).floor() as i64
    }
    fn ceil_int(&self, a: u64) -> i64 {
        f(a).ceil() as i64
    }
    fn to_text(&self, a: u64) -> String {
        let x = f(a);
        if x.floor() != x.ceil() {
            format!("{}", x)
        } else {
            format!("{:.1}", x)
        }
    }
}

fn new_heap<'a>() -> Heap<'a> {
    Heap::new(Vec::new())
}

fn eval<'a>(
    e: &'a Expression,
    env: &mut Env,
    heap: &mut Heap<'a>,
) -> Result<Vec<LuaValue>, ASTExecError> {
    let mut fuel = u64::MAX;
    e.eval(env, heap, &F64, &mut fuel)
}

fn eval_prefix<'a>(
    e: &'a PrefixExp,
    env: &mut Env,
    heap: &mut Heap<'a>,
) -> Result<Vec<LuaValue>, ASTExecError> {
    let mut fuel = u64::MAX;
    e.eval(env, heap, &F64, &mut fuel)
}

fn exec<'a>(
    s: &'a Statement,
    env: &mut Env,
    heap: &mut Heap<'a>,
) -> Result<Option<Vec<LuaValue>>, ASTExecError> {
    let mut fuel = u64::MAX;
    s.exec(env, heap, &F64, &mut fuel)
}

/// Evaluates an expression in a fresh interpreter.
fn eval_fresh(e: &Expression) -> Result<Vec<LuaValue>, ASTExecError> {
    let mut heap = new_heap();
    let mut env = Env::new(&mut heap);
    eval(e, &mut env, &mut heap)
}

fn bin(l: Expression, op: BinOp, r: Expression) -> Expression {
    Expression::BinaryOp((Box::new(l), op, Box::new(r)))
}

fn un(op: UnOp, e: Expression) -> Expression {
    Expression::UnaryOp((op, Box::new(e)))
}

fn int_exp(n: i64) -> Expression {
    Expression::Numeral(Numeral::Integer(n))
}

fn float_exp(t: &str) -> Expression {
    Expression::Numeral(Numeral::Float(String::from(t)))
}

fn str_exp(s: &str) -> Expression {
    Expression::LiteralString(s.to_string())
}

fn var_exp(name: &str) -> Expression {
    Expression::PrefixExp(Box::new(PrefixExp::Var(Var::NameVar(name.to_string()))))
}

fn name_var(name: &str) -> Var {
    Var::NameVar(name.to_string())
}

fn int_val(n: i64) -> LuaValue {
    LuaValue::new(LuaVal::LuaNum(n.to_be_bytes(), false))
}

fn float_val(x: f64) -> LuaValue {
    LuaValue::new(LuaVal::LuaNum(x.to_be_bytes(), true))
}

fn lua_integer(n: i64) -> Vec<LuaValue> {
    vec![int_val(n)]
}

fn lua_integers(nums: Vec<i64>) -> Vec<LuaValue> {
    nums.into_iter().map(int_val).collect()
}

fn lua_float(x: f64) -> Vec<LuaValue> {
    vec![float_val(x)]
}

fn lua_nil() -> Vec<LuaValue> {
    vec![LuaValue::new(LuaVal::LuaNil)]
}

fn lua_false() -> Vec<LuaValue> {
    vec![LuaValue::new(LuaVal::LuaBool(false))]
}

fn lua_true() -> Vec<LuaValue> {
    vec![LuaValue::new(LuaVal::LuaBool(true))]
}

fn lua_string(s: &str) -> Vec<LuaValue> {
    vec![LuaValue::new(LuaVal::LuaString(s.to_string()))]
}

fn err<T>(msg: &str) -> Result<T, ASTExecError> {
    Err(ASTExecError(msg.to_string()))
}

fn empty_block() -> Block {
    Block { statements: vec![], return_stat: None }
}

fn assign(name: &str, e: Expression, local: bool) -> Statement {
    Statement::Assignment((vec![name_var(name)], vec![e], local))
}

fn call(name: &str, args: Vec<Expression>) -> FunctionCall {
    FunctionCall::Standard((Box::new(PrefixExp::Var(name_var(name))), Args::ExpList(args)))
}

fn call_exp(name: &str, args: Vec<Expression>) -> Expression {
    Expression::PrefixExp(Box::new(PrefixExp::FunctionCall(call(name, args))))
}

fn table_of(v: &[LuaValue]) -> LuaTable {
    match &v[0].0 {
        LuaVal::LuaTable(t) => *t,
        other => panic!("not a table: {:?}", other),
    }
}

const NOT_NUMBERS: &str = "Cannot execute opration on values that are not numbers";
const NOT_EXACT: &str = "Cannot convert float that does not have exact integer value to integer";
const NOT_INT: &str = "Cannot convert value to integer (types cannot be converted)";
const NO_COMPARE: &str = "Cannot compare two values due to types";

#[test]
fn test_eval_exp_nil() {
    assert_eq!(eval_fresh(&Expression::Nil), Ok(lua_nil()));
}

#[test]
fn test_eval_exp_bool() {
    assert_eq!(eval_fresh(&Expression::False), Ok(lua_false()));
    assert_eq!(eval_fresh(&Expression::True), Ok(lua_true()));
}

#[test]
fn test_eval_exp_int() {
    assert_eq!(eval_fresh(&int_exp(10)), Ok(lua_integer(10)));
}

#[test]
fn test_eval_exp_float() {
    assert_eq!(eval_fresh(&float_exp("10.04")), Ok(lua_float(10.04)));
}

#[test]
fn test_eval_exp_str() {
    assert_eq!(eval_fresh(&str_exp("Hello World!")), Ok(lua_string("Hello World!")));
}

#[test]
fn test_eval_func_def() {
    let exp_func_def = Expression::FunctionDef((ParList(vec![String::from("test")], false), empty_block()));
    let mut heap = new_heap();
    let mut env = Env::new(&mut heap);
    let r = eval(&exp_func_def, &mut env, &mut heap).unwrap();
    assert_eq!(r.len(), 1);
    match &r[0].0 {
        LuaVal::Function(idx) => {
            let func = &heap.functions[*idx];
            assert_eq!(*func.par_list, ParList(vec![String::from("test")], false));
            assert_eq!(*func.block, empty_block());
        }
        other => panic!("not a function: {:?}", other),
    }
}

#[test]
fn test_eval_func_call() {
    let f_def = Expression::FunctionDef((
        ParList(vec![String::from("test")], false),
        Block {
            statements: vec![Statement::Assignment((
                vec![name_var("a"), name_var("b")],
                vec![int_exp(30), int_exp(20)],
                false,
            ))],
            return_stat: Some(vec![var_exp("test"), var_exp("a"), var_exp("b")]),
        },
    ));
    let exp = PrefixExp::FunctionCall(call("f", vec![int_exp(100)]));
    let f2_def = Expression::FunctionDef((
        ParList(vec![], false),
        Block {
            statements: vec![],
            return_stat: Some(vec![
                call_exp("f", vec![int_exp(100)]),
                call_exp("f", vec![int_exp(100)]),
                call_exp("f", vec![int_exp(100)]),
            ]),
        },
    ));
    let func_call2 = PrefixExp::FunctionCall(call("f2", vec![]));
    let f3_def = Expression::FunctionDef((
        ParList(vec![String::from("a"), String::from("b"), String::from("c")], false),
        Block {
            statements: vec![],
            return_stat: Some(vec![var_exp("a"), var_exp("b"), var_exp("c")]),
        },
    ));
    let func_call3 = PrefixExp::FunctionCall(call(
        "f3",
        vec![call_exp("f", vec![int_exp(100)]), call_exp("f", vec![int_exp(100)])],
    ));

    let mut heap = new_heap();
    let mut env = Env::new(&mut heap);
    let f = LuaValue::extract_first_return_val(eval(&f_def, &mut env, &mut heap).unwrap());
    env.insert_global(&mut heap, String::from("f"), f);
    // f(100) executes a = 30, b = 20, return test, a, b
    assert_eq!(eval_prefix(&exp, &mut env, &mut heap), Ok(lua_integers(vec![100, 30, 20])));

    let f2 = LuaValue::extract_first_return_val(eval(&f2_def, &mut env, &mut heap).unwrap());
    env.insert_global(&mut heap, String::from("f2"), f2);
    // Each return expression gives one value, but the last gives all
    assert_eq!(
        eval_prefix(&func_call2, &mut env, &mut heap),
        Ok(lua_integers(vec![100, 100, 100, 30, 20]))
    );

    let f3 = LuaValue::extract_first_return_val(eval(&f3_def, &mut env, &mut heap).unwrap());
    env.insert_global(&mut heap, String::from("f3"), f3);
    // Each argument takes one value of its expression except the last one
    assert_eq!(
        eval_prefix(&func_call3, &mut env, &mut heap),
        Ok(lua_integers(vec![100, 100, 30]))
    );
}

#[test]
fn test_eval_print() {
    let f_def = Expression::FunctionDef((ParList(vec![], false), empty_block()));
    let args = vec![
        int_exp(10),
        float_exp("10.1"),
        Expression::False,
        str_exp("Hello World!"),
        Expression::Nil,
        var_exp("f"),
    ];
    let print_exp = PrefixExp::FunctionCall(call("print", args));
    let mut heap = new_heap();
    let mut env = Env::new(&mut heap);
    let f = LuaValue::extract_first_return_val(eval(&f_def, &mut env, &mut heap).unwrap());
    env.insert_global(&mut heap, "f".to_string(), f);
    assert_eq!(eval_prefix(&print_exp, &mut env, &mut heap), Ok(vec![]));
    assert_eq!(heap.output, vec![String::from("10 10.1 false Hello World! nil 0x20")]);
}

#[test]
fn test_eval_read() {
    let args = Args::ExpList(vec![str_exp("*line"), str_exp("*number")]);
    let mut heap = Heap::new(vec![String::from("I'm James"), String::from("100")]);
    let mut env = Env::new(&mut heap);
    let mut fuel = u64::MAX;
    let vals = args.eval(&mut env, &mut heap, &F64, &mut fuel).unwrap();
    assert_eq!(
        FunctionCall::read_fn(vals, &mut heap, &F64),
        Ok(vec![
            LuaValue::new(LuaVal::LuaString("I'm James".to_string())),
            LuaValue::new(LuaVal::LuaNum(100i64.to_be_bytes(), false)),
        ])
    );

    let args = Args::ExpList(vec![float_exp("100.01")]);
    let vals = args.eval(&mut env, &mut heap, &F64, &mut fuel).unwrap();
    assert_eq!(
        FunctionCall::read_fn(vals, &mut heap, &F64),
        err("Cannot read with argument of LuaNum([64, 89, 0, 163, 215, 10, 61, 113], true)")
    );
}

#[test]
fn test_eval_table_constructor() {
    let exp = Expression::TableConstructor(vec![
        Field::NameAssign((String::from("age"), int_exp(23))),
        Field::UnnamedAssign(bin(int_exp(2), BinOp::Add, int_exp(3))),
        Field::BracketedAssign((float_exp("3.14"), int_exp(999))),
    ]);
    let mut heap = new_heap();
    let mut env = Env::new(&mut heap);
    let t = table_of(&eval(&exp, &mut env, &mut heap).unwrap());
    assert_eq!(t.get(&heap, &TableKey::String(String::from("age"))), Some(int_val(23)));
    assert_eq!(t.get(&heap, &TableKey::Number(1i64.to_be_bytes())), Some(int_val(5)));
    assert_eq!(t.get(&heap, &TableKey::Number(3.14f64.to_be_bytes())), Some(int_val(999)));
    assert_eq!(heap.tables[t.0].len(), 3);
}

#[test]
fn test_eval_table_sequence() {
    let exp = Expression::TableConstructor(vec![
        Field::UnnamedAssign(int_exp(999)),
        Field::UnnamedAssign(int_exp(888)),
        Field::UnnamedAssign(int_exp(777)),
    ]);
    let mut heap = new_heap();
    let mut env = Env::new(&mut heap);
    let t = table_of(&eval(&exp, &mut env, &mut heap).unwrap());
    assert_eq!(t.get(&heap, &TableKey::Number(1i64.to_be_bytes())), Some(int_val(999)));
    assert_eq!(t.get(&heap, &TableKey::Number(2i64.to_be_bytes())), Some(int_val(888)));
    assert_eq!(t.get(&heap, &TableKey::Number(3i64.to_be_bytes())), Some(int_val(777)));
    assert_eq!(heap.tables[t.0].len(), 3);
}

#[test]
fn test_eval_table_spread() {
    let f_def = Expression::FunctionDef((
        ParList(vec![], false),
        Block {
            statements: vec![],
            return_stat: Some(vec![int_exp(999), int_exp(888), int_exp(777)]),
        },
    ));
    let exp = Expression::TableConstructor(vec![
        Field::UnnamedAssign(int_exp(111)),
        Field::UnnamedAssign(call_exp("f", vec![])),
    ]);
    let mut heap = new_heap();
    let mut env = Env::new(&mut heap);
    let f = LuaValue::extract_first_return_val(eval(&f_def, &mut env, &mut heap).unwrap());
    env.insert_global(&mut heap, String::from("f"), f);
    let t = table_of(&eval(&exp, &mut env, &mut heap).unwrap());
    for (k, v) in [(1i64, 111i64), (2, 999), (3, 888), (4, 777)] {
        assert_eq!(t.get(&heap, &TableKey::Number(k.to_be_bytes())), Some(int_val(v)));
    }
    assert_eq!(heap.tables[t.0].len(), 4);
}

#[test]
fn test_eval_table_capture() {
    let exp = Expression::TableConstructor(vec![Field::NameAssign((String::from("thing"), var_exp("x")))]);
    let mut heap = new_heap();
    let mut env = Env::new(&mut heap);
    env.insert_global(&mut heap, String::from("x"), int_val(999));
    let t = table_of(&eval(&exp, &mut env, &mut heap).unwrap());
    assert_eq!(t.get(&heap, &TableKey::String(String::from("thing"))), Some(int_val(999)));
    assert_eq!(heap.tables[t.0].len(), 1);
}

#[test]
fn test_eval_table_bad_key() {
    let exp = Expression::TableConstructor(vec![Field::BracketedAssign((Expression::True, int_exp(23)))]);
    assert_eq!(
        eval_fresh(&exp),
        err("Field key 'true' does not evaluate to a string or numeral")
    );
}

#[test]
fn test_table_field_lookup() {
    let by_number = PrefixExp::Var(Var::BracketVar((
        Box::new(PrefixExp::Var(name_var("my_table"))),
        int_exp(86),
    )));
    let by_string = PrefixExp::Var(Var::BracketVar((
        Box::new(PrefixExp::Var(name_var("my_table"))),
        str_exp("launch_codes"),
    )));
    let mut heap = new_heap();
    let mut env = Env::new(&mut heap);
    let table = LuaTable::new(&mut heap);
    table.insert_int(&mut heap, 86, LuaValue::new(LuaVal::LuaString(String::from("The first thing!"))));
    table.insert_ident(
        &mut heap,
        String::from("launch_codes"),
        LuaValue::new(LuaVal::LuaNum(34.12456f64.to_be_bytes(), false)),
    );
    env.insert_global(&mut heap, String::from("my_table"), LuaValue::new(LuaVal::LuaTable(table)));
    assert_eq!(eval_prefix(&by_number, &mut env, &mut heap), Ok(lua_string("The first thing!")));
    assert_eq!(
        eval_prefix(&by_string, &mut env, &mut heap),
        Ok(vec![LuaValue::new(LuaVal::LuaNum(34.12456f64.to_be_bytes(), false))])
    );
}

#[test]
fn test_eval_func_call_with_table() {
    let f_def = Expression::FunctionDef((
        ParList(vec![String::from("that_table")], false),
        Block {
            statements: vec![],
            return_stat: Some(vec![Expression::PrefixExp(Box::new(PrefixExp::Var(Var::BracketVar((
                Box::new(PrefixExp::Var(name_var("that_table"))),
                str_exp("a"),
            )))))]),
        },
    ));
    let exp = Expression::PrefixExp(Box::new(PrefixExp::FunctionCall(FunctionCall::Standard((
        Box::new(PrefixExp::Var(name_var("f"))),
        Args::TableConstructor(vec![Field::NameAssign((String::from("a"), int_exp(86)))]),
    )))));
    let mut heap = new_heap();
    let mut env = Env::new(&mut heap);
    let f = LuaValue::extract_first_return_val(eval(&f_def, &mut env, &mut heap).unwrap());
    env.insert_global(&mut heap, String::from("f"), f);
    assert_eq!(eval(&exp, &mut env, &mut heap), Ok(lua_integer(86)));
}

#[test]
fn test_eval_bin_add() {
    assert_eq!(eval_fresh(&bin(int_exp(10), BinOp::Add, int_exp(20))), Ok(lua_integer(30)));
    assert_eq!(eval_fresh(&bin(float_exp("10.1"), BinOp::Add, int_exp(20))), Ok(lua_float(30.1)));
    assert_eq!(eval_fresh(&bin(int_exp(20), BinOp::Add, float_exp("10.1"))), Ok(lua_float(30.1)));
    assert_eq!(eval_fresh(&bin(float_exp("10.1"), BinOp::Add, float_exp("0.9"))), Ok(lua_float(11 as f64)));
    assert_eq!(
        eval_fresh(&bin(float_exp("10.1"), BinOp::Add, str_exp("Can't add string"))),
        err(NOT_NUMBERS)
    );
}

#[test]
fn test_eval_bin_sub() {
    assert_eq!(eval_fresh(&bin(int_exp(10), BinOp::Sub, int_exp(20))), Ok(lua_integer(-10)));
    assert_eq!(eval_fresh(&bin(float_exp("10.1"), BinOp::Sub, int_exp(20))), Ok(lua_float(-9.9)));
    assert_eq!(eval_fresh(&bin(int_exp(20), BinOp::Sub, float_exp("10.1"))), Ok(lua_float(9.9)));
    assert_eq!(eval_fresh(&bin(float_exp("10.1"), BinOp::Sub, float_exp("0.9"))), Ok(lua_float(9.2)));
    assert_eq!(
        eval_fresh(&bin(float_exp("10.1"), BinOp::Sub, str_exp("Can't subtract with string"))),
        err(NOT_NUMBERS)
    );
}

#[test]
fn test_eval_bin_mult() {
    assert_eq!(eval_fresh(&bin(int_exp(10), BinOp::Mult, int_exp(20))), Ok(lua_integer(200)));
    assert_eq!(eval_fresh(&bin(float_exp("10.1"), BinOp::Mult, int_exp(20))), Ok(lua_float(202.0)));
    assert_eq!(eval_fresh(&bin(int_exp(20), BinOp::Mult, float_exp("-10.1"))), Ok(lua_float(-202.0)));
    assert_eq!(eval_fresh(&bin(float_exp("10.1"), BinOp::Mult, float_exp("0.9"))), Ok(lua_float(9.09)));
    assert_eq!(
        eval_fresh(&bin(float_exp("10.1"), BinOp::Sub, str_exp("Can't multipy string"))),
        err(NOT_NUMBERS)
    );
}

#[test]
fn test_eval_bin_div() {
    assert_eq!(eval_fresh(&bin(int_exp(20), BinOp::Div, int_exp(10))), Ok(lua_float(2.0)));
    assert_eq!(eval_fresh(&bin(float_exp("10.1"), BinOp::Div, int_exp(10))), Ok(lua_float(1.01)));
    assert_eq!(
        eval_fresh(&bin(int_exp(20), BinOp::Div, float_exp("10.1"))),
        Ok(lua_float(20 as f64 / 10.1))
    );
    assert_eq!(
        eval_fresh(&bin(float_exp("10.1"), BinOp::Div, float_exp("0.9"))),
        Ok(lua_float(10.1 / 0.9))
    );
    assert_eq!(
        eval_fresh(&bin(float_exp("10.1"), BinOp::Div, str_exp("Can't float divide with string"))),
        err(NOT_NUMBERS)
    );
}

#[test]
fn test_eval_bin_int_div() {
    assert_eq!(eval_fresh(&bin(int_exp(20), BinOp::IntegerDiv, int_exp(10))), Ok(lua_integer(2)));
    assert_eq!(eval_fresh(&bin(float_exp("10.1"), BinOp::IntegerDiv, int_exp(10))), Ok(lua_integer(1)));
    assert_eq!(eval_fresh(&bin(int_exp(20), BinOp::IntegerDiv, float_exp("10.1"))), Ok(lua_integer(1)));
    assert_eq!(eval_fresh(&bin(float_exp("10.1"), BinOp::IntegerDiv, float_exp("0.9"))), Ok(lua_integer(11)));
    assert_eq!(
        eval_fresh(&bin(float_exp("10.1"), BinOp::IntegerDiv, str_exp("Can't floor divide with string"))),
        err(NOT_NUMBERS)
    );
}

#[test]
fn test_eval_bin_pow() {
    assert_eq!(eval_fresh(&bin(int_exp(2), BinOp::Pow, int_exp(10))), Ok(lua_float(1024.0)));
    assert_eq!(eval_fresh(&bin(float_exp("10.1"), BinOp::Pow, int_exp(3))), Ok(lua_float(1030.301)));
    assert_eq!(
        eval_fresh(&bin(int_exp(2), BinOp::Pow, float_exp("10.1"))),
        Ok(lua_float(2.0_f64.powf(10.1)))
    );
    assert_eq!(
        eval_fresh(&bin(float_exp("10.1"), BinOp::Pow, float_exp("0.9"))),
        Ok(lua_float(10.1_f64.powf(0.9)))
    );
    assert_eq!(
        eval_fresh(&bin(float_exp("10.1"), BinOp::Pow, str_exp("Can't power with string"))),
        err(NOT_NUMBERS)
    );
}

#[test]
fn test_eval_bin_mod() {
    assert_eq!(eval_fresh(&bin(int_exp(20), BinOp::Mod, int_exp(10))), Ok(lua_integer(0)));
    assert_eq!(eval_fresh(&bin(float_exp("10.1"), BinOp::Mod, int_exp(10))), Ok(lua_float(10.1 % 10.0)));
    assert_eq!(eval_fresh(&bin(int_exp(20), BinOp::Mod, float_exp("10.1"))), Ok(lua_float(9.9)));
    assert_eq!(eval_fresh(&bin(float_exp("10.1"), BinOp::Mod, float_exp("0.9"))), Ok(lua_float(10.1 % 0.9)));
    assert_eq!(
        eval_fresh(&bin(float_exp("10.1"), BinOp::Mod, str_exp("Can't mod with string"))),
        err(NOT_NUMBERS)
    );
}

fn check_bit_op(op: BinOp, a: i64, b: i64, fa: &str, fb: &str, bad: &str, expected: i64) {
    assert_eq!(eval_fresh(&bin(int_exp(a), op, int_exp(b))), Ok(lua_integer(expected)));
    assert_eq!(eval_fresh(&bin(float_exp(fa), op, float_exp(fb))), Ok(lua_integer(expected)));
    assert_eq!(eval_fresh(&bin(int_exp(a), op, float_exp(bad))), err(NOT_EXACT));
    assert_eq!(
        eval_fresh(&bin(int_exp(10), op, str_exp("Can't bitwise and with string"))),
        err(NOT_INT)
    );
}

#[test]
fn test_eval_bin_bitand() {
    check_bit_op(BinOp::BitAnd, 20, 13, "20.0", "13.0", "13.1", 4);
}

#[test]
fn test_eval_bin_bitxor() {
    check_bit_op(BinOp::BitXor, 20, 13, "20.0", "13.0", "13.1", 25);
}

#[test]
fn test_eval_bin_bitor() {
    check_bit_op(BinOp::BitOr, 20, 13, "20.0", "13.0", "13.1", 29);
}

#[test]
fn test_eval_bin_bitsl() {
    check_bit_op(BinOp::ShiftLeft, 20, 13, "20.0", "13.0", "13.1", 163840);
}

#[test]
fn test_eval_bin_bitsr() {
    check_bit_op(BinOp::ShiftRight, 20, 2, "20.0", "2.0", "2.1", 5);
}

#[test]
fn test_eval_bin_concat() {
    assert_eq!(eval_fresh(&bin(int_exp(20), BinOp::Concat, int_exp(2))), Ok(lua_string("202")));
    assert_eq!(eval_fresh(&bin(float_exp("20.0"), BinOp::Concat, float_exp("2.0"))), Ok(lua_string("20.02.0")));
    assert_eq!(eval_fresh(&bin(float_exp("20.0"), BinOp::Concat, str_exp("test"))), Ok(lua_string("20.0test")));
    assert_eq!(eval_fresh(&bin(str_exp("Hello "), BinOp::Concat, str_exp("World!"))), Ok(lua_string("Hello World!")));
    assert_eq!(
        eval_fresh(&bin(Expression::Nil, BinOp::Concat, float_exp("2.1"))),
        err("Cannot convert value to String (types cannot be converted)")
    );
}

fn empty_function() -> Expression {
    Expression::FunctionDef((ParList(vec![], false), empty_block()))
}

/// Checks `==` (or `~=` when `negate`) on the cases of the original suite.
fn check_equality(op: BinOp, negate: bool) {
    let t = |b: bool| if b != negate { lua_true() } else { lua_false() };
    assert_eq!(eval_fresh(&bin(int_exp(20), op, int_exp(2))), Ok(t(false)));
    assert_eq!(eval_fresh(&bin(int_exp(20), op, int_exp(20))), Ok(t(true)));
    assert_eq!(eval_fresh(&bin(float_exp("2.0"), op, int_exp(2))), Ok(t(true)));
    assert_eq!(eval_fresh(&bin(Expression::Nil, op, Expression::Nil)), Ok(t(true)));
    assert_eq!(eval_fresh(&bin(str_exp("Same content"), op, str_exp("Same content"))), Ok(t(true)));
    // Functions with the same content but not the same reference
    assert_eq!(eval_fresh(&bin(empty_function(), op, empty_function())), Ok(t(false)));

    let decl = Statement::FunctionDecl(("f".to_string(), ParList(vec![], false), empty_block()));
    let same_f = bin(var_exp("f"), op, var_exp("f"));
    let same_table = bin(var_exp("my_table"), op, var_exp("your_table"));
    let other_table_exp = bin(var_exp("my_table"), op, var_exp("other_table"));
    let mut heap = new_heap();
    let mut env = Env::new(&mut heap);
    exec(&decl, &mut env, &mut heap).unwrap();
    assert_eq!(eval(&same_f, &mut env, &mut heap), Ok(t(true)));

    let make_table = |heap: &mut Heap| {
        let table = LuaTable::new(heap);
        table.insert_ident(heap, String::from("age"), int_val(23));
        table.insert_int(heap, 1, int_val(5));
        LuaValue::new(LuaVal::LuaTable(table))
    };
    let table = make_table(&mut heap);
    env.insert_global(&mut heap, String::from("my_table"), table.clone());
    env.insert_global(&mut heap, String::from("your_table"), table);
    assert_eq!(eval(&same_table, &mut env, &mut heap), Ok(t(true)));
    // Two tables with the same contents are different
    let other_table = make_table(&mut heap);
    env.insert_global(&mut heap, String::from("other_table"), other_table);
    assert_eq!(eval(&other_table_exp, &mut env, &mut heap), Ok(t(false)));

    assert_eq!(eval_fresh(&bin(str_exp("Different types"), op, float_exp("2.1"))), Ok(t(false)));
}

#[test]
fn test_eval_bin_equal() {
    check_equality(BinOp::Equal, false);
}

#[test]
fn test_eval_bin_not_equal() {
    check_equality(BinOp::NotEqual, true);
}

fn check_order(op: BinOp, expected: [bool; 4]) {
    let b = |x: bool| if x { lua_true() } else { lua_false() };
    assert_eq!(eval_fresh(&bin(int_exp(20), op, int_exp(2))), Ok(b(expected[0])));
    assert_eq!(eval_fresh(&bin(float_exp("2.0"), op, int_exp(2))), Ok(b(expected[1])));
    assert_eq!(eval_fresh(&bin(float_exp("2.0"), op, int_exp(4))), Ok(b(expected[2])));
    assert_eq!(eval_fresh(&bin(str_exp("abc"), op, str_exp("cba"))), Ok(b(expected[3])));
    assert_eq!(eval_fresh(&bin(str_exp("abc"), op, Expression::Nil)), err(NO_COMPARE));
}

#[test]
fn test_eval_bin_less_than() {
    check_order(BinOp::LessThan, [false, false, true, true]);
}

#[test]
fn test_eval_bin_less_equal() {
    check_order(BinOp::LessEq, [false, true, true, true]);
}

#[test]
fn test_eval_bin_greater_than() {
    check_order(BinOp::GreaterThan, [true, false, false, false]);
}

#[test]
fn test_eval_bin_greater_equal() {
    check_order(BinOp::GreaterEq, [true, true, false, false]);
}

fn failing_comparison() -> Expression {
    bin(str_exp("abc"), BinOp::GreaterEq, Expression::Nil)
}

#[test]
fn test_eval_bin_logical_and() {
    assert_eq!(eval_fresh(&bin(Expression::Nil, BinOp::LogicalAnd, int_exp(10))), Ok(lua_nil()));
    // The right operand would fail if it were evaluated
    assert_eq!(eval_fresh(&bin(Expression::False, BinOp::LogicalAnd, failing_comparison())), Ok(lua_false()));
    assert_eq!(eval_fresh(&bin(Expression::False, BinOp::LogicalAnd, Expression::Nil)), Ok(lua_false()));
    assert_eq!(eval_fresh(&bin(int_exp(10), BinOp::LogicalAnd, int_exp(20))), Ok(lua_integer(20)));
}

#[test]
fn test_eval_bin_logical_or() {
    assert_eq!(eval_fresh(&bin(int_exp(10), BinOp::LogicalOr, int_exp(20))), Ok(lua_integer(10)));
    assert_eq!(eval_fresh(&bin(int_exp(10), BinOp::LogicalOr, failing_comparison())), Ok(lua_integer(10)));
    assert_eq!(eval_fresh(&bin(Expression::Nil, BinOp::LogicalOr, str_exp("a"))), Ok(lua_string("a")));
    assert_eq!(eval_fresh(&bin(Expression::False, BinOp::LogicalOr, Expression::Nil)), Ok(lua_nil()));
}

#[test]
fn test_eval_un_negate() {
    assert_eq!(eval_fresh(&un(UnOp::Negate, int_exp(10))), Ok(lua_integer(-10)));
    assert_eq!(eval_fresh(&un(UnOp::Negate, float_exp("10.1"))), Ok(lua_float(-10.1)));
    assert_eq!(
        eval_fresh(&un(UnOp::Negate, str_exp("String cannot be negated"))),
        err("Cannot negate values that are not numbers")
    );
}

#[test]
fn test_eval_un_not() {
    assert_eq!(eval_fresh(&un(UnOp::LogicalNot, int_exp(10))), Ok(lua_false()));
    assert_eq!(
        eval_fresh(&un(UnOp::LogicalNot, str_exp("Everything other than nil and false is true"))),
        Ok(lua_false())
    );
    assert_eq!(eval_fresh(&un(UnOp::LogicalNot, Expression::False)), Ok(lua_true()));
    assert_eq!(eval_fresh(&un(UnOp::LogicalNot, Expression::Nil)), Ok(lua_true()));
}

#[test]
fn test_eval_un_length() {
    assert_eq!(
        eval_fresh(&un(UnOp::Length, str_exp("Let's get string length"))),
        Ok(lua_integer("Let's get string length".len() as i64))
    );
    assert_eq!(
        eval_fresh(&un(UnOp::Length, int_exp(10))),
        err("Cannot get length of value that is not a string or table")
    );
}

#[test]
fn test_eval_un_bitnot() {
    assert_eq!(eval_fresh(&un(UnOp::BitNot, int_exp(100))), Ok(lua_integer(-101)));
    assert_eq!(eval_fresh(&un(UnOp::BitNot, str_exp("Let's bitwise not string"))), err(NOT_INT));
    assert_eq!(eval_fresh(&un(UnOp::BitNot, float_exp("10.04"))), err(NOT_EXACT));
}

#[test]
fn test_capture_env() {
    let mut heap = new_heap();
    let mut env = Env::new(&mut heap);
    env.insert_local(&mut heap, "a".to_string(), int_val(10));
    env.insert_local(&mut heap, "b".to_string(), int_val(20));
    env.insert_local(&mut heap, "c".to_string(), int_val(30));
    let captured_env = env.get_local_env().capture_env(&mut heap);
    env.pop_local_env();
    let func_env = env.create_with_captured_env(&mut heap, &captured_env);
    assert_eq!(func_env.get(&heap, "a"), Some(int_val(10)));
    assert_eq!(func_env.get(&heap, "b"), Some(int_val(20)));
    assert_eq!(func_env.get(&heap, "c"), Some(int_val(30)));
    assert_eq!(func_env.get(&heap, "d"), None);
}

fn num_val(v: Option<LuaValue>) -> LuaVal {
    v.unwrap().0
}

#[test]
fn test_exec_stat_assign() {
    let s1 = Statement::Assignment((
        vec![name_var("a"), name_var("b"), name_var("a")],
        vec![int_exp(30), int_exp(20), int_exp(10)],
        false,
    ));
    let s2 = Statement::Assignment((
        vec![name_var("a"), name_var("b"), name_var("c")],
        vec![int_exp(30), int_exp(20)],
        false,
    ));
    let s3 = Statement::Assignment((
        vec![name_var("a"), name_var("b")],
        vec![int_exp(30), int_exp(20), int_exp(10)],
        false,
    ));
    let s4 = Statement::Assignment((vec![name_var("a"), name_var("b")], vec![int_exp(10), int_exp(20)], true));

    let mut heap = new_heap();
    let mut env = Env::new(&mut heap);
    assert_eq!(exec(&s1, &mut env, &mut heap), Ok(Some(vec![])));
    assert_eq!(num_val(env.get(&heap, "a")), LuaVal::LuaNum(10i64.to_be_bytes(), false));
    assert_eq!(num_val(env.get(&heap, "b")), LuaVal::LuaNum(20i64.to_be_bytes(), false));

    assert_eq!(exec(&s2, &mut env, &mut heap), Ok(Some(vec![])));
    assert_eq!(num_val(env.get(&heap, "a")), LuaVal::LuaNum(30i64.to_be_bytes(), false));
    assert_eq!(num_val(env.get(&heap, "b")), LuaVal::LuaNum(20i64.to_be_bytes(), false));
    assert_eq!(num_val(env.get(&heap, "c")), LuaVal::LuaNil);

    assert_eq!(exec(&s3, &mut env, &mut heap), Ok(Some(vec![])));
    assert_eq!(num_val(env.get(&heap, "a")), LuaVal::LuaNum(30i64.to_be_bytes(), false));
    assert_eq!(num_val(env.get(&heap, "b")), LuaVal::LuaNum(20i64.to_be_bytes(), false));

    // Local assignment
    let mut heap = new_heap();
    let mut env = Env::new(&mut heap);
    assert_eq!(exec(&s4, &mut env, &mut heap), Ok(Some(vec![])));
    assert_eq!(num_val(env.get_local(&heap, "a")), LuaVal::LuaNum(10i64.to_be_bytes(), false));
    assert_eq!(num_val(env.get_local(&heap, "b")), LuaVal::LuaNum(20i64.to_be_bytes(), false));
    assert_eq!(env.get_global(&heap, "a"), None);
}

#[test]
fn test_exec_stat_reassign() {
    // The value of "a" in the same assignment is the one from before it
    let s1 = Statement::Assignment((
        vec![name_var("a"), name_var("b"), name_var("a")],
        vec![int_exp(30), var_exp("a"), int_exp(10)],
        false,
    ));
    let s2 = Statement::Assignment((
        vec![name_var("a"), name_var("b"), name_var("a")],
        vec![str_exp("testB"), var_exp("a"), str_exp("testA")],
        false,
    ));
    let mut heap = new_heap();
    let mut env = Env::new(&mut heap);
    assert_eq!(exec(&s1, &mut env, &mut heap), Ok(Some(vec![])));
    assert_eq!(num_val(env.get(&heap, "a")), LuaVal::LuaNum(10i64.to_be_bytes(), false));
    assert_eq!(num_val(env.get(&heap, "b")), LuaVal::LuaNil);

    assert_eq!(exec(&s2, &mut env, &mut heap), Ok(Some(vec![])));
    assert_eq!(num_val(env.get(&heap, "a")), LuaVal::LuaString("testA".to_string()));
    assert_eq!(num_val(env.get(&heap, "b")), LuaVal::LuaNum(10i64.to_be_bytes(), false));
}

#[test]
fn test_exec_stat_table_assign() {
    let stat = Statement::Assignment((
        vec![Var::DotVar((Box::new(PrefixExp::Var(name_var("my_table"))), String::from("x")))],
        vec![str_exp("new value!")],
        false,
    ));
    let mut heap = new_heap();
    let mut env = Env::new(&mut heap);
    let table = LuaTable::new(&mut heap);
    table.insert_ident(&mut heap, String::from("x"), int_val(999));
    env.insert_global(&mut heap, String::from("my_table"), LuaValue::new(LuaVal::LuaTable(table)));
    assert_eq!(exec(&stat, &mut env, &mut heap), Ok(Some(vec![])));
    assert_eq!(
        table.get(&heap, &TableKey::String(String::from("x"))),
        Some(LuaValue::new(LuaVal::LuaString(String::from("new value!"))))
    );
    assert_eq!(heap.tables[table.0].len(), 1);
}

#[test]
fn test_exec_stat_visibility() {
    let stat = assign("a", int_exp(10), false);
    let do_block = Statement::DoBlock(Block {
        statements: vec![assign("a", int_exp(20), true)],
        return_stat: Some(vec![var_exp("a")]),
    });
    let mut heap = new_heap();
    let mut env = Env::new(&mut heap);
    assert_eq!(exec(&stat, &mut env, &mut heap), Ok(Some(vec![])));
    assert_eq!(num_val(env.get(&heap, "a")), LuaVal::LuaNum(10i64.to_be_bytes(), false));
    assert_eq!(exec(&do_block, &mut env, &mut heap), Ok(Some(lua_integer(20))));
    // The block's scope is gone: "a" is the global again
    assert_eq!(num_val(env.get(&heap, "a")), LuaVal::LuaNum(10i64.to_be_bytes(), false));
}

#[test]
fn test_exec_stat_func_call() {
    let f_def = Expression::FunctionDef((
        ParList(vec![], false),
        Block {
            statements: vec![assign("a", float_exp("10.04"), false)],
            return_stat: Some(vec![var_exp("a"), var_exp("a")]),
        },
    ));
    let func_call_stat = Statement::FunctionCall(call("f", vec![]));
    let mut heap = new_heap();
    let mut env = Env::new(&mut heap);
    env.insert_global(&mut heap, "a".to_string(), int_val(10));
    let f = LuaValue::extract_first_return_val(eval(&f_def, &mut env, &mut heap).unwrap());
    env.insert_global(&mut heap, "f".to_string(), f);
    // The values returned by a call statement are thrown away
    assert_eq!(exec(&func_call_stat, &mut env, &mut heap), Ok(Some(vec![])));
    // The call updated the global "a"
    assert_eq!(env.get(&heap, "a"), Some(float_val(10.04)));
}

#[test]
fn test_exec_stat_if() {
    let if_stat = Statement::If((
        int_exp(0),
        Block { statements: vec![assign("a", int_exp(10), false)], return_stat: None },
        vec![],
        None,
    ));
    let mut heap = new_heap();
    let mut env = Env::new(&mut heap);
    assert_eq!(exec(&if_stat, &mut env, &mut heap), Ok(Some(vec![])));
    assert_eq!(env.get(&heap, "a"), Some(int_val(10)));
}

#[test]
fn test_exec_stat_else() {
    let if_stat = Statement::If((
        Expression::False,
        Block { statements: vec![assign("a", int_exp(10), false)], return_stat: None },
        vec![],
        Some(Block { statements: vec![assign("a", int_exp(20), false)], return_stat: None }),
    ));
    let mut heap = new_heap();
    let mut env = Env::new(&mut heap);
    assert_eq!(exec(&if_stat, &mut env, &mut heap), Ok(Some(vec![])));
    assert_eq!(env.get(&heap, "a"), Some(int_val(20)));
}

#[test]
fn test_exec_stat_elseif() {
    let if_stat = Statement::If((
        Expression::False,
        Block { statements: vec![assign("a", int_exp(10), false)], return_stat: None },
        vec![(
            Expression::True,
            Block { statements: vec![assign("a", int_exp(20), false)], return_stat: None },
        )],
        Some(Block { statements: vec![assign("a", int_exp(30), false)], return_stat: None }),
    ));
    let mut heap = new_heap();
    let mut env = Env::new(&mut heap);
    assert_eq!(exec(&if_stat, &mut env, &mut heap), Ok(Some(vec![])));
    assert_eq!(env.get(&heap, "a"), Some(int_val(20)));
}

#[test]
fn test_exec_stat_doblock() {
    let do_block = Statement::DoBlock(Block {
        statements: vec![assign("a", int_exp(10), false)],
        return_stat: Some(vec![var_exp("a")]),
    });
    let mut heap = new_heap();
    let mut env = Env::new(&mut heap);
    assert_eq!(exec(&do_block, &mut env, &mut heap), Ok(Some(lua_integer(10))));
    assert_eq!(env.get(&heap, "a"), Some(int_val(10)));
}

#[test]
fn test_exec_stat_while_break() {
    let while_stat = Statement::While((
        Expression::True,
        Block { statements: vec![assign("a", int_exp(10), false), Statement::Break], return_stat: None },
    ));
    let mut heap = new_heap();
    let mut env = Env::new(&mut heap);
    assert_eq!(exec(&while_stat, &mut env, &mut heap), Ok(Some(vec![])));
    assert_eq!(env.get(&heap, "a"), Some(int_val(10)));
}

#[test]
fn test_exec_stat_while_return() {
    let while_stat = Statement::While((
        Expression::True,
        Block { statements: vec![assign("a", int_exp(10), false)], return_stat: Some(vec![var_exp("a")]) },
    ));
    let mut heap = new_heap();
    let mut env = Env::new(&mut heap);
    assert_eq!(exec(&while_stat, &mut env, &mut heap), Ok(Some(lua_integer(10))));
    assert_eq!(env.get(&heap, "a"), Some(int_val(10)));
}

#[test]
fn test_exec_stat_while() {
    let stat = assign("a", int_exp(10), false);
    let while_stat = Statement::While((
        bin(var_exp("a"), BinOp::LessEq, int_exp(15)),
        Block { statements: vec![assign("a", bin(var_exp("a"), BinOp::Add, int_exp(2)), false)], return_stat: None },
    ));
    let mut heap = new_heap();
    let mut env = Env::new(&mut heap);
    exec(&stat, &mut env, &mut heap).unwrap();
    assert_eq!(exec(&while_stat, &mut env, &mut heap), Ok(Some(vec![])));
    assert_eq!(env.get(&heap, "a"), Some(int_val(16)));
}

#[test]
fn test_exec_stat_for_num() {
    let stat = assign("a", int_exp(10), false);
    let for_stat = Statement::ForNum((
        "i".to_string(),
        int_exp(1),
        int_exp(5),
        None,
        Block { statements: vec![assign("a", bin(var_exp("a"), BinOp::Add, var_exp("i")), false)], return_stat: None },
    ));
    let mut heap = new_heap();
    let mut env = Env::new(&mut heap);
    exec(&stat, &mut env, &mut heap).unwrap();
    assert_eq!(exec(&for_stat, &mut env, &mut heap), Ok(Some(vec![])));
    assert_eq!(env.get(&heap, "a"), Some(int_val(25)));
}

#[test]
fn test_exec_stat_for_num_break() {
    let for_stat = Statement::ForNum((
        "i".to_string(),
        int_exp(2),
        int_exp(0),
        Some(int_exp(-1)),
        Block { statements: vec![Statement::Break, assign("a", int_exp(20), false)], return_stat: None },
    ));
    let mut heap = new_heap();
    let mut env = Env::new(&mut heap);
    assert_eq!(exec(&for_stat, &mut env, &mut heap), Ok(Some(vec![])));
    assert_eq!(env.get(&heap, "a"), None);
}

#[test]
fn test_exec_stat_for_num_return() {
    let for_stat = Statement::ForNum((
        "i".to_string(),
        int_exp(2),
        int_exp(0),
        Some(int_exp(-1)),
        Block { statements: vec![assign("a", int_exp(20), false)], return_stat: Some(vec![var_exp("a")]) },
    ));
    let mut heap = new_heap();
    let mut env = Env::new(&mut heap);
    assert_eq!(exec(&for_stat, &mut env, &mut heap), Ok(Some(lua_integer(20))));
}

#[test]
fn test_exec_stat_for_num_step_zero() {
    let for_stat = Statement::ForNum((
        "i".to_string(),
        int_exp(2),
        int_exp(0),
        Some(int_exp(0)),
        Block { statements: vec![assign("a", int_exp(20), false)], return_stat: None },
    ));
    let mut heap = new_heap();
    let mut env = Env::new(&mut heap);
    assert_eq!(exec(&for_stat, &mut env, &mut heap), err("Step value in for loop cannot be 0"));
}

fn sum_block() -> Block {
    Block { statements: vec![], return_stat: Some(vec![bin(var_exp("a"), BinOp::Add, var_exp("b"))]) }
}

fn check_is_sum_function(v: Option<LuaValue>, heap: &Heap) {
    match v.unwrap().0 {
        LuaVal::Function(idx) => {
            let func = &heap.functions[idx];
            assert_eq!(*func.par_list, ParList(vec![String::from("a"), String::from("b")], false));
            assert_eq!(*func.block, sum_block());
        }
        other => panic!("not a function: {:?}", other),
    }
}

#[test]
fn test_exec_stat_func_decl() {
    let func_decl = Statement::FunctionDecl((
        "f".to_string(),
        ParList(vec![String::from("a"), String::from("b")], false),
        sum_block(),
    ));
    let mut heap = new_heap();
    let mut env = Env::new(&mut heap);
    assert_eq!(exec(&func_decl, &mut env, &mut heap), Ok(Some(vec![])));
    check_is_sum_function(env.get_global(&heap, "f"), &heap);
}

#[test]
fn test_exec_stat_func_decl_local() {
    let func_decl = Statement::LocalFuncDecl((
        "f".to_string(),
        ParList(vec![String::from("a"), String::from("b")], false),
        sum_block(),
    ));
    let mut heap = new_heap();
    let mut env = Env::new(&mut heap);
    assert_eq!(exec(&func_decl, &mut env, &mut heap), Ok(Some(vec![])));
    check_is_sum_function(env.get_local(&heap, "f"), &heap);
}

#[test]
fn test_exec_func_capture_variables() {
    let stat = assign("c", bin(var_exp("a"), BinOp::Add, var_exp("b")), false);
    let func_decl = Statement::FunctionDecl((
        "f".to_string(),
        ParList(vec![], false),
        Block { statements: vec![stat], return_stat: Some(vec![var_exp("c")]) },
    ));
    let assignments = Statement::Assignment((
        vec![name_var("a"), name_var("b")],
        vec![int_exp(10), int_exp(20)],
        true,
    ));
    let doblock = Statement::DoBlock(Block { statements: vec![assignments, func_decl], return_stat: None });
    let exp = PrefixExp::FunctionCall(call("f", vec![]));
    let mut heap = new_heap();
    let mut env = Env::new(&mut heap);
    assert_eq!(exec(&doblock, &mut env, &mut heap), Ok(Some(vec![])));
    // The locals cannot be reached after their scope ends
    assert_eq!(env.get(&heap, "a"), None);
    assert_eq!(env.get(&heap, "b"), None);
    // But the function (a closure) can reach them
    assert_eq!(eval_prefix(&exp, &mut env, &mut heap), Ok(lua_integer(30)));
}
