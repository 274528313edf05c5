//! Evaluation of expressions and calls.
use crate::ast::{spec_exp_text, Args, BinOp, Expression, Field, FunctionCall, Numeral, PrefixExp, UnOp, Var};
use crate::interpreter::environment::{
    lemma_scope_insert_get, spec_capture, spec_env_get, spec_local_get, spec_scope_get, Env, EnvTable, LocalEnv, ScopesView,
};
use crate::interpreter::float::FloatOps;
use crate::interpreter::statement::{
    lemma_run_plain_agree, spec_block_cost, spec_block_names, spec_lines_added, spec_run_plain,
};
use crate::interpreter::ops::{
    arith_values, bit_op, spec_float_result, equal_values, is_arith_op, is_bit_op,
    lemma_str_val, less_or_greater, spec_const_binary, spec_const_unary,
    spec_same_value, spec_outcome_of, lemma_same_value_congruent, lemma_wrap_ops,
};
use crate::interpreter::{
    bad_key_error, bool_value, spec_debug_text, spec_value_text, bytes_to_int, bytes_to_u64, exec_error, float_negate, float_value,
    int_value, is_float_val, spec_float_negate, spec_bits_of_bytes, is_int_val, nil_value, spec_heap_grows, spec_int_of_bytes, spec_int_val, spec_is_false, spec_table_get,
    spec_int_bytes, spec_key_eq, spec_bad_key_message, spec_table_set, spec_int_key, law_table_read_after_write,
    spec_int_key_set, spec_int_key_unset,
    lemma_int_of_bytes_injective, lemma_key_find_last_equiv, table_key_of, ASTExecError, Heap, LuaFunction, LuaTable, LuaVal, LuaValue, TableKey,
};
use crate::text::{chars_to_string, push_str, spec_trim, trim};
use crate::parser::util::{digits_value, is_digit, spec_digits_value};
use rand::Rng;
use vstd::prelude::*;

verus! {

broadcast use crate::interpreter::lemma_int_bytes;

/// The message when the evaluation has used up its steps.
pub open spec fn spec_out_of_fuel_message() -> Seq<char> {
    "Execution step limit reached"@
}

/// Uses up one step of the evaluation.
pub fn take_step(fuel: &mut u64) -> (ok: bool)
    ensures
        ok == (*old(fuel) > 0),
        ok ==> *final(fuel) == *old(fuel) - 1,
        !ok ==> *final(fuel) == *old(fuel),
{
    if *fuel == 0 {
        false
    } else {
        *fuel = *fuel - 1;
        true
    }
}

/// The error when the evaluation has used up its steps.
pub fn out_of_fuel() -> (e: ASTExecError)
    ensures
        e.0@ == spec_out_of_fuel_message(),
{
    exec_error("Execution step limit reached")
}

/// An error whose message is three pieces of text.
pub fn message3(a: &str, b: &str, c: &str) -> (e: ASTExecError)
    ensures
        e.0@ == a@ + b@ + c@,
{
    let mut out: Vec<char> = Vec::new();
    push_str(&mut out, a);
    push_str(&mut out, b);
    push_str(&mut out, c);
    ASTExecError(chars_to_string(out.as_slice()))
}

/// The first value, or `nil`.
pub fn first_value(vals: Vec<LuaValue>) -> (v: LuaValue)
    ensures
        v == (if vals@.len() == 0 {
            LuaValue(LuaVal::LuaNil)
        } else {
            vals@[0]
        }),
{
    LuaValue::extract_first_return_val(vals)
}

impl LocalEnv {
    /// A copy of the stack; the tables themselves stay shared.
    pub fn clone_env(&self) -> (l: LocalEnv)
        ensures
            l.0@ == self.0@,
    {
        let mut v: Vec<Option<crate::interpreter::environment::EnvTable>> = Vec::new();
        let mut i: usize = 0;
        while i < self.0.len()
            invariant
                i <= self.0@.len(),
                v@ == self.0@.take(i as int),
            decreases self.0@.len() - i,
        {
            v.push(self.0[i]);
            i = i + 1;
            assert(v@ =~= self.0@.take(i as int));
        }
        assert(self.0@.take(self.0@.len() as int) =~= self.0@);
        LocalEnv(v)
    }
}

/// The line `print` writes for its arguments, when no float is among
/// them: their texts separated by single spaces.
pub open spec fn spec_print_line(args: Seq<LuaValue>) -> Option<Seq<char>>
    decreases args.len(),
{
    if args.len() == 0 {
        Some(Seq::empty())
    } else {
        match (spec_print_line(args.drop_last()), spec_value_text(args.last().0)) {
            (Some(front), Some(t)) => if args.len() == 1 {
                Some(t)
            } else {
                Some(front + seq![' '] + t)
            },
            _ => None,
        }
    }
}

/// What `print` does to the heap for arguments with values `vals`: it
/// writes one more line, the texts of the values separated by spaces (when
/// no float is among them), and changes nothing else.
pub open spec fn spec_print_effect(vals: Seq<LuaVal>, h0: Heap, h1: Heap) -> bool {
    &&& h1.output@.len() == h0.output@.len() + 1
    &&& h1.output@.drop_last() == h0.output@
    &&& spec_print_line(spec_lua_values(vals)) matches Some(t) ==> h1.output@.last()@ == t
    &&& h1.scopes@ == h0.scopes@
    &&& h1.tables@ == h0.tables@
    &&& h1.functions@ == h0.functions@
    &&& h1.input@ == h0.input@
    &&& h1.input_pos == h0.input_pos
}

/// The number of steps that is enough for a call of `print` through the
/// prefix expression `callee` with the arguments `exps`, all of names,
/// fields and constants (see `spec_exp_cost`).
pub open spec fn spec_print_cost(callee: PrefixExp, exps: Seq<Expression>) -> nat {
    2 + spec_pexp_cost(callee) + spec_exps_cost(exps)
}

/// What `print` does on arguments whose values are `res` (see
/// `spec_eval_list`): it writes its line (see `spec_print_effect`) and
/// gives no values, or it fails with the error of the arguments and writes
/// nothing.
pub open spec fn spec_printed(
    res: Result<Seq<LuaVal>, Seq<char>>,
    r: Result<Vec<LuaValue>, ASTExecError>,
    h0: Heap,
    h1: Heap,
) -> bool {
    match res {
        Ok(vals) => (r matches Ok(vs) && vs@.len() == 0) && spec_print_effect(vals, h0, h1),
        Err(m) => r matches Err(e) && e.0@ == m && h1.output@ == h0.output@,
    }
}

impl FunctionCall {
    /// The line that `print` writes for its arguments: their texts
    /// separated by single spaces.
    pub fn print_fn<F: FloatOps>(args: &Vec<LuaValue>, fl: &F) -> (s: String)
        ensures
            spec_print_line(args@) matches Some(t) ==> s@ == t,
    {
        let mut out: Vec<char> = Vec::new();
        let mut i: usize = 0;
        while i < args.len()
            invariant
                i <= args@.len(),
                spec_print_line(args@.take(i as int)) matches Some(t) ==> out@ == t,
            decreases args@.len() - i,
        {
            let ghost before = out@;
            if i > 0 {
                out.push(' ');
            }
            let t = args[i].to_text(fl);
            push_str(&mut out, t.as_str());
            proof {
                let a = args@.take(i + 1);
                assert(a.drop_last() =~= args@.take(i as int));
                assert(a.last() == args@[i as int]);
                if let Some(tt) = spec_print_line(a) {
                    if i > 0 {
                        assert(out@ =~= before + seq![' '] + t@);
                    } else {
                        assert(out@ =~= t@);
                    }
                }
            }
            i = i + 1;
        }
        assert(args@.take(args@.len() as int) =~= args@);
        chars_to_string(out.as_slice())
    }
}

/// The input line at `pos`, trimmed; empty once the lines are used up.
pub open spec fn spec_input_line(input: Seq<String>, pos: int) -> Seq<char> {
    if 0 <= pos < input.len() {
        spec_trim(input[pos]@)
    } else {
        Seq::empty()
    }
}

/// Where reading stands after `n` more lines were asked for from `pos`:
/// it moves on by one line per request while lines are left.
pub open spec fn spec_pos_after(pos: int, len: int, n: int) -> int {
    if pos >= len {
        pos
    } else if pos + n <= len {
        pos + n
    } else {
        len
    }
}

/// The argument `"*line"` of `read`.
pub open spec fn spec_is_line_arg(v: LuaVal) -> bool {
    v matches LuaVal::LuaString(s) && s@ == "*line"@
}

/// An argument `"*number"` of `read`.
pub open spec fn spec_is_number_arg(v: LuaVal) -> bool {
    v matches LuaVal::LuaString(s) && s@ == "*number"@
}

/// The integer a line of input reads as: decimal digits, after a `-` for a
/// negative number, whose magnitude fits in an `i64`. `None` for other
/// lines, which are read as floats by the host.
pub open spec fn spec_int_line(s: Seq<char>) -> Option<int> {
    if s.len() > 0 && forall|k: int| 0 <= k < s.len() ==> is_digit(#[trigger] s[k]) {
        let v = spec_digits_value(s, 0, s.len() as int);
        if v <= i64::MAX {
            Some(v)
        } else {
            None
        }
    } else if s.len() > 1 && s[0] == '-' && forall|k: int| 1 <= k < s.len() ==> is_digit(#[trigger] s[k]) {
        let v = spec_digits_value(s, 1, s.len() as int);
        if v <= i64::MAX {
            Some(-v)
        } else {
            None
        }
    } else {
        None
    }
}

/// The integer a line of input reads as (see `spec_int_line`).
fn int_line(line: &str) -> (r: Option<i64>)
    ensures
        match spec_int_line(line@) {
            Some(n) => r == Some(n as i64),
            None => r is None,
        },
{
    let cs = crate::text::str_to_chars(line);
    let n = cs.len();
    if n == 0 {
        return None;
    }
    let start: usize = if cs[0] == '-' {
        1
    } else {
        0
    };
    if start >= n {
        return None;
    }
    let mut i: usize = start;
    while i < n
        invariant
            start <= i <= n,
            n == cs@.len(),
            n > 0,
            cs@ == line@,
            start == 1 ==> cs@[0] == '-',
            start == 0 ==> cs@[0] != '-',
            forall|k: int| start <= k < i ==> is_digit(#[trigger] cs@[k]),
        decreases n - i,
    {
        if !('0' <= cs[i] && cs[i] <= '9') {
            proof {
                assert(!is_digit(cs@[i as int]));
                if start == 0 {
                    assert(!(forall|k: int| 0 <= k < cs@.len() ==> is_digit(#[trigger] cs@[k])));
                    if cs@.len() > 1 && cs@[0] == '-' {
                        assert(!is_digit(cs@[0]));
                    }
                } else {
                    assert(!(forall|k: int| 1 <= k < cs@.len() ==> is_digit(#[trigger] cs@[k])));
                    assert(!(forall|k: int| 0 <= k < cs@.len() ==> is_digit(#[trigger] cs@[k])));
                }
            }
            return None;
        }
        i = i + 1;
    }
    proof {
        if start == 1 {
            assert(!is_digit(cs@[0]));
        }
    }
    proof {
        crate::parser::util::lemma_digits_value_nonneg(cs@, start as int, n as int);
    }
    match digits_value(&cs, start, n) {
        Some(v) => {
            if start == 1 {
                Some(0 - v)
            } else {
                Some(v)
            }
        },
        None => None,
    }
}

/// An argument that `read` accepts: `"*line"` or `"*number"`.
pub open spec fn spec_is_read_arg(v: LuaVal) -> bool {
    v matches LuaVal::LuaString(s) && (s@ == "*line"@ || s@ == "*number"@)
}

/// The message of `read` for an argument it does not accept.
pub open spec fn spec_read_arg_error(v: LuaVal) -> Seq<char> {
    match v {
        LuaVal::LuaString(s) => "Cannot read from stdin with argument '"@ + s@ + "'"@,
        _ => "Cannot read with argument of "@ + spec_debug_text(v) + ""@,
    }
}

/// Calls `rand::thread_rng().gen_range(0..=n)`. Trusted: its contract
/// claims only that the number drawn lies in `0..=n` (which one is left
/// open: it comes from a generator seeded per thread); `gen_range` panics on
/// an empty range, which `n >= 0` rules out.
#[verifier::external_body]
fn random_up_to(n: i64) -> (r: i64)
    requires
        n >= 0,
    ensures
        0 <= r <= n,
{
    rand::thread_rng().gen_range(0..=n)
}

impl FunctionCall {
    /// `random(n)`: a random integer from `0` to `n`.
    pub fn random_fn(arg: &LuaValue) -> (r: Result<Vec<LuaValue>, ASTExecError>)
        ensures
            match arg.0 {
                LuaVal::LuaNum(x, false) => if spec_int_of_bytes(x) >= 0 {
                    r matches Ok(vs) && vs@.len() == 1 && (vs@[0].0 matches LuaVal::LuaNum(
                        y,
                        false,
                    ) && 0 <= spec_int_of_bytes(y) <= spec_int_of_bytes(x))
                } else {
                    r matches Err(e) && e.0@ == "Cannot generate random number with a negative bound"@
                },
                LuaVal::LuaNum(_, true) => r matches Err(e) && e.0@
                    == "Cannot generate random number with float"@,
                _ => r is Err,
            },
            !(arg.0 is LuaNum) ==> (r matches Err(e) && e.0@ == "Cannot generate random number with argument of "@
                + spec_debug_text(arg.0)),
    {
        match &arg.0 {
            LuaVal::LuaNum(bytes, is_float) => {
                if *is_float {
                    Err(exec_error("Cannot generate random number with float"))
                } else {
                    let n = bytes_to_int(*bytes);
                    if n < 0 {
                        return Err(exec_error("Cannot generate random number with a negative bound"));
                    }
                    let x = random_up_to(n);
                    let mut v: Vec<LuaValue> = Vec::new();
                    v.push(int_value(x));
                    Ok(v)
                }
            },
            _ => {
                let d = arg.debug_text();
                let e = message3("Cannot generate random number with argument of ", d.as_str(), "");
                proof {
                    reveal_strlit("");
                    assert(e.0@ =~= "Cannot generate random number with argument of "@ + spec_debug_text(arg.0));
                }
                Err(e)
            },
        }
    }

    /// `read(...)`: for each argument, `"*line"` takes the next input line
    /// (trimmed) and `"*number"` takes the next line as a number. Every
    /// argument moves on by one line while lines are left.
    pub fn read_fn<F: FloatOps>(args: Vec<LuaValue>, heap: &mut Heap, fl: &F) -> (r: Result<
        Vec<LuaValue>,
        ASTExecError,
    >)
        ensures
            final(heap).input@ == old(heap).input@,
            final(heap).scopes@ == old(heap).scopes@,
            final(heap).tables@ == old(heap).tables@,
            final(heap).functions@ == old(heap).functions@,
            final(heap).output@ == old(heap).output@,
            spec_heap_grows(*old(heap), *final(heap)),
            (forall|j: int| 0 <= j < args@.len() ==> #[trigger] spec_is_line_arg(args@[j].0))
                ==> r is Ok,
            r matches Ok(vs) ==> {
                &&& vs@.len() == args@.len()
                &&& final(heap).input_pos == spec_pos_after(
                    old(heap).input_pos as int,
                    old(heap).input@.len() as int,
                    args@.len() as int,
                )
                &&& forall|j: int| 0 <= j < args@.len() ==> #[trigger] spec_is_read_arg(args@[j].0)
                &&& forall|j: int|
                    0 <= j < args@.len() && #[trigger] spec_is_line_arg(args@[j].0) ==> (
                    vs@[j].0 matches LuaVal::LuaString(t) && t@ == spec_input_line(
                        old(heap).input@,
                        old(heap).input_pos + j,
                    ))
                &&& forall|j: int|
                    0 <= j < args@.len() && #[trigger] spec_is_number_arg(args@[j].0) ==> (spec_int_line(
                        spec_input_line(old(heap).input@, old(heap).input_pos + j),
                    ) matches Some(n) ==> is_int_val(vs@[j].0, n as i64))
            },
            forall|k: int|
                0 <= k < args@.len() && !#[trigger] spec_is_read_arg(args@[k].0) && (forall|j: int|
                    0 <= j < k ==> spec_is_line_arg(args@[j].0)) ==> (r matches Err(e) && e.0@
                    == spec_read_arg_error(args@[k].0)),
{
        let mut result: Vec<LuaValue> = Vec::new();
        let mut i: usize = 0;
        while i < args.len()
            invariant
                i <= args@.len(),
                result@.len() == i,
                heap.input@ == old(heap).input@,
                heap.scopes@ == old(heap).scopes@,
                heap.tables@ == old(heap).tables@,
                heap.functions@ == old(heap).functions@,
                heap.output@ == old(heap).output@,
                old(heap).input_pos <= heap.input_pos,
                heap.input_pos == spec_pos_after(
                    old(heap).input_pos as int,
                    old(heap).input@.len() as int,
                    i as int,
                ),
                forall|j: int| 0 <= j < i ==> #[trigger] spec_is_read_arg(args@[j].0),
                forall|j: int|
                    0 <= j < i && #[trigger] spec_is_line_arg(args@[j].0) ==> (
                    result@[j].0 matches LuaVal::LuaString(t) && t@ == spec_input_line(
                        old(heap).input@,
                        old(heap).input_pos + j,
                    )),
                forall|j: int|
                    0 <= j < i && #[trigger] spec_is_number_arg(args@[j].0) ==> (spec_int_line(
                        spec_input_line(old(heap).input@, old(heap).input_pos + j),
                    ) matches Some(n) ==> is_int_val(result@[j].0, n as i64)),
            decreases args@.len() - i,
        {
            let ghost before = result@;
            match &args[i].0 {
                LuaVal::LuaString(s) => {
                    let is_line = crate::interpreter::environment::str_eq(s.as_str(), "*line");
                    let is_number = crate::interpreter::environment::str_eq(s.as_str(), "*number");
                    if is_line || is_number {
                        let line = if heap.input_pos < heap.input.len() {
                            let l = trim(heap.input[heap.input_pos].as_str());
                            heap.input_pos = heap.input_pos + 1;
                            l
                        } else {
                            String::new()
                        };
                        proof {
                            reveal_strlit("*line");
                            reveal_strlit("*number");
                            assert("*line"@[1] != "*number"@[1]);
                        }
                        if is_line {
                            result.push(LuaValue(LuaVal::LuaString(line)));
                        } else {
                            match int_line(line.as_str()) {
                                Some(n) => result.push(int_value(n)),
                                None => match fl.parse_float(line.as_str()) {
                                    Some(bits) => match fl.integral_value(bits) {
                                        Some(n) => result.push(int_value(n)),
                                        None => result.push(float_value(bits)),
                                    },
                                    None => {
                                        assert(!spec_is_line_arg(args@[i as int].0));
                                        return Err(exec_error("Invalid number"));
                                    },
                                },
                            }
                        }
                    } else {
                        assert(!spec_is_line_arg(args@[i as int].0));
                        return Err(
                            message3("Cannot read from stdin with argument '", s.as_str(), "'"),
                        );
                    }
                },
                _ => {
                    let d = args[i].debug_text();
                    assert(!spec_is_line_arg(args@[i as int].0));
                    return Err(message3("Cannot read with argument of ", d.as_str(), ""));
                },
            }
            i = i + 1;
        }
        Ok(result)
    }
}


/// The result is the error of an evaluation that used up its steps.
pub open spec fn is_fuel_error<T>(r: Result<T, ASTExecError>) -> bool {
    r matches Err(e) && e.0@ == spec_out_of_fuel_message()
}

/// How an evaluation reads names (the value, or `None` when it is not
/// known) and tables (the value under a key, `nil` for nothing).
pub type Reads = (spec_fn(Seq<char>) -> Option<LuaVal>, spec_fn(LuaTable, TableKey) -> Option<LuaVal>);

/// The one key that stands for all keys of the same field: an integer by
/// its value, a string by its text.
pub open spec fn spec_canon_key(k: TableKey) -> TableKey {
    match k {
        TableKey::Number(x) => TableKey::Number(spec_int_bytes(spec_int_of_bytes(x))),
        TableKey::String(st) => TableKey::String(choose|c: String| c@ == st@),
    }
}

/// The value a read of the tables gives, when it is known.
pub open spec fn spec_table_read(rd: Reads, t: LuaTable, k: TableKey) -> Option<Result<LuaVal, Seq<char>>> {
    match (rd.1)(t, spec_canon_key(k)) {
        Some(v) => Some(Ok(v)),
        None => None,
    }
}

/// The message for indexing a value that is not a table, given its text.
pub open spec fn spec_not_table_message(t: Seq<char>) -> Seq<char> {
    "attempt to index a non-table value '"@ + t + "'"@
}

/// `n` is the border of the table `t` as `tr` reads tables: the integer
/// keys 1 to `n` hold values other than `nil`, and `n + 1` holds `nil`
/// (or `n` is the largest integer).
pub open spec fn spec_is_border(tr: spec_fn(LuaTable, TableKey) -> Option<LuaVal>, t: LuaTable, n: int) -> bool {
    &&& 0 <= n <= i64::MAX
    &&& forall|k: int|
        1 <= k <= n ==> (#[trigger] tr(t, TableKey::Number(spec_int_bytes(k as i64))) matches Some(v)
            && !(v is LuaNil))
    &&& n < i64::MAX ==> tr(t, TableKey::Number(spec_int_bytes((n + 1) as i64))) == Some(LuaVal::LuaNil)
}

/// The length `#t` of the table `t`: its border (see `spec_is_border`),
/// when `tr` knows the keys that decide it.
pub open spec fn spec_table_length(tr: spec_fn(LuaTable, TableKey) -> Option<LuaVal>, t: LuaTable) -> Option<
    Result<LuaVal, Seq<char>>,
> {
    if exists|n: int| spec_is_border(tr, t, n) {
        Some(Ok(spec_int_val((choose|n: int| spec_is_border(tr, t, n)) as i64)))
    } else {
        None
    }
}

/// A table has one border.
pub proof fn lemma_border_unique(tr: spec_fn(LuaTable, TableKey) -> Option<LuaVal>, t: LuaTable, n1: int, n2: int)
    requires
        spec_is_border(tr, t, n1),
        spec_is_border(tr, t, n2),
    ensures
        n1 == n2,
{
    if n1 < n2 {
        assert(tr(t, TableKey::Number(spec_int_bytes((n1 + 1) as i64))) matches Some(v) && !(v is LuaNil));
    }
    if n2 < n1 {
        assert(tr(t, TableKey::Number(spec_int_bytes((n2 + 1) as i64))) matches Some(v) && !(v is LuaNil));
    }
}

/// Reads that agree give a table the same border.
pub proof fn lemma_border_agree(n1: Reads, n2: Reads, t: LuaTable, n: int)
    requires
        spec_reads_agree(n1, n2),
        spec_is_border(n1.1, t, n),
    ensures
        spec_is_border(n2.1, t, n),
{
    assert forall|k: int| 1 <= k <= n implies (#[trigger] (n2.1)(t, TableKey::Number(spec_int_bytes(k as i64)))
        matches Some(v) && !(v is LuaNil)) by {
        let key = TableKey::Number(spec_int_bytes(k as i64));
        assert((n1.1)(t, key) matches Some(v) && !(v is LuaNil));
        assert((n1.1)(t, key) matches Some(v) ==> ((n2.1)(t, key) matches Some(w) && spec_same_value(v, w)));
    }
    if n < i64::MAX {
        let key = TableKey::Number(spec_int_bytes((n + 1) as i64));
        assert((n1.1)(t, key) matches Some(v) ==> ((n2.1)(t, key) matches Some(w) && spec_same_value(v, w)));
    }
}

/// The border that `TableRef::calculate_border` finds in the heap `h` is
/// the border of the table as the heap's tables read.
pub proof fn lemma_border_of_heap(h: Heap, t: LuaTable, n: i64)
    requires
        n >= 0,
        t.0 < h.tables@.len() ==> forall|k: int|
            1 <= k <= n ==> #[trigger] spec_int_key_set(h.tables_view()[t.0 as int], k),
        t.0 < h.tables@.len() && n < i64::MAX ==> spec_int_key_unset(h.tables_view()[t.0 as int], n + 1),
        t.0 >= h.tables@.len() ==> n == 0,
    ensures
        spec_is_border(spec_tables_in(h.tables_view()), t, n as int),
{
    let tr = spec_tables_in(h.tables_view());
    if t.0 < h.tables@.len() {
        let e = h.tables_view()[t.0 as int];
        assert forall|k: int| 1 <= k <= n implies (#[trigger] tr(t, TableKey::Number(spec_int_bytes(k as i64)))
            matches Some(v) && !(v is LuaNil)) by {
            assert(spec_int_key_set(e, k));
            let b = choose|b: [u8; 8]|
                spec_int_of_bytes(b) == k && (#[trigger] spec_table_get(e, TableKey::Number(b)) matches Some(
                    v,
                ) && !(v.0 is LuaNil));
            let c = spec_int_bytes(k as i64);
            lemma_int_of_bytes_injective(b, c);
            lemma_key_find_last_equiv(e, TableKey::Number(b), TableKey::Number(c));
        }
        if n < i64::MAX {
            assert(spec_int_key_unset(e, n + 1));
            let b = choose|b: [u8; 8]|
                spec_int_of_bytes(b) == n + 1 && !(#[trigger] spec_table_get(e, TableKey::Number(b)) matches Some(
                    v,
                ) && !(v.0 is LuaNil));
            let c = spec_int_bytes((n + 1) as i64);
            lemma_int_of_bytes_injective(b, c);
            lemma_key_find_last_equiv(e, TableKey::Number(b), TableKey::Number(c));
        }
    }
}

/// The value of an expression made of names, fields of tables, `nil`,
/// booleans, integer numerals, strings, parentheses and operators, when no
/// float decides it: the value, or the message of the
/// error. `rd.0` gives the value a name reads, and `rd.1` what a table
/// holds under a key (`nil` for nothing), or `None` when it is not known.
/// `None` for any other expression.
pub open spec fn spec_eval_with(
    e: Expression,
    rd: Reads,
) -> Option<Result<LuaVal, Seq<char>>>
    decreases e,
{
    match e {
        Expression::Nil => Some(Ok(LuaVal::LuaNil)),
        Expression::False => Some(Ok(LuaVal::LuaBool(false))),
        Expression::True => Some(Ok(LuaVal::LuaBool(true))),
        Expression::Numeral(Numeral::Integer(i)) => Some(Ok(spec_int_val(i))),
        Expression::LiteralString(t) => Some(Ok(LuaVal::LuaString(t))),
        Expression::PrefixExp(p) => spec_eval_prefix(*p, rd),
        Expression::UnaryOp((op, x)) => match spec_eval_with(*x, rd) {
            Some(Ok(v)) => if op == UnOp::Length && v is LuaTable {
                spec_table_length(rd.1, v->LuaTable_0)
            } else {
                spec_const_unary(op, v)
            },
            other => other,
        },
        Expression::BinaryOp((l, op, r)) => match spec_eval_with(*l, rd) {
            Some(Ok(lv)) => if op == BinOp::LogicalAnd {
                if spec_is_false(lv) {
                    Some(Ok(lv))
                } else {
                    spec_eval_with(*r, rd)
                }
            } else if op == BinOp::LogicalOr {
                if !spec_is_false(lv) {
                    Some(Ok(lv))
                } else {
                    spec_eval_with(*r, rd)
                }
            } else {
                match spec_eval_with(*r, rd) {
                    Some(Ok(rv)) => spec_const_binary(op, lv, rv),
                    other => other,
                }
            },
            other => other,
        },
        _ => None,
    }
}

/// The number of steps that is enough to evaluate an expression of names,
/// fields and constants (see `spec_eval_with`): one for each evaluation of
/// a part, and one more for each operator.
pub open spec fn spec_exp_cost(e: Expression) -> nat
    decreases e,
{
    match e {
        Expression::PrefixExp(p) => 1 + spec_pexp_cost(*p),
        Expression::UnaryOp((_, x)) => 2 + spec_exp_cost(*x),
        Expression::BinaryOp((l, _, r)) => 2 + spec_exp_cost(*l) + spec_exp_cost(*r),
        _ => 1,
    }
}

/// The number of steps that is enough to evaluate the expressions `es` one
/// after the other (see `spec_exp_cost`).
pub open spec fn spec_exps_cost(es: Seq<Expression>) -> nat
    decreases es.len(),
{
    if es.len() == 0 {
        0
    } else {
        spec_exps_cost(es.drop_last()) + spec_exp_cost(es.last())
    }
}

/// The first `j + 1` expressions cost the first `j` and the next one, and
/// no more than all of them.
pub proof fn lemma_exps_cost_take(es: Seq<Expression>, j: int)
    requires
        0 <= j < es.len(),
    ensures
        spec_exps_cost(es.take(j + 1)) == spec_exps_cost(es.take(j)) + spec_exp_cost(es[j]),
        spec_exps_cost(es.take(j + 1)) <= spec_exps_cost(es),
    decreases es.len() - j,
{
    assert(es.take(j + 1).drop_last() =~= es.take(j));
    if j + 1 < es.len() {
        lemma_exps_cost_take(es, j + 1);
    } else {
        assert(es.take(j + 1) =~= es);
    }
}

/// The number of steps that is enough to evaluate a prefix expression of
/// names, fields and constants (see `spec_exp_cost`).
pub open spec fn spec_pexp_cost(p: PrefixExp) -> nat
    decreases p,
{
    match p {
        PrefixExp::Exp(x) => 1 + spec_exp_cost(x),
        PrefixExp::Var(Var::DotVar((q, _))) => 1 + spec_pexp_cost(*q),
        PrefixExp::Var(Var::BracketVar((q, k))) => 1 + spec_pexp_cost(*q) + spec_exp_cost(k),
        _ => 1,
    }
}

/// What indexing the value `pv` gives with the key `k` (see
/// `spec_eval_with`): the value held under the key when `pv` is a table, or
/// the error; `None` when a float decides it.
pub open spec fn spec_index_value(
    pv: LuaVal,
    k: LuaVal,
    rd: Reads,
) -> Option<Result<LuaVal, Seq<char>>> {
    match pv {
        LuaVal::LuaTable(t) => match k {
            LuaVal::LuaNum(x, false) => spec_table_read(rd, t, TableKey::Number(x)),
            LuaVal::LuaString(st) => spec_table_read(rd, t, TableKey::String(st)),
            LuaVal::LuaNum(_, true) => None,
            _ => Some(Err(spec_bad_key_message(spec_value_text(k)->Some_0))),
        },
        LuaVal::LuaNum(_, true) => None,
        _ => Some(Err(spec_not_table_message(spec_value_text(pv)->Some_0))),
    }
}

/// The value of a prefix expression that is a name, a field of a table
/// (`p.name` or `p[k]`) or a parenthesised expression (see
/// `spec_eval_with`); `None` for a call.
pub open spec fn spec_eval_prefix(
    p: PrefixExp,
    rd: Reads,
) -> Option<Result<LuaVal, Seq<char>>>
    decreases p,
{
    match p {
        PrefixExp::Exp(x) => spec_eval_with(x, rd),
        PrefixExp::Var(Var::NameVar(n)) => match (rd.0)(n@) {
            Some(v) => Some(Ok(v)),
            None => None,
        },
        PrefixExp::Var(Var::DotVar((q, f))) => match spec_eval_prefix(*q, rd) {
            Some(Ok(pv)) => match pv {
                LuaVal::LuaTable(t) => spec_table_read(rd, t, TableKey::String(f)),
                LuaVal::LuaNum(_, true) => None,
                _ => Some(Err(spec_not_table_message(spec_value_text(pv)->Some_0))),
            },
            other => other,
        },
        PrefixExp::Var(Var::BracketVar((q, k))) => match spec_eval_prefix(*q, rd) {
            Some(Ok(pv)) => if pv is LuaTable {
                match spec_eval_with(k, rd) {
                    Some(Ok(kv)) => spec_index_value(pv, kv, rd),
                    other => other,
                }
            } else {
                spec_index_value(pv, LuaVal::LuaNil, rd)
            },
            other => other,
        },
        PrefixExp::FunctionCall(_) => None,
    }
}

/// What the tables `tv` hold: the value under a key, or `nil`.
pub open spec fn spec_tables_in(tv: Seq<Seq<(TableKey, LuaValue)>>) -> spec_fn(LuaTable, TableKey) -> Option<
    LuaVal,
> {
    |t: LuaTable, k: TableKey|
        Some(
            if t.0 < tv.len() {
                match spec_table_get(tv[t.0 as int], k) {
                    Some(v) => v.0,
                    None => LuaVal::LuaNil,
                }
            } else {
                LuaVal::LuaNil
            },
        )
}

/// A key and the key that stands for its field find the same entry.
pub proof fn lemma_table_get_canon(e: Seq<(TableKey, LuaValue)>, k: TableKey)
    ensures
        spec_table_get(e, spec_canon_key(k)) == spec_table_get(e, k),
{
    let c = spec_canon_key(k);
    match k {
        TableKey::Number(x) => {
            lemma_int_of_bytes_injective(c->Number_0, x);
        },
        TableKey::String(st) => {
            assert(exists|cc: String| cc@ == st@);
        },
    }
    lemma_key_find_last_equiv(e, c, k);
}

/// How names read in the scopes `sv` through the global table `g` and the
/// stack `s`: what they are bound to, or `nil`.
pub open spec fn spec_names_in(sv: ScopesView, g: EnvTable, s: Seq<Option<EnvTable>>) -> spec_fn(
    Seq<char>,
) -> Option<LuaVal> {
    |n: Seq<char>| Some(spec_read_name(sv, g, s, n).0)
}

/// How an evaluation reads in the heap `h` through the global table `g` and
/// the stack `s`.
pub open spec fn spec_reads_in(h: Heap, g: EnvTable, s: Seq<Option<EnvTable>>) -> Reads {
    (spec_names_in(h.scopes_view(), g, s), spec_tables_in(h.tables_view()))
}

/// The value of an expression of names, fields and constants (see
/// `spec_eval_with`) in the heap `h` through the global table `g` and the
/// stack `s`.
pub open spec fn spec_eval_in(e: Expression, h: Heap, g: EnvTable, s: Seq<Option<EnvTable>>) -> Option<
    Result<LuaVal, Seq<char>>,
> {
    spec_eval_with(e, spec_reads_in(h, g, s))
}

/// Two results are the same: the same value, or the same error.
pub open spec fn spec_same_result(a: Result<LuaVal, Seq<char>>, b: Result<LuaVal, Seq<char>>) -> bool {
    match (a, b) {
        (Ok(x), Ok(y)) => spec_same_value(x, y),
        (Err(m), Err(k)) => m == k,
        _ => false,
    }
}

/// The first reads agree with the second: what the first knows (names and
/// fields of tables) reads the same values in the second.
pub open spec fn spec_reads_agree(n1: Reads, n2: Reads) -> bool {
    &&& forall|x: Seq<char>|
        #[trigger] (n1.0)(x) matches Some(v) ==> ((n2.0)(x) matches Some(w) && spec_same_value(v, w))
    &&& forall|t: LuaTable, k: TableKey|
        #[trigger] (n1.1)(t, k) matches Some(v) ==> ((n2.1)(t, k) matches Some(w) && spec_same_value(v, w))
}

/// Reads that agree (see `spec_reads_agree`) give expressions the same
/// values.
pub proof fn lemma_eval_with_agree(e: Expression, n1: Reads, n2: Reads)
    requires
        spec_reads_agree(n1, n2),
    ensures
        spec_eval_with(e, n1) matches Some(a) ==> (spec_eval_with(e, n2) matches Some(b)
            && spec_same_result(a, b)),
    decreases e,
{
    match e {
        Expression::PrefixExp(p) => lemma_eval_prefix_agree(*p, n1, n2),
        Expression::UnaryOp((op, x)) => {
            lemma_eval_with_agree(*x, n1, n2);
            if let Some(Ok(v1)) = spec_eval_with(*x, n1) {
                let v2 = spec_eval_with(*x, n2)->Some_0->Ok_0;
                lemma_same_value_congruent(BinOp::Add, op, v1, v1, v2, v2);
                if op == UnOp::Length && v1 is LuaTable {
                    let t = v1->LuaTable_0;
                    if exists|n: int| spec_is_border(n1.1, t, n) {
                        let a = choose|n: int| spec_is_border(n1.1, t, n);
                        lemma_border_agree(n1, n2, t, a);
                        let b = choose|n: int| spec_is_border(n2.1, t, n);
                        lemma_border_unique(n2.1, t, a, b);
                    }
                }
            }
        },
        Expression::BinaryOp((l, op, r)) => {
            lemma_eval_with_agree(*l, n1, n2);
            lemma_eval_with_agree(*r, n1, n2);
            if let Some(Ok(lv1)) = spec_eval_with(*l, n1) {
                let lv2 = spec_eval_with(*l, n2)->Some_0->Ok_0;
                lemma_same_value_congruent(op, UnOp::Negate, lv1, lv1, lv2, lv2);
                if let Some(Ok(rv1)) = spec_eval_with(*r, n1) {
                    let rv2 = spec_eval_with(*r, n2)->Some_0->Ok_0;
                    lemma_same_value_congruent(op, UnOp::Negate, lv1, rv1, lv2, rv2);
                }
            }
        },
        _ => {},
    }
}

/// Reads that agree give prefix expressions the same values.
pub proof fn lemma_eval_prefix_agree(p: PrefixExp, n1: Reads, n2: Reads)
    requires
        spec_reads_agree(n1, n2),
    ensures
        spec_eval_prefix(p, n1) matches Some(a) ==> (spec_eval_prefix(p, n2) matches Some(b)
            && spec_same_result(a, b)),
    decreases p,
{
    match p {
        PrefixExp::Exp(x) => lemma_eval_with_agree(x, n1, n2),
        PrefixExp::Var(Var::NameVar(n)) => {
            assert((n1.0)(n@) matches Some(v) ==> ((n2.0)(n@) matches Some(w) && spec_same_value(v, w)));
        },
        PrefixExp::Var(Var::DotVar((q, f))) => {
            lemma_eval_prefix_agree(*q, n1, n2);
            if let Some(Ok(LuaVal::LuaTable(t))) = spec_eval_prefix(*q, n1) {
                let ck = spec_canon_key(TableKey::String(f));
                assert((n1.1)(t, ck) matches Some(v) ==> ((n2.1)(t, ck) matches Some(w) && spec_same_value(v, w)));
            }
        },
        PrefixExp::Var(Var::BracketVar((q, k))) => {
            lemma_eval_prefix_agree(*q, n1, n2);
            lemma_eval_with_agree(k, n1, n2);
            if let Some(Ok(pv)) = spec_eval_prefix(*q, n1) {
                if let Some(Ok(kv1)) = spec_eval_with(k, n1) {
                    let kv2 = spec_eval_with(k, n2)->Some_0->Ok_0;
                    lemma_index_same_key(pv, kv1, kv2, n1);
                    lemma_index_agree(pv, kv2, n1, n2);
                }
                if !(pv is LuaTable) {
                    lemma_index_agree(pv, LuaVal::LuaNil, n1, n2);
                }
            }
        },
        _ => {},
    }
}

/// Keys that are the same value stand for the same field.
pub proof fn lemma_same_key_canon(a: LuaVal, b: LuaVal)
    requires
        spec_same_value(a, b),
    ensures
        a matches LuaVal::LuaNum(x, false) ==> (b matches LuaVal::LuaNum(y, false) && spec_canon_key(
            TableKey::Number(x),
        ) == spec_canon_key(TableKey::Number(y))),
        a matches LuaVal::LuaString(sa) ==> (b matches LuaVal::LuaString(sb) && spec_canon_key(
            TableKey::String(sa),
        ) == spec_canon_key(TableKey::String(sb))),
{
}

/// Indexing with keys that are the same value gives the same result.
pub proof fn lemma_index_same_key(pv: LuaVal, k1: LuaVal, k2: LuaVal, rd: Reads)
    requires
        spec_same_value(k1, k2),
    ensures
        spec_index_value(pv, k1, rd) == spec_index_value(pv, k2, rd),
{
}

/// Indexing in reads that agree gives the same result.
pub proof fn lemma_index_agree(pv: LuaVal, k: LuaVal, n1: Reads, n2: Reads)
    requires
        spec_reads_agree(n1, n2),
    ensures
        spec_index_value(pv, k, n1) matches Some(a) ==> (spec_index_value(pv, k, n2) matches Some(b)
            && spec_same_result(a, b)),
{
    if let LuaVal::LuaTable(t) = pv {
        match k {
            LuaVal::LuaNum(x, false) => {
                let ck = spec_canon_key(TableKey::Number(x));
                assert((n1.1)(t, ck) matches Some(v) ==> ((n2.1)(t, ck) matches Some(w) && spec_same_value(v, w)));
            },
            LuaVal::LuaString(st) => {
                let ck = spec_canon_key(TableKey::String(st));
                assert((n1.1)(t, ck) matches Some(v) ==> ((n2.1)(t, ck) matches Some(w) && spec_same_value(v, w)));
            },
            _ => {},
        }
    }
}

/// The values of expressions of names, fields and constants (see
/// `spec_eval_with`), one each, evaluated from left to right: the values,
/// or the first error.
pub open spec fn spec_eval_list(es: Seq<Expression>, rd: Reads) -> Option<
    Result<Seq<LuaVal>, Seq<char>>,
>
    decreases es.len(),
{
    if es.len() == 0 {
        Some(Ok(Seq::empty()))
    } else {
        match spec_eval_list(es.drop_last(), rd) {
            Some(Ok(front)) => match spec_eval_with(es.last(), rd) {
                Some(Ok(v)) => Some(Ok(front.push(v))),
                Some(Err(m)) => Some(Err(m)),
                None => None,
            },
            other => other,
        }
    }
}

/// Once a prefix of the list gives no values, the list gives what the
/// prefix gives; values of a prefix are one for each expression.
pub proof fn lemma_eval_list_prefix(
    es: Seq<Expression>,
    rd: Reads,
    j: int,
)
    requires
        0 <= j <= es.len(),
    ensures
        spec_eval_list(es.take(j), rd) matches Some(Ok(vals)) ==> vals.len() == j,
        !(spec_eval_list(es.take(j), rd) matches Some(Ok(_))) ==> spec_eval_list(es, rd)
            == spec_eval_list(es.take(j), rd),
    decreases es.len(),
{
    if es.len() > j {
        assert(es.drop_last().take(j) =~= es.take(j));
        lemma_eval_list_prefix(es.drop_last(), rd, j);
    } else {
        assert(es.take(j) =~= es);
        lemma_eval_list_len(es, rd);
    }
}

/// A list gives one value for each expression.
pub proof fn lemma_eval_list_len(es: Seq<Expression>, rd: Reads)
    ensures
        spec_eval_list(es, rd) matches Some(Ok(vals)) ==> vals.len() == es.len(),
    decreases es.len(),
{
    if es.len() > 0 {
        lemma_eval_list_len(es.drop_last(), rd);
    }
}

/// A result is one value, the expected one, or the expected error.
pub open spec fn spec_outcome_vec_of(r: Result<Vec<LuaValue>, ASTExecError>, res: Result<LuaVal, Seq<char>>) -> bool {
    match res {
        Ok(v) => r matches Ok(vs) && vs@.len() == 1 && spec_same_value(vs@[0].0, v),
        Err(m) => r matches Err(e) && e.0@ == m,
    }
}

/// The same values print the same line.
pub proof fn lemma_print_line_same(a: Seq<LuaValue>, b: Seq<LuaValue>)
    requires
        a.len() == b.len(),
        forall|k: int| 0 <= k < a.len() ==> spec_same_value((#[trigger] a[k]).0, b[k].0),
    ensures
        spec_print_line(a) == spec_print_line(b),
    decreases a.len(),
{
    if a.len() > 0 {
        let da = a.drop_last();
        let db = b.drop_last();
        assert forall|k: int| 0 <= k < da.len() implies spec_same_value((#[trigger] da[k]).0, db[k].0) by {
            assert(da[k] == a[k] && db[k] == b[k]);
        }
        lemma_print_line_same(da, db);
        assert(spec_same_value(a.last().0, b.last().0));
    }
}

/// One value.
pub fn single(v: LuaValue) -> (vs: Vec<LuaValue>)
    ensures
        vs@ == seq![v],
{
    let mut vs: Vec<LuaValue> = Vec::new();
    vs.push(v);
    vs
}

/// The value of reading `name`: what it is bound to, or `nil`.
pub open spec fn spec_read_name(sv: ScopesView, g: EnvTable, s: Seq<Option<EnvTable>>, name: Seq<char>) -> LuaValue {
    match spec_env_get(sv, g, s, name) {
        Some(v) => v,
        None => LuaValue(LuaVal::LuaNil),
    }
}

impl Expression {
    /// Evaluates this expression to its values (a call may give several).
    pub fn eval<'a, F: FloatOps>(
        &'a self,
        env: &mut Env,
        heap: &mut Heap<'a>,
        fl: &F,
        fuel: &mut u64,
    ) -> (r: Result<Vec<LuaValue>, ASTExecError>)
        ensures
            *final(fuel) <= *old(fuel),
            spec_heap_grows(*old(heap), *final(heap)),
            *final(env) == *old(env),
            *old(fuel) == 0 ==> is_fuel_error(r),
            spec_eval_in(*self, *old(heap), old(env).global, old(env).local.0@) matches Some(
                res,
            ) ==> is_fuel_error(r) || spec_outcome_vec_of(r, res),
            spec_eval_in(*self, *old(heap), old(env).global, old(env).local.0@) is Some
                ==> *final(heap) == *old(heap),
            spec_eval_in(*self, *old(heap), old(env).global, old(env).local.0@) matches Some(res)
                ==> (*old(fuel) >= spec_exp_cost(*self) ==> spec_outcome_vec_of(r, res)
                && *final(fuel) >= *old(fuel) - spec_exp_cost(*self)),
            *old(fuel) > 0 ==> (*self matches Expression::FunctionDef((pars, body)) ==> (r matches Ok(vs)
                && vs@ == seq![LuaValue(LuaVal::Function(old(heap).functions@.len() as usize))]
                && final(heap).functions@.len() == old(heap).functions@.len() + 1
                && *final(heap).functions@.last().par_list == pars
                && *final(heap).functions@.last().block == body
                && final(heap).functions@.last().captured_env.0@
                == spec_capture(old(env).local.0@, old(heap).scopes@.len() as usize))),
            *self matches Expression::TableConstructor(fields) ==> (spec_ctor_entries(
                fields@,
                spec_ctor_reads(*old(heap), old(env).global, old(env).local.0@),
            ) matches Some(res) ==> is_fuel_error(r) || spec_ctor_value(res, r, *old(heap), *final(heap))),
            *self matches Expression::TableConstructor(fields) ==> (spec_ctor_entries(
                fields@,
                spec_ctor_reads(*old(heap), old(env).global, old(env).local.0@),
            ) matches Some(res) ==> (*old(fuel) >= 2 + spec_fields_cost(fields@) ==> spec_ctor_value(
                res,
                r,
                *old(heap),
                *final(heap),
            ))),
            *self matches Expression::PrefixExp(p) ==> (*p matches PrefixExp::Var(Var::NameVar(n))
                ==> (*old(fuel) > 1 ==> (r matches Ok(vs) && vs@.len() == 1 && vs@[0] == (
            match spec_env_get(old(heap).scopes_view(), old(env).global, old(env).local.0@, n@) {
                Some(v) => v,
                None => LuaValue(LuaVal::LuaNil),
            })))),
            *old(fuel) > 0 && (*self is DotDotDot) ==> (r matches Err(e) && e.0@
                == "Variable arguments (...) are not supported"@),
            !(*self is PrefixExp) ==> (r matches Ok(vs) ==> vs@.len() == 1),
        decreases *old(fuel),
    {
        if !take_step(fuel) {
            return Err(out_of_fuel());
        }
        match self {
            Expression::Nil => Ok(single(nil_value())),
            Expression::False => Ok(single(bool_value(false))),
            Expression::True => Ok(single(bool_value(true))),
            Expression::Numeral(n) => match n {
                Numeral::Integer(i) => Ok(single(int_value(*i))),
                Numeral::Float(t) => match fl.parse_float(t.as_str()) {
                    Some(bits) => Ok(single(float_value(bits))),
                    None => Err(message3("Invalid float literal '", t.as_str(), "'")),
                },
            },
            Expression::LiteralString(s) => Ok(single(LuaValue(LuaVal::LuaString(s.clone())))),
            Expression::DotDotDot => Err(exec_error("Variable arguments (...) are not supported")),
            Expression::FunctionDef((par_list, block)) => {
                let captured_env = env.local.capture_env(heap);
                let idx = heap.functions.len();
                heap.functions.push(LuaFunction { par_list, block, captured_env });
                Ok(single(LuaValue(LuaVal::Function(idx))))
            },
            Expression::PrefixExp(prefixexp) => prefixexp.eval(env, heap, fl, fuel),
            Expression::TableConstructor(fields) => {
                let table = build_table(fields, env, heap, fl, fuel)?;
                Ok(single(LuaValue(LuaVal::LuaTable(table))))
            },
            Expression::BinaryOp((left, op, right)) => {
                let v = Expression::eval_binary_exp(*op, left, right, env, heap, fl, fuel)?;
                Ok(single(v))
            },
            Expression::UnaryOp((op, exp)) => {
                let v = Expression::eval_unary_exp(*op, exp, env, heap, fl, fuel)?;
                Ok(single(v))
            },
        }
    }

    /// Evaluates a unary operation.
    pub fn eval_unary_exp<'a, F: FloatOps>(
        op: UnOp,
        exp: &'a Expression,
        env: &mut Env,
        heap: &mut Heap<'a>,
        fl: &F,
        fuel: &mut u64,
    ) -> (r: Result<LuaValue, ASTExecError>)
        ensures
            *final(fuel) <= *old(fuel),
            spec_heap_grows(*old(heap), *final(heap)),
            *final(env) == *old(env),
            spec_eval_in(
                Expression::UnaryOp((op, Box::new(*exp))),
                *old(heap),
                old(env).global,
                old(env).local.0@,
            ) matches Some(res) ==> is_fuel_error(r) || spec_outcome_of(r, res),
            spec_eval_in(
                Expression::UnaryOp((op, Box::new(*exp))),
                *old(heap),
                old(env).global,
                old(env).local.0@,
            ) is Some ==> *final(heap) == *old(heap),
            spec_eval_in(
                Expression::UnaryOp((op, Box::new(*exp))),
                *old(heap),
                old(env).global,
                old(env).local.0@,
            ) matches Some(res) ==> (*old(fuel) >= 1 + spec_exp_cost(*exp) ==> spec_outcome_of(r, res)
                && *final(fuel) >= *old(fuel) - 1 - spec_exp_cost(*exp)),
        decreases *old(fuel),
    {
        if !take_step(fuel) {
            return Err(out_of_fuel());
        }
        let ghost hh = *heap;
        let val = first_value(exp.eval(env, heap, fl, fuel)?);
        proof {
            if let Some(Ok(v)) = spec_eval_in(*exp, hh, env.global, env.local.0@) {
                lemma_same_value_congruent(BinOp::Add, op, val.0, val.0, v, v);
            }
        }
        let r = unary_value(op, val, heap, fl);
        proof {
            if let Some(Ok(v)) = spec_eval_in(*exp, hh, env.global, env.local.0@) {
                if op == UnOp::Length && v is LuaTable {
                    let t = v->LuaTable_0;
                    let tr = spec_tables_in(hh.tables_view());
                    let b = r->Ok_0.0->LuaNum_0;
                    let n = spec_int_of_bytes(b) as int;
                    assert(spec_is_border(tr, t, n));
                    let c = choose|m: int| spec_is_border(tr, t, m);
                    lemma_border_unique(tr, t, c, n);
                }
            }
        }
        r
    }

    /// Evaluates a binary operation. The left operand is evaluated first;
    /// `and` and `or` evaluate the right operand only when it decides the
    /// result.
    pub fn eval_binary_exp<'a, F: FloatOps>(
        op: BinOp,
        left: &'a Expression,
        right: &'a Expression,
        env: &mut Env,
        heap: &mut Heap<'a>,
        fl: &F,
        fuel: &mut u64,
    ) -> (r: Result<LuaValue, ASTExecError>)
        ensures
            *final(fuel) <= *old(fuel),
            spec_heap_grows(*old(heap), *final(heap)),
            *final(env) == *old(env),
            spec_eval_in(
                Expression::BinaryOp((Box::new(*left), op, Box::new(*right))),
                *old(heap),
                old(env).global,
                old(env).local.0@,
            ) matches Some(res) ==> is_fuel_error(r) || spec_outcome_of(r, res),
            spec_eval_in(
                Expression::BinaryOp((Box::new(*left), op, Box::new(*right))),
                *old(heap),
                old(env).global,
                old(env).local.0@,
            ) is Some ==> *final(heap) == *old(heap),
            spec_eval_in(
                Expression::BinaryOp((Box::new(*left), op, Box::new(*right))),
                *old(heap),
                old(env).global,
                old(env).local.0@,
            ) matches Some(res) ==> (*old(fuel) >= 1 + spec_exp_cost(*left) + spec_exp_cost(*right)
                ==> spec_outcome_of(r, res) && *final(fuel) >= *old(fuel) - 1 - spec_exp_cost(*left)
                - spec_exp_cost(*right)),
            spec_eval_in(*left, *old(heap), old(env).global, old(env).local.0@) matches Some(Ok(a))
                ==> (spec_eval_in(*right, *old(heap), old(env).global, old(env).local.0@) matches Some(Ok(b))
                ==> (spec_float_result(op, a, b) ==> is_fuel_error(r) || (r matches Ok(v) && v.0 matches LuaVal::LuaNum(
                _,
                true,
            )))),
        decreases *old(fuel),
    {
        if !take_step(fuel) {
            return Err(out_of_fuel());
        }
        let ghost left_exp = *left;
        let ghost right_exp = *right;
        let ghost hh = *heap;
        let left = first_value(left.eval(env, heap, fl, fuel)?);
        proof {
            if let Some(Ok(lv)) = spec_eval_in(left_exp, hh, env.global, env.local.0@) {
                lemma_same_value_congruent(op, UnOp::Negate, left.0, left.0, lv, lv);
            }
        }
        match op {
            BinOp::LogicalAnd => {
                if left.is_false() {
                    Ok(left)
                } else {
                    Ok(first_value(right.eval(env, heap, fl, fuel)?))
                }
            },
            BinOp::LogicalOr => {
                if left.is_true() {
                    Ok(left)
                } else {
                    Ok(first_value(right.eval(env, heap, fl, fuel)?))
                }
            },
            _ => {
                let right = first_value(right.eval(env, heap, fl, fuel)?);
                proof {
                    if let Some(Ok(lv)) = spec_eval_in(left_exp, hh, env.global, env.local.0@) {
                        if let Some(Ok(rv)) = spec_eval_in(right_exp, hh, env.global, env.local.0@) {
                            lemma_same_value_congruent(op, UnOp::Negate, left.0, right.0, lv, rv);
                        }
                    }
                }
                binary_value(op, left, right, fl)
            },
        }
    }
}

/// A binary operator other than `and` and `or` on two evaluated operands.
pub fn binary_value<F: FloatOps>(op: BinOp, left: LuaValue, right: LuaValue, fl: &F) -> (r:
    Result<LuaValue, ASTExecError>)
    requires
        op != BinOp::LogicalAnd,
        op != BinOp::LogicalOr,
    ensures
        spec_const_binary(op, left.0, right.0) matches Some(res) ==> spec_outcome_of(r, res),
        spec_float_result(op, left.0, right.0) ==> (r matches Ok(v) && v.0 matches LuaVal::LuaNum(_, true)),
{
    match op {
        BinOp::Add | BinOp::Sub | BinOp::Mult | BinOp::Div | BinOp::IntegerDiv | BinOp::Pow
        | BinOp::Mod => arith_values(op, &left, &right, fl),
        BinOp::BitAnd | BinOp::BitXor | BinOp::BitOr | BinOp::ShiftRight | BinOp::ShiftLeft => {
            let a = left.into_int(fl)?;
            let b = right.into_int(fl)?;
            let c = bit_op(op, a, b);
            Ok(int_value(c))
        },
        BinOp::Concat => {
            let s1 = left.into_string(fl)?;
            let s2 = right.into_string(fl)?;
            let mut s = s1;
            crate::text::append_string(&mut s, &s2);
            proof {
                lemma_str_val(s, s@);
            }
            Ok(LuaValue(LuaVal::LuaString(s)))
        },
        BinOp::LessThan => Ok(bool_value(less_or_greater(&left, &right, true, fl)?)),
        BinOp::GreaterThan => Ok(bool_value(less_or_greater(&left, &right, false, fl)?)),
        BinOp::LessEq => Ok(bool_value(!less_or_greater(&left, &right, false, fl)?)),
        BinOp::GreaterEq => Ok(bool_value(!less_or_greater(&left, &right, true, fl)?)),
        BinOp::Equal => Ok(bool_value(equal_values(&left, &right, fl))),
        _ => Ok(bool_value(!equal_values(&left, &right, fl))),
    }
}

/// A unary operator on an evaluated operand.
pub fn unary_value<F: FloatOps>(op: UnOp, val: LuaValue, heap: &Heap, fl: &F) -> (r: Result<
    LuaValue,
    ASTExecError,
>)
    ensures
        spec_const_unary(op, val.0) matches Some(res) ==> spec_outcome_of(r, res),
        op == UnOp::Negate ==> (val.0 matches LuaVal::LuaNum(b, true) ==> (r matches Ok(w) && is_float_val(
            w.0,
            spec_float_negate(spec_bits_of_bytes(b)),
        ))),
        op == UnOp::Length ==> (val.0 matches LuaVal::LuaTable(t) ==> (r matches Ok(w) && (w.0 matches LuaVal::LuaNum(
            b,
            false,
        ) && spec_is_border(spec_tables_in(heap.tables_view()), t, spec_int_of_bytes(b) as int)))),
{
    match op {
        UnOp::Negate => match &val.0 {
            LuaVal::LuaNum(bytes, is_float) => {
                if !*is_float {
                    let i = bytes_to_int(*bytes);
                    proof {
                        lemma_wrap_ops(0, i);
                    }
                    Ok(int_value(0i64.wrapping_sub(i)))
                } else {
                    Ok(float_value(float_negate(bytes_to_u64(*bytes))))
                }
            },
            _ => Err(exec_error("Cannot negate values that are not numbers")),
        },
        UnOp::LogicalNot => Ok(bool_value(val.is_false())),
        UnOp::Length => match &val.0 {
            LuaVal::LuaString(s) => {
                let n = s.as_str().len();
                if (n as u64) <= 9223372036854775807u64 {
                    Ok(int_value(n as i64))
                } else {
                    Err(exec_error("String is too long"))
                }
            },
            LuaVal::LuaTable(t) => {
                let n = t.calculate_border(heap);
                proof {
                    lemma_border_of_heap(*heap, *t, n);
                }
                Ok(int_value(n))
            },
            _ => Err(exec_error("Cannot get length of value that is not a string or table")),
        },
        UnOp::BitNot => {
            let i = val.into_int(fl)?;
            Ok(int_value(!i))
        },
    }
}

/// The error for indexing a value that is not a table.
fn not_a_table<F: FloatOps>(v: &LuaValue, fl: &F) -> (e: ASTExecError)
    ensures
        spec_value_text(v.0) matches Some(t) ==> e.0@ == spec_not_table_message(t),
{
    let t = v.to_text(fl);
    message3("attempt to index a non-table value '", t.as_str(), "'")
}

impl PrefixExp {
    /// Evaluates a variable, a call or a parenthesised expression.
    pub fn eval<'a, F: FloatOps>(
        &'a self,
        env: &mut Env,
        heap: &mut Heap<'a>,
        fl: &F,
        fuel: &mut u64,
    ) -> (r: Result<Vec<LuaValue>, ASTExecError>)
        ensures
            *final(fuel) <= *old(fuel),
            spec_heap_grows(*old(heap), *final(heap)),
            *final(env) == *old(env),
            spec_eval_prefix(*self, spec_reads_in(*old(heap), old(env).global, old(env).local.0@))
                matches Some(res) ==> is_fuel_error(r) || spec_outcome_vec_of(r, res),
            spec_eval_prefix(*self, spec_reads_in(*old(heap), old(env).global, old(env).local.0@))
                is Some ==> *final(heap) == *old(heap),
            spec_eval_prefix(*self, spec_reads_in(*old(heap), old(env).global, old(env).local.0@))
                matches Some(res) ==> (*old(fuel) >= spec_pexp_cost(*self) ==> spec_outcome_vec_of(r, res)
                && *final(fuel) >= *old(fuel) - spec_pexp_cost(*self)),
            *old(fuel) == 0 ==> is_fuel_error(r),
            *self matches PrefixExp::Var(Var::NameVar(n)) ==> *final(heap) == *old(heap),
            *self matches PrefixExp::Var(Var::NameVar(n)) ==> (*old(fuel) > 0 ==> (r matches Ok(vs)
                && vs@.len() == 1 && vs@[0] == (match spec_env_get(
                old(heap).scopes_view(),
                old(env).global,
                old(env).local.0@,
                n@,
            ) {
                Some(v) => v,
                None => LuaValue(LuaVal::LuaNil),
            }))),
        decreases *old(fuel),
    {
        if !take_step(fuel) {
            return Err(out_of_fuel());
        }
        let ghost rd = spec_reads_in(*heap, env.global, env.local.0@);
        match self {
            PrefixExp::Var(var) => match var {
                Var::NameVar(name) => match env.get(heap, name.as_str()) {
                    Some(val) => Ok(single(val)),
                    None => Ok(single(nil_value())),
                },
                Var::BracketVar((prefixexp, exp)) => {
                    let p = first_value(prefixexp.eval(env, heap, fl, fuel)?);
                    match &p.0 {
                        LuaVal::LuaTable(table) => {
                            let key = first_value(exp.eval(env, heap, fl, fuel)?);
                            match table_key_of(&key, fl) {
                                Some(k) => {
                                    proof {
                                        if table.0 < heap.tables_view().len() {
                                            lemma_table_get_canon(heap.tables_view()[table.0 as int], k);
                                        }
                                        if spec_eval_prefix(**prefixexp, rd) is Some {
                                            if let Some(Ok(kv)) = spec_eval_with(*exp, rd) {
                                                lemma_same_key_canon(key.0, kv);
                                            }
                                        }
                                    }
                                    match table.get(heap, &k) {
                                        Some(val) => Ok(single(val)),
                                        None => Ok(single(nil_value())),
                                    }
                                },
                                None => {
                                    let t = key.to_text(fl);
                                    Err(bad_key_error(&t))
                                },
                            }
                        },
                        _ => Err(not_a_table(&p, fl)),
                    }
                },
                Var::DotVar((prefixexp, field)) => {
                    let p = first_value(prefixexp.eval(env, heap, fl, fuel)?);
                    match &p.0 {
                        LuaVal::LuaTable(table) => {
                            let k = TableKey::String(field.clone());
                            proof {
                                if table.0 < heap.tables_view().len() {
                                    lemma_table_get_canon(heap.tables_view()[table.0 as int], k);
                                }
                            }
                            match table.get(heap, &k) {
                                Some(val) => Ok(single(val)),
                                None => Ok(single(nil_value())),
                            }
                        },
                        _ => Err(not_a_table(&p, fl)),
                    }
                },
            },
            PrefixExp::FunctionCall(funcall) => funcall.exec(env, heap, fl, fuel),
            PrefixExp::Exp(exp) => exp.eval(env, heap, fl, fuel),
        }
    }
}

/// The value parameter `x` is bound to on a call with `args`: the argument
/// at its last position in the list (`nil` when there are fewer
/// arguments); `None` when `x` is no parameter.
pub open spec fn spec_param_value(pars: Seq<String>, args: Seq<LuaValue>, x: Seq<char>) -> Option<
    LuaValue,
>
    decreases pars.len(),
{
    if pars.len() == 0 {
        None
    } else if pars.last()@ == x {
        Some(
            if pars.len() - 1 < args.len() {
                args[pars.len() - 1]
            } else {
                LuaValue(LuaVal::LuaNil)
            },
        )
    } else {
        spec_param_value(pars.drop_last(), args, x)
    }
}

/// How a call of a function with parameters `pars` on `args` reads, with
/// the tables `tv`: a parameter reads its argument; other names are not
/// known here.
pub open spec fn spec_param_reads(pars: Seq<String>, args: Seq<LuaValue>, tv: Seq<Seq<(TableKey, LuaValue)>>) -> Reads {
    (
        |n: Seq<char>|
            match spec_param_value(pars, args, n) {
                Some(v) => Some(v.0),
                None => None,
            },
        spec_tables_in(tv),
    )
}

/// A result of a call is the expected values (the same values, one each)
/// or the expected error.
pub open spec fn spec_values_outcome(
    r: Result<Vec<LuaValue>, ASTExecError>,
    res: Result<Seq<LuaVal>, Seq<char>>,
) -> bool {
    match res {
        Ok(vals) => r matches Ok(vs) && vs@.len() == vals.len() && forall|i: int|
            0 <= i < vals.len() ==> spec_same_value((#[trigger] vs@[i]).0, vals[i]),
        Err(m) => r matches Err(e) && e.0@ == m,
    }
}

/// What a call of `f` on `args` with the tables `tv` gives when the body of
/// `f` is a return statement alone whose expressions are of parameters,
/// fields and constants (see `spec_eval_list`): their values, or the first
/// error; and no values when the body is empty.
pub open spec fn spec_call_returns(
    f: LuaFunction,
    args: Seq<LuaValue>,
    tv: Seq<Seq<(TableKey, LuaValue)>>,
    r: Result<Vec<LuaValue>, ASTExecError>,
) -> bool {
    let b = *f.block;
    &&& b.statements@.len() == 0 ==> (b.return_stat matches Some(es) ==> (spec_eval_list(
        es@,
        spec_param_reads(f.par_list.0@, args, tv),
    ) matches Some(res) ==> is_fuel_error(r) || spec_values_outcome(r, res)))
    &&& b.statements@.len() == 0 && b.return_stat is None ==> is_fuel_error(r) || (r matches Ok(vs)
        && vs@.len() == 0)
}

/// A value that a call cannot call: not a function and not one of the
/// built-in functions.
pub open spec fn spec_not_callable(v: LuaVal) -> bool {
    !(v is Function || v is Print || v is Read || v is Random)
}

/// What a call gives whose function body is a block of plain statements
/// (see `spec_run_plain`) run from its parameters `pars` bound to `args`:
/// the lines the body prints, then the values of its return statement
/// (none without one, when its expressions are of names, fields and
/// constants), or the body's error.
pub open spec fn spec_call_block_done(
    res: Result<(Reads, Seq<Seq<char>>), (Seq<Seq<char>>, Seq<char>)>,
    ret: Option<Vec<Expression>>,
    r: Result<Vec<LuaValue>, ASTExecError>,
    h0: Heap,
    h1: Heap,
) -> bool {
    match res {
        Ok((rd, lines)) => match ret {
            None => spec_lines_added(h0, h1, lines) && (r matches Ok(vs) && vs@.len() == 0),
            Some(es) => (spec_eval_list(es@, rd) matches Some(res2) ==> spec_lines_added(h0, h1, lines)
                && spec_values_outcome(r, res2)),
        },
        Err((lines, m)) => spec_lines_added(h0, h1, lines) && (r matches Err(e) && e.0@ == m),
    }
}

/// A call of `f` on `args` from the heap `h0` whose body is a block of plain
/// statements reading only its parameters gives what `spec_call_block_done`
/// says, when the caller's global table `g` exists; with fewer than
/// `1 + spec_block_cost` steps it may also run out of steps.
pub open spec fn spec_call_plain(
    f: LuaFunction,
    args: Seq<LuaValue>,
    r: Result<Vec<LuaValue>, ASTExecError>,
    g: EnvTable,
    h0: Heap,
    h1: Heap,
    fuel: int,
) -> bool {
    let b = *f.block;
    spec_run_plain(b.statements@, spec_param_reads(f.par_list.0@, args, h0.tables_view())) matches Some(res) ==> (
    g.0 < h0.scopes@.len() ==> (fuel < 1 + spec_block_cost(b) && is_fuel_error(r)) || spec_call_block_done(
        res,
        b.return_stat,
        r,
        h0,
        h1,
    ))
}

/// Two results of lists are the same: the same values one by one, or the
/// same error.
pub open spec fn spec_same_list_result(
    a: Result<Seq<LuaVal>, Seq<char>>,
    b: Result<Seq<LuaVal>, Seq<char>>,
) -> bool {
    match (a, b) {
        (Ok(x), Ok(y)) => x.len() == y.len() && forall|i: int|
            0 <= i < x.len() ==> spec_same_value(#[trigger] x[i], y[i]),
        (Err(m), Err(k)) => m == k,
        _ => false,
    }
}

/// Names that read the same values (where the first reading is known) give
/// lists of expressions the same values.
pub proof fn lemma_eval_list_agree(
    es: Seq<Expression>,
    n1: Reads,
    n2: Reads,
)
    requires
        spec_reads_agree(n1, n2),
    ensures
        spec_eval_list(es, n1) matches Some(a) ==> (spec_eval_list(es, n2) matches Some(b)
            && spec_same_list_result(a, b)),
    decreases es.len(),
{
    if es.len() > 0 {
        lemma_eval_list_agree(es.drop_last(), n1, n2);
        lemma_eval_with_agree(es.last(), n1, n2);
        if let Some(Ok(f1)) = spec_eval_list(es.drop_last(), n1) {
            let f2 = spec_eval_list(es.drop_last(), n2)->Some_0->Ok_0;
            if let Some(Ok(v1)) = spec_eval_with(es.last(), n1) {
                let v2 = spec_eval_with(es.last(), n2)->Some_0->Ok_0;
                assert forall|i: int| 0 <= i < f1.push(v1).len() implies spec_same_value(
                    #[trigger] f1.push(v1)[i],
                    f2.push(v2)[i],
                ) by {
                    if i < f1.len() {
                        assert(f1.push(v1)[i] == f1[i]);
                        assert(f2.push(v2)[i] == f2[i]);
                    }
                }
            }
        }
    }
}

/// The same values are one value for the other.
pub proof fn lemma_same_value_trans(a: LuaVal, b: LuaVal, c: LuaVal)
    requires
        spec_same_value(a, b),
        spec_same_value(b, c),
    ensures
        spec_same_value(a, c),
{
}

/// Calls the function with index `idx` on `args`: its parameters are bound
/// to the arguments (missing ones to `nil`) in a new scope on top of the
/// scopes it captured, and its body runs there.
#[verifier::rlimit(100)]
#[verifier::spinoff_prover]
pub fn call_function<'a, F: FloatOps>(
    idx: usize,
    args: Vec<LuaValue>,
    env: &mut Env,
    heap: &mut Heap<'a>,
    fl: &F,
    fuel: &mut u64,
) -> (r: Result<Vec<LuaValue>, ASTExecError>)
    ensures
        *final(fuel) <= *old(fuel),
        spec_heap_grows(*old(heap), *final(heap)),
        *final(env) == *old(env),
        *old(fuel) > 0 && idx >= old(heap).functions@.len() ==> (r matches Err(e) && e.0@
            == "Call of a function that does not exist"@),
        idx < old(heap).functions@.len() ==> spec_call_returns(
            old(heap).functions@[idx as int],
            args@,
            old(heap).tables_view(),
            r,
        ),
        idx < old(heap).functions@.len() ==> spec_call_plain(
            old(heap).functions@[idx as int],
            args@,
            r,
            old(env).global,
            *old(heap),
            *final(heap),
            *old(fuel) as int,
        ),
    decreases *old(fuel),
{
    if !take_step(fuel) {
        return Err(out_of_fuel());
    }
    if idx >= heap.functions.len() {
        return Err(exec_error("Call of a function that does not exist"));
    }
    let par_list = heap.functions[idx].par_list;
    let block = heap.functions[idx].block;
    let captured = heap.functions[idx].captured_env.clone_env();
    let mut func_env = env.create_with_captured_env(heap, &captured);
    let ghost s1 = heap.scopes.len();
    func_env.extend_local_env(heap);
    let ghost pars = par_list.0@;
    let ghost local = func_env.local.0@;
    proof {
        assert(heap.scopes_view()[s1 as int] =~= Seq::<(String, LuaValue)>::empty());
    }
    let mut i: usize = 0;
    while i < par_list.0.len()
        invariant
            *fuel < *old(fuel),
            spec_heap_grows(*old(heap), *heap),
            *env == *old(env),
            i <= pars.len(),
            pars == par_list.0@,
            heap.functions@ == old(heap).functions@,
            heap.tables@ == old(heap).tables@,
            heap.output@ == old(heap).output@,
            *fuel == *old(fuel) - 1,
            s1 + 1 == heap.scopes_view().len(),
            func_env.global == old(env).global,
            func_env.local.0@ == local,
            local.len() > 0 && local.last() == Some(EnvTable(s1)),
            forall|q: Seq<char>|
                #[trigger] spec_scope_get(heap.scopes_view()[s1 as int], q) == spec_param_value(
                    pars.take(i as int),
                    args@,
                    q,
                ),
        decreases par_list.0@.len() - i,
    {
        let name = par_list.0[i].clone();
        let ghost e = heap.scopes_view()[s1 as int];
        let ghost v = if i < args.len() {
            args@[i as int]
        } else {
            LuaValue(LuaVal::LuaNil)
        };
        if i < args.len() {
            func_env.insert_local(heap, name, args[i].clone());
        } else {
            func_env.insert_local(heap, name, nil_value());
        }
        proof {
            assert forall|q: Seq<char>|
                #[trigger] spec_scope_get(heap.scopes_view()[s1 as int], q) == spec_param_value(
                    pars.take(i + 1),
                    args@,
                    q,
                ) by {
                lemma_scope_insert_get(e, name, v, q);
                assert(pars.take(i + 1).drop_last() =~= pars.take(i as int));
            }
        }
        i = i + 1;
    }
    proof {
        assert(pars.take(pars.len() as int) =~= pars);
    }
    let ghost hb = *heap;
    let ghost pn = spec_param_reads(pars, args@, old(heap).tables_view());
    let ghost bn = spec_block_names(func_env, hb);
    proof {
        let sv = hb.scopes_view().push(Seq::empty());
        let s2 = local.push(None).push(Some(EnvTable(hb.scopes.len())));
        assert(hb.tables_view() == old(heap).tables_view());
        assert forall|n: Seq<char>| #[trigger] (pn.0)(n) is Some implies ((bn.0)(n) matches Some(w)
            && spec_same_value((pn.0)(n)->Some_0, w)) by {
            assert(s2.drop_last() == local.push(None));
            assert(local.push(None).drop_last() == local);
            assert(sv[hb.scopes.len() as int] == Seq::<(String, LuaValue)>::empty());
            assert(sv[s1 as int] == hb.scopes_view()[s1 as int]);
            assert(spec_scope_get(hb.scopes_view()[s1 as int], n) == spec_param_value(pars, args@, n));
            assert(spec_local_get(sv, local, n) == spec_param_value(pars, args@, n));
            assert(spec_local_get(sv, local.push(None), n) == spec_local_get(sv, local, n));
            assert(spec_local_get(sv, s2, n) == spec_local_get(sv, local.push(None), n));
        }
        let b = *block;
        if b.statements@.len() == 0 && b.return_stat is Some {
            lemma_eval_list_agree(b.return_stat->Some_0@, pn, bn);
        }
        assert(spec_reads_agree(pn, bn));
        lemma_run_plain_agree(b.statements@, pn, bn);
    }
    let ghost hbb = *heap;
    assert(hbb.output@ == old(heap).output@);
    assert(func_env.global.0 < old(heap).scopes@.len() ==> func_env.global.0 < hbb.scopes@.len());
    assert(*fuel == *old(fuel) - 1);
    let rb = block.exec(&mut func_env, heap, fl, fuel);
    let ghost rbg = rb;
    proof {
        let b = *block;
        if let Some(x) = spec_run_plain(b.statements@, pn) {
            let y = spec_run_plain(b.statements@, bn)->Some_0;
            if let Ok((rdx, lx)) = x {
                if let Some(es) = b.return_stat {
                    let rdy = y->Ok_0.0;
                    lemma_eval_list_agree(es@, rdx, rdy);
                    if let Some(Ok(vals)) = spec_eval_list(es@, rdx) {
                        let yv = spec_eval_list(es@, rdy)->Some_0->Ok_0;
                        if let Ok(Some(vs)) = rbg {
                            if vs@.len() == yv.len() && forall|k: int|
                                0 <= k < yv.len() ==> spec_same_value((#[trigger] vs@[k]).0, yv[k]) {
                                assert forall|k: int| 0 <= k < vals.len() implies spec_same_value(
                                    (#[trigger] vs@[k]).0,
                                    vals[k],
                                ) by {
                                    assert(spec_same_value(vals[k], yv[k]));
                                    lemma_same_value_trans(vs@[k].0, yv[k], vals[k]);
                                }
                            }
                        }
                    }
                }
            }
        }
    }
    let result = rb?;
    proof {
        let b = *block;
        if b.statements@.len() == 0 && b.return_stat is Some {
            let es = b.return_stat->Some_0;
            if let Some(Ok(vals)) = spec_eval_list(es@, pn) {
                let bvals = spec_eval_list(es@, bn)->Some_0->Ok_0;
                let vs = result->Some_0@;
                assert forall|k: int| 0 <= k < vals.len() implies spec_same_value(
                    (#[trigger] vs[k]).0,
                    vals[k],
                ) by {
                    assert(spec_same_value(vals[k], bvals[k]));
                    lemma_same_value_trans(vs[k].0, bvals[k], vals[k]);
                }
            }
        }
    }
    func_env.pop_local_env();
    match result {
        Some(vals) => Ok(vals),
        None => Err(
            exec_error("Break statement can be only used in while, repeat, or for loop"),
        ),
    }
}

/// Values as stored values.
pub open spec fn spec_lua_values(vals: Seq<LuaVal>) -> Seq<LuaValue> {
    Seq::new(vals.len(), |i: int| LuaValue(vals[i]))
}

/// Arguments that are the same values give parameters that are the same
/// values.
proof fn lemma_param_value_same(pars: Seq<String>, a: Seq<LuaValue>, b: Seq<LuaValue>, x: Seq<char>)
    requires
        a.len() == b.len(),
        forall|k: int| 0 <= k < a.len() ==> spec_same_value((#[trigger] a[k]).0, b[k].0),
    ensures
        spec_param_value(pars, a, x) matches Some(u) ==> (spec_param_value(pars, b, x) matches Some(
            w,
        ) && spec_same_value(u.0, w.0)),
    decreases pars.len(),
{
    if pars.len() > 0 && pars.last()@ != x {
        lemma_param_value_same(pars.drop_last(), a, b, x);
    }
}

/// A call on arguments that are the same values as `avals` returns what a
/// call on `avals` returns.
pub proof fn lemma_call_with_values(
    f: LuaFunction,
    argv: Seq<LuaValue>,
    avals: Seq<LuaVal>,
    tv: Seq<Seq<(TableKey, LuaValue)>>,
    r: Result<Vec<LuaValue>, ASTExecError>,
)
    requires
        argv.len() == avals.len(),
        forall|k: int| 0 <= k < avals.len() ==> spec_same_value((#[trigger] argv[k]).0, avals[k]),
        spec_call_returns(f, argv, tv, r),
    ensures
        spec_call_returns(f, spec_lua_values(avals), tv, r),
{
    let b = *f.block;
    let pars = f.par_list.0@;
    let wv = spec_lua_values(avals);
    let pw = spec_param_reads(pars, wv, tv);
    let pa = spec_param_reads(pars, argv, tv);
    assert forall|k: int| 0 <= k < wv.len() implies spec_same_value((#[trigger] wv[k]).0, argv[k].0) by {
        assert(spec_same_value(argv[k].0, avals[k]));
    }
    assert forall|n: Seq<char>| #[trigger] (pw.0)(n) is Some implies ((pa.0)(n) matches Some(w)
        && spec_same_value((pw.0)(n)->Some_0, w)) by {
        lemma_param_value_same(pars, wv, argv, n);
    }
    if b.statements@.len() == 0 && b.return_stat is Some {
        let es = b.return_stat->Some_0;
        lemma_eval_list_agree(es@, pw, pa);
        if let Some(Ok(vals)) = spec_eval_list(es@, pw) {
            if r is Ok {
                let avs = spec_eval_list(es@, pa)->Some_0->Ok_0;
                let vs = r->Ok_0@;
                assert forall|k: int| 0 <= k < vals.len() implies spec_same_value(
                    (#[trigger] vs[k]).0,
                    vals[k],
                ) by {
                    assert(spec_same_value(vals[k], avs[k]));
                    lemma_same_value_trans(vs[k].0, avs[k], vals[k]);
                }
            }
        }
    }
}

/// What a method call `o:m(exps)` does when `o` has the value `ov` (the
/// function is called without `o` among its arguments): the call of the
/// function found under `m` (see `spec_call_returns`), or the error when
/// `ov` is no table or holds no function under `m`.
pub open spec fn spec_method_outcome(
    ov: LuaVal,
    m: String,
    exps: Seq<Expression>,
    h0: Heap,
    env0: Env,
    r: Result<Vec<LuaValue>, ASTExecError>,
) -> bool {
    match ov {
        LuaVal::LuaTable(t) => {
            let fv = if t.0 < h0.tables@.len() {
                spec_table_get(h0.tables_view()[t.0 as int], TableKey::String(m))
            } else {
                None
            };
            match fv {
                Some(v) => match v.0 {
                    LuaVal::Function(idx) => idx < h0.functions@.len() ==> (spec_eval_list(
                        exps,
                        spec_reads_in(h0, env0.global, env0.local.0@),
                    ) matches Some(Ok(avals)) ==> spec_call_returns(
                        h0.functions@[idx as int],
                        spec_lua_values(avals),
                        h0.tables_view(),
                        r,
                    )),
                    _ => r matches Err(e) && e.0@ == "the value '"@ + m@ + "' is not a function"@,
                },
                None => r matches Err(e) && e.0@ == "could not find value '"@ + m@ + "' in table"@,
            }
        },
        LuaVal::LuaNum(_, true) => true,
        _ => r matches Err(e) && e.0@ == "table '"@ + spec_value_text(ov)->Some_0 + "' doesn't exist"@,
    }
}

/// What `random` does on arguments whose values are `res` (see
/// `spec_eval_list`): an integer from `0` to the first argument, or the
/// error for a missing, negative, float or other first argument, or the
/// error of the arguments.
pub open spec fn spec_random_outcome(res: Result<Seq<LuaVal>, Seq<char>>, r: Result<Vec<LuaValue>, ASTExecError>) -> bool {
    match res {
        Ok(vals) => if vals.len() == 0 {
            r matches Err(e) && e.0@ == "random() requires at least one argument"@
        } else {
            match vals[0] {
                LuaVal::LuaNum(x, false) => if spec_int_of_bytes(x) >= 0 {
                    r matches Ok(vs) && vs@.len() == 1 && (vs@[0].0 matches LuaVal::LuaNum(y, false) && 0
                        <= spec_int_of_bytes(y) <= spec_int_of_bytes(x))
                } else {
                    r matches Err(e) && e.0@ == "Cannot generate random number with a negative bound"@
                },
                LuaVal::LuaNum(_, true) => r matches Err(e) && e.0@
                    == "Cannot generate random number with float"@,
                _ => r is Err,
            }
        },
        Err(m) => r matches Err(e) && e.0@ == m,
    }
}

/// What `read` does on arguments that are all `"*line"` (no argument
/// counts as one): for each, the next input line, trimmed (empty once the
/// lines are used up), reading on from where the last read stopped.
pub open spec fn spec_read_lines_outcome(
    n: int,
    r: Result<Vec<LuaValue>, ASTExecError>,
    h0: Heap,
    h1: Heap,
) -> bool {
    &&& r matches Ok(vs) && vs@.len() == n && forall|j: int|
        0 <= j < n ==> ((#[trigger] vs@[j]).0 matches LuaVal::LuaString(t) && t@ == spec_input_line(
            h0.input@,
            h0.input_pos + j,
        ))
    &&& h1.input_pos == spec_pos_after(h0.input_pos as int, h0.input@.len() as int, n)
    &&& h1.output@ == h0.output@
}

impl FunctionCall {
    /// Calls a function, a method of a table, or a built-in function.
    #[verifier::rlimit(100)]
    pub fn exec<'a, F: FloatOps>(
        &'a self,
        env: &mut Env,
        heap: &mut Heap<'a>,
        fl: &F,
        fuel: &mut u64,
    ) -> (r: Result<Vec<LuaValue>, ASTExecError>)
        ensures
            *final(fuel) <= *old(fuel),
            spec_heap_grows(*old(heap), *final(heap)),
            *final(env) == *old(env),
            *self matches FunctionCall::Standard((callee, Args::ExpList(exps))) ==> (spec_eval_prefix(
                *callee,
                spec_reads_in(*old(heap), old(env).global, old(env).local.0@),
            ) == Some(Ok::<LuaVal, Seq<char>>(LuaVal::Print)) ==> (spec_eval_list(
                exps@,
                spec_reads_in(*old(heap), old(env).global, old(env).local.0@),
            ) matches Some(res) ==> is_fuel_error(r) || spec_printed(res, r, *old(heap), *final(heap)))),
            *self matches FunctionCall::Standard((callee, Args::ExpList(exps))) ==> (spec_eval_prefix(
                *callee,
                spec_reads_in(*old(heap), old(env).global, old(env).local.0@),
            ) == Some(Ok::<LuaVal, Seq<char>>(LuaVal::Print)) ==> (spec_eval_list(
                exps@,
                spec_reads_in(*old(heap), old(env).global, old(env).local.0@),
            ) matches Some(res) ==> (*old(fuel) >= spec_print_cost(*callee, exps@) ==> spec_printed(
                res,
                r,
                *old(heap),
                *final(heap),
            ) && *final(fuel) >= *old(fuel) - spec_print_cost(*callee, exps@)))),
            *self matches FunctionCall::Standard((callee, Args::ExpList(exps))) ==> (spec_eval_prefix(
                *callee,
                spec_reads_in(*old(heap), old(env).global, old(env).local.0@),
            ) matches Some(Ok(LuaVal::Function(idx))) ==> (idx < old(heap).functions@.len() ==> (
            spec_eval_list(
                exps@,
                spec_reads_in(*old(heap), old(env).global, old(env).local.0@),
            ) matches Some(Ok(avals)) ==> spec_call_returns(
                old(heap).functions@[idx as int],
                spec_lua_values(avals),
                old(heap).tables_view(),
                r,
            )))),
            *self matches FunctionCall::Method((obj, m, Args::ExpList(exps))) ==> (spec_eval_prefix(
                *obj,
                spec_reads_in(*old(heap), old(env).global, old(env).local.0@),
            ) matches Some(Ok(ov)) ==> is_fuel_error(r) || spec_method_outcome(
                ov,
                m,
                exps@,
                *old(heap),
                *old(env),
                r,
            )),
            *self matches FunctionCall::Standard((callee, Args::ExpList(exps))) ==> (spec_eval_prefix(
                *callee,
                spec_reads_in(*old(heap), old(env).global, old(env).local.0@),
            ) == Some(Ok::<LuaVal, Seq<char>>(LuaVal::Random)) ==> (spec_eval_list(
                exps@,
                spec_reads_in(*old(heap), old(env).global, old(env).local.0@),
            ) matches Some(res) ==> is_fuel_error(r) || spec_random_outcome(res, r))),
            *self matches FunctionCall::Standard((callee, Args::ExpList(exps))) ==> (spec_eval_prefix(
                *callee,
                spec_reads_in(*old(heap), old(env).global, old(env).local.0@),
            ) == Some(Ok::<LuaVal, Seq<char>>(LuaVal::Read)) ==> (spec_eval_list(
                exps@,
                spec_reads_in(*old(heap), old(env).global, old(env).local.0@),
            ) matches Some(Ok(vals)) ==> ((forall|j: int|
                0 <= j < vals.len() ==> #[trigger] spec_is_line_arg(vals[j])) ==> is_fuel_error(r)
                || spec_read_lines_outcome(
                if vals.len() == 0 {
                    1
                } else {
                    vals.len() as int
                },
                r,
                *old(heap),
                *final(heap),
            )))),
            *self matches FunctionCall::Standard((callee, a)) ==> (spec_eval_prefix(
                *callee,
                spec_reads_in(*old(heap), old(env).global, old(env).local.0@),
            ) matches Some(Ok(v)) ==> (spec_not_callable(v) ==> is_fuel_error(r) || (r matches Err(e) && e.0@
                == "Cannot call non-function value with arguments. RC: "@ + spec_debug_text(v)))),
        decreases *old(fuel),
    {
        if !take_step(fuel) {
            return Err(out_of_fuel());
        }
        match self {
            FunctionCall::Standard((func, args)) => {
                let f = first_value(func.eval(env, heap, fl, fuel)?);
                match &f.0 {
                    LuaVal::Function(idx) => {
                        let ghost h0 = *heap;
                        let args = args.eval(env, heap, fl, fuel)?;
                        let ghost argv = args@;
                        let r = call_function(*idx, args, env, heap, fl, fuel);
                        proof {
                            if let Args::ExpList(exps) = self->Standard_0.1 {
                                let rd = spec_reads_in(h0, old(env).global, old(env).local.0@);
                                if let Some(Ok(avals)) = spec_eval_list(exps@, rd) {
                                    if *idx < h0.functions@.len() {
                                        lemma_call_with_values(h0.functions@[*idx as int], argv, avals, h0.tables_view(), r);
                                    }
                                }
                            }
                        }
                        r
                    },
                    LuaVal::Print => {
                        let ghost h0 = *heap;
                        let args_vals = args.eval(env, heap, fl, fuel)?;
                        let line = FunctionCall::print_fn(&args_vals, fl);
                        proof {
                            if let Args::ExpList(exps) = args {
                                let rd = spec_reads_in(h0, old(env).global, old(env).local.0@);
                                if let Some(Ok(vals)) = spec_eval_list(exps@, rd) {
                                    let wv = spec_lua_values(vals);
                                    assert forall|k: int| 0 <= k < args_vals@.len() implies spec_same_value(
                                        (#[trigger] args_vals@[k]).0,
                                        wv[k].0,
                                    ) by {}
                                    lemma_print_line_same(args_vals@, wv);
                                }
                            }
                        }
                        let ghost h1 = *heap;
                        heap.output.push(line);
                        proof {
                            assert(heap.output@.drop_last() =~= h1.output@);
                        }
                        Ok(Vec::new())
                    },
                    LuaVal::Read => {
                        let ghost h0 = *heap;
                        let mut args = args.eval(env, heap, fl, fuel)?;
                        let ghost argv = args@;
                        if args.len() == 0 {
                            let line = String::from_str("*line");
                            proof {
                                reveal_strlit("*line");
                            }
                            args.push(LuaValue(LuaVal::LuaString(line)));
                        }
                        proof {
                            if let Args::ExpList(exps) = self->Standard_0.1 {
                                let rd = spec_reads_in(h0, old(env).global, old(env).local.0@);
                                if let Some(Ok(vals)) = spec_eval_list(exps@, rd) {
                                    if forall|j: int| 0 <= j < vals.len() ==> #[trigger] spec_is_line_arg(vals[j]) {
                                        assert forall|j: int| 0 <= j < args@.len() implies #[trigger] spec_is_line_arg(
                                            args@[j].0,
                                        ) by {
                                            if argv.len() > 0 {
                                                assert(spec_same_value(argv[j].0, vals[j]));
                                                assert(spec_is_line_arg(vals[j]));
                                            }
                                        }
                                    }
                                }
                            }
                        }
                        let ghost a2 = args@;
                        let ghost h2 = *heap;
                        let r = FunctionCall::read_fn(args, heap, fl);
                        proof {
                            if (forall|j: int| 0 <= j < a2.len() ==> #[trigger] spec_is_line_arg(a2[j].0)) {
                                let vs = r->Ok_0@;
                                assert forall|j: int| 0 <= j < a2.len() implies ((#[trigger] vs[j]).0 matches LuaVal::LuaString(
                                    t,
                                ) && t@ == spec_input_line(h2.input@, h2.input_pos + j)) by {
                                    assert(spec_is_line_arg(a2[j].0));
                                }
                            }
                        }
                        r
                    },
                    LuaVal::Random => {
                        let args = args.eval(env, heap, fl, fuel)?;
                        if args.len() == 0 {
                            return Err(exec_error("random() requires at least one argument"));
                        }
                        FunctionCall::random_fn(&args[0])
                    },
                    _ => {
                        let d = f.debug_text();
                        proof {
                            if let Some(Ok(v)) = spec_eval_prefix(
                                **func,
                                spec_reads_in(*old(heap), old(env).global, old(env).local.0@),
                            ) {
                                if let (LuaVal::LuaNum(x, false), LuaVal::LuaNum(y, false)) = (f.0, v) {
                                    lemma_int_of_bytes_injective(x, y);
                                }
                                reveal_strlit("");
                                let t = "Cannot call non-function value with arguments. RC: "@ + spec_debug_text(v);
                                assert(t + ""@ =~= t);
                            }
                        }
                        Err(
                            message3(
                                "Cannot call non-function value with arguments. RC: ",
                                d.as_str(),
                                "",
                            ),
                        )
                    },
                }
            },
            FunctionCall::Method((prefixexp, method_name, args)) => {
                let p = first_value(prefixexp.eval(env, heap, fl, fuel)?);
                match &p.0 {
                    LuaVal::LuaTable(table) => {
                        let k = TableKey::String(method_name.clone());
                        match table.get(heap, &k) {
                            Some(v) => match &v.0 {
                                LuaVal::Function(idx) => {
                                    let ghost h0 = *heap;
                                    let args = args.eval(env, heap, fl, fuel)?;
                                    let ghost argv = args@;
                                    let r = call_function(*idx, args, env, heap, fl, fuel);
                                    proof {
                                        if let Args::ExpList(exps) = self->Method_0.2 {
                                            let rd = spec_reads_in(h0, old(env).global, old(env).local.0@);
                                            if let Some(Ok(avals)) = spec_eval_list(exps@, rd) {
                                                if *idx < h0.functions@.len() {
                                                    lemma_call_with_values(
                                                        h0.functions@[*idx as int],
                                                        argv,
                                                        avals,
                                                        h0.tables_view(),
                                                        r,
                                                    );
                                                }
                                            }
                                        }
                                    }
                                    r
                                },
                                _ => Err(
                                    message3("the value '", method_name.as_str(), "' is not a function"),
                                ),
                            },
                            None => Err(
                                message3("could not find value '", method_name.as_str(), "' in table"),
                            ),
                        }
                    },
                    _ => {
                        let t = p.to_text(fl);
                        Err(message3("table '", t.as_str(), "' doesn't exist"))
                    },
                }
            },
        }
    }
}

impl Args {
    /// Evaluates the arguments of a call: each expression gives its first
    /// value, except the last, which gives all of its values.
    pub fn eval<'a, F: FloatOps>(
        &'a self,
        env: &mut Env,
        heap: &mut Heap<'a>,
        fl: &F,
        fuel: &mut u64,
    ) -> (r: Result<Vec<LuaValue>, ASTExecError>)
        ensures
            *final(fuel) <= *old(fuel),
            spec_heap_grows(*old(heap), *final(heap)),
            *final(env) == *old(env),
            *self matches Args::ExpList(exps) ==> (spec_eval_list(
                exps@,
                spec_reads_in(*old(heap), old(env).global, old(env).local.0@),
            ) matches Some(res) ==> is_fuel_error(r) || spec_values_outcome(r, res)),
            *self matches Args::ExpList(exps) ==> (spec_eval_list(
                exps@,
                spec_reads_in(*old(heap), old(env).global, old(env).local.0@),
            ) matches Some(res) ==> (*old(fuel) >= 1 + spec_exps_cost(exps@) ==> spec_values_outcome(r, res)
                && *final(fuel) >= *old(fuel) - 1 - spec_exps_cost(exps@))),
            *self matches Args::ExpList(exps) ==> (spec_eval_list(
                exps@,
                spec_reads_in(*old(heap), old(env).global, old(env).local.0@),
            ) is Some ==> *final(heap) == *old(heap)),
            *old(fuel) > 0 ==> (*self matches Args::LiteralString(st) ==> (r matches Ok(vs) && vs@.len()
                == 1 && (vs@[0].0 matches LuaVal::LuaString(t) && t@ == st@))),
            *old(fuel) == 0 ==> is_fuel_error(r),
        decreases *old(fuel),
    {
        if !take_step(fuel) {
            return Err(out_of_fuel());
        }
        match self {
            Args::ExpList(exps_list) => {
                let mut args: Vec<LuaValue> = Vec::new();
                let mut i: usize = 0;
                let ghost rd = spec_reads_in(*heap, env.global, env.local.0@);
                let ghost lst = spec_eval_list(exps_list@, rd) is Some;
                while i < exps_list.len()
                    invariant
                        *fuel < *old(fuel),
                        spec_heap_grows(*old(heap), *heap),
                        *env == *old(env),
                        i <= exps_list@.len(),
                        *self matches Args::ExpList(es) && es@ == exps_list@,
                        rd == spec_reads_in(*old(heap), old(env).global, old(env).local.0@),
                        lst == (spec_eval_list(exps_list@, rd) is Some),
                        lst ==> (*heap == *old(heap) && (spec_eval_list(exps_list@.take(i as int), rd)
                            matches Some(Ok(vals)) && args@.len() == i && forall|k: int|
                            0 <= k < i ==> spec_same_value((#[trigger] args@[k]).0, vals[k]))),
                        lst && *old(fuel) >= 1 + spec_exps_cost(exps_list@) ==> *fuel >= *old(fuel) - 1
                            - spec_exps_cost(exps_list@.take(i as int)),
                    decreases exps_list@.len() - i,
                {
                    proof {
                        lemma_exps_cost_take(exps_list@, i as int);
                        if lst {
                            lemma_eval_list_prefix(exps_list@, rd, i as int);
                            lemma_eval_list_prefix(exps_list@, rd, i + 1);
                            assert(exps_list@.take(i + 1).drop_last() =~= exps_list@.take(i as int));
                            assert(exps_list@.take(i + 1).last() == exps_list@[i as int]);
                        }
                    }
                    let ghost before = args@;
                    let mut vals = exps_list[i].eval(env, heap, fl, fuel)?;
                    if i == exps_list.len() - 1 {
                        args.append(&mut vals);
                    } else {
                        args.push(first_value(vals));
                    }
                    proof {
                        if lst {
                            assert forall|k: int| 0 <= k < i implies args@[k] == before[k] by {}
                        }
                    }
                    i = i + 1;
                }
                proof {
                    assert(exps_list@.take(exps_list@.len() as int) =~= exps_list@);
                    assert(exps_list@.take(0) =~= Seq::<Expression>::empty());
                    lemma_eval_list_len(exps_list@, rd);
                }
                Ok(args)
            },
            Args::TableConstructor(fields) => {
                let table = build_table(fields, env, heap, fl, fuel)?;
                Ok(single(LuaValue(LuaVal::LuaTable(table))))
            },
            Args::LiteralString(s) => Ok(single(LuaValue(LuaVal::LuaString(s.clone())))),
        }
    }
}

/// The number of fields of a constructor that are stored by position.
pub open spec fn spec_positional_count(fields: Seq<Field>) -> int
    decreases fields.len(),
{
    if fields.len() == 0 {
        0
    } else {
        spec_positional_count(fields.drop_last()) + if fields.last() is UnnamedAssign {
            1int
        } else {
            0int
        }
    }
}

/// The key and value that one field of a constructor stores, when its
/// expressions have values under the reads `rd` (see `spec_eval_with`):
/// `name = e` under the name, `[k] = e` under the integer or string `k`,
/// and `e` under the position `pos`. Or the error it raises; `None` when a
/// float key or anything else not determined here decides it.
pub open spec fn spec_ctor_entry(
    f: Field,
    rd: Reads,
    pos: int,
) -> Option<Result<(TableKey, LuaVal), Seq<char>>> {
    match f {
        Field::NameAssign((n, e)) => match spec_eval_with(e, rd) {
            Some(Ok(v)) => Some(Ok((TableKey::String(n), v))),
            Some(Err(m)) => Some(Err(m)),
            None => None,
        },
        Field::UnnamedAssign(e) => match spec_eval_with(e, rd) {
            Some(Ok(v)) => if pos >= i64::MAX {
                Some(Err("Too many fields in table constructor"@))
            } else {
                Some(Ok((TableKey::Number(spec_int_bytes(pos as i64)), v)))
            },
            Some(Err(m)) => Some(Err(m)),
            None => None,
        },
        Field::BracketedAssign((k, e)) => match spec_eval_with(k, rd) {
            Some(Ok(kv)) => match spec_eval_with(e, rd) {
                Some(Ok(v)) => match kv {
                    LuaVal::LuaNum(x, false) => Some(Ok((TableKey::Number(x), v))),
                    LuaVal::LuaString(t) => Some(Ok((TableKey::String(t), v))),
                    LuaVal::LuaNum(_, true) => None,
                    _ => Some(Err(spec_bad_key_message(spec_exp_text(k)))),
                },
                Some(Err(m)) => Some(Err(m)),
                None => None,
            },
            Some(Err(m)) => Some(Err(m)),
            None => None,
        },
    }
}

/// What a table constructor stores, field by field from left to right:
/// the keys and values, or the first error.
pub open spec fn spec_ctor_entries(fields: Seq<Field>, rd: Reads) -> Option<
    Result<Seq<(TableKey, LuaVal)>, Seq<char>>,
>
    decreases fields.len(),
{
    if fields.len() == 0 {
        Some(Ok(Seq::empty()))
    } else {
        match spec_ctor_entries(fields.drop_last(), rd) {
            Some(Ok(front)) => match spec_ctor_entry(
                fields.last(),
                rd,
                spec_positional_count(fields.drop_last()) + 1,
            ) {
                Some(Ok(en)) => Some(Ok(front.push(en))),
                Some(Err(m)) => Some(Err(m)),
                None => None,
            },
            other => other,
        }
    }
}

/// The value stored last under `k` (or a key for the same field).
pub open spec fn spec_entries_get(es: Seq<(TableKey, LuaVal)>, k: TableKey) -> Option<LuaVal>
    decreases es.len(),
{
    if es.len() == 0 {
        None
    } else if spec_key_eq(es.last().0, k) {
        Some(es.last().1)
    } else {
        spec_entries_get(es.drop_last(), k)
    }
}

/// A table holds the entries: every key reads the value stored last under
/// it (the same value), and the keys stored nothing under read nothing.
pub open spec fn spec_table_holds(t: Seq<(TableKey, LuaValue)>, es: Seq<(TableKey, LuaVal)>) -> bool {
    forall|k: TableKey|
        match (#[trigger] spec_table_get(t, k), spec_entries_get(es, k)) {
            (Some(w), Some(v)) => spec_same_value(w.0, v),
            (None, None) => true,
            _ => false,
        }
}

/// Storing a value under a key keeps a table holding the entries, with
/// one more entry for a key of the same field.
pub proof fn lemma_holds_set(
    t: Seq<(TableKey, LuaValue)>,
    es: Seq<(TableKey, LuaVal)>,
    key: TableKey,
    val: LuaValue,
    ekey: TableKey,
    v: LuaVal,
)
    requires
        spec_table_holds(t, es),
        spec_same_value(val.0, v),
        forall|k: TableKey| spec_key_eq(key, k) == spec_key_eq(ekey, k),
    ensures
        spec_table_holds(spec_table_set(t, key, val), es.push((ekey, v))),
{
    assert forall|k: TableKey| match (#[trigger] spec_table_get(spec_table_set(t, key, val), k),
        spec_entries_get(es.push((ekey, v)), k)) {
        (Some(w), Some(u)) => spec_same_value(w.0, u),
        (None, None) => true,
        _ => false,
    } by {
        assert(spec_key_eq(key, key) == spec_key_eq(ekey, key));
        law_table_read_after_write(t, key, val, k);
        assert(es.push((ekey, v)).drop_last() =~= es);
        assert(match (spec_table_get(t, k), spec_entries_get(es, k)) {
            (Some(w), Some(u)) => spec_same_value(w.0, u),
            (None, None) => true,
            _ => false,
        });
    }
}

/// Two integer keys with the same value are keys of the same field.
pub proof fn lemma_int_key_same_field(k0: TableKey, i: i64)
    requires
        spec_int_key(k0, i),
    ensures
        forall|k: TableKey| spec_key_eq(k0, k) == spec_key_eq(TableKey::Number(spec_int_bytes(i)), k),
{
    let b = k0->Number_0;
    lemma_int_of_bytes_injective(b, spec_int_bytes(i));
}

/// Once a prefix of the fields stores nothing, the constructor gives what
/// the prefix gives.
pub proof fn lemma_ctor_prefix(fields: Seq<Field>, rd: Reads, j: int)
    requires
        0 <= j <= fields.len(),
    ensures
        !(spec_ctor_entries(fields.take(j), rd) matches Some(Ok(_))) ==> spec_ctor_entries(
            fields,
            rd,
        ) == spec_ctor_entries(fields.take(j), rd),
    decreases fields.len(),
{
    if fields.len() > j {
        assert(fields.drop_last().take(j) =~= fields.take(j));
        lemma_ctor_prefix(fields.drop_last(), rd, j);
    } else {
        assert(fields.take(j) =~= fields);
    }
}

/// How the fields of a table constructor read in the heap `h` through the
/// global table `g` and the stack `s`: names as usual; what tables hold is
/// not known, since the table being built already stands in the heap.
pub open spec fn spec_ctor_reads(h: Heap, g: EnvTable, s: Seq<Option<EnvTable>>) -> Reads {
    (spec_names_in(h.scopes_view(), g, s), |t: LuaTable, k: TableKey| None::<LuaVal>)
}

/// Two results of a field are the same: keys of the same field with the
/// same value, or the same error.
pub open spec fn spec_same_entry(
    a: Result<(TableKey, LuaVal), Seq<char>>,
    b: Result<(TableKey, LuaVal), Seq<char>>,
) -> bool {
    match (a, b) {
        (Ok(x), Ok(y)) => (forall|k: TableKey| spec_key_eq(x.0, k) == spec_key_eq(y.0, k))
            && spec_same_value(x.1, y.1),
        (Err(m), Err(n)) => m == n,
        _ => false,
    }
}

/// Reads that agree give a field the same entry.
pub proof fn lemma_ctor_entry_agree(f: Field, n1: Reads, n2: Reads, pos: int)
    requires
        spec_reads_agree(n1, n2),
    ensures
        spec_ctor_entry(f, n1, pos) matches Some(a) ==> (spec_ctor_entry(f, n2, pos) matches Some(b)
            && spec_same_entry(a, b)),
{
    match f {
        Field::NameAssign((n, e)) => lemma_eval_with_agree(e, n1, n2),
        Field::UnnamedAssign(e) => lemma_eval_with_agree(e, n1, n2),
        Field::BracketedAssign((k, e)) => {
            lemma_eval_with_agree(k, n1, n2);
            lemma_eval_with_agree(e, n1, n2);
            if let Some(Ok(kv1)) = spec_eval_with(k, n1) {
                let kv2 = spec_eval_with(k, n2)->Some_0->Ok_0;
                if let (LuaVal::LuaNum(x1, false), LuaVal::LuaNum(x2, false)) = (kv1, kv2) {
                    if kv1 != kv2 {
                        lemma_int_of_bytes_injective(x1, x2);
                    }
                }
            }
        },
    }
}

/// A table that holds entries ending with one entry holds them ending with
/// another of the same field and value.
pub proof fn lemma_holds_entry_equiv(
    t: Seq<(TableKey, LuaValue)>,
    es: Seq<(TableKey, LuaVal)>,
    a: (TableKey, LuaVal),
    b: (TableKey, LuaVal),
)
    requires
        spec_table_holds(t, es.push(b)),
        forall|k: TableKey| spec_key_eq(a.0, k) == spec_key_eq(b.0, k),
        spec_same_value(a.1, b.1),
    ensures
        spec_table_holds(t, es.push(a)),
{
    assert forall|k: TableKey| match (#[trigger] spec_table_get(t, k), spec_entries_get(es.push(a), k)) {
        (Some(w), Some(v)) => spec_same_value(w.0, v),
        (None, None) => true,
        _ => false,
    } by {
        assert(es.push(a).drop_last() =~= es);
        assert(es.push(b).drop_last() =~= es);
        assert(spec_key_eq(a.0, k) == spec_key_eq(b.0, k));
        if let Some(w) = spec_table_get(t, k) {
            if spec_key_eq(a.0, k) {
                lemma_same_value_trans(w.0, b.1, a.1);
            }
        }
    }
}

/// What storing one field of a constructor does, when the field gives
/// `res` (see `spec_ctor_entry`): the entry is added to the table, which
/// then holds the entries before it and this one, and a positional field
/// moves the next position on by one; or the error.
pub open spec fn spec_field_stored(
    res: Result<(TableKey, LuaVal), Seq<char>>,
    r: Result<(), ASTExecError>,
    unnamed: bool,
    n0: i64,
    n1: i64,
    h0: Heap,
    h1: Heap,
    table: LuaTable,
    es: Seq<(TableKey, LuaVal)>,
) -> bool {
    match res {
        Ok(en) => {
            &&& r is Ok
            &&& n1 == n0 + if unnamed {
                1int
            } else {
                0int
            }
            &&& h1.scopes_view() == h0.scopes_view()
            &&& spec_table_holds(h0.tables_view()[table.0 as int], es) ==> spec_table_holds(
                h1.tables_view()[table.0 as int],
                es.push(en),
            )
        },
        Err(m) => r matches Err(e) && e.0@ == m,
    }
}

/// The steps storing a field of a constructor takes at most when its
/// expressions are of names, fields and constants.
pub open spec fn spec_field_cost(f: Field) -> nat {
    match f {
        Field::BracketedAssign((k, e)) => 1 + spec_exp_cost(k) + spec_exp_cost(e),
        Field::NameAssign((_, e)) => 1 + spec_exp_cost(e),
        Field::UnnamedAssign(e) => 1 + spec_exp_cost(e),
    }
}

/// The steps storing the fields of a constructor takes at most.
pub open spec fn spec_fields_cost(fs: Seq<Field>) -> nat
    decreases fs.len(),
{
    if fs.len() == 0 {
        0
    } else {
        spec_fields_cost(fs.drop_last()) + spec_field_cost(fs.last())
    }
}

/// The first `j + 1` fields cost the first `j` and the next one, and no
/// more than all of them.
proof fn lemma_fields_cost_take(fs: Seq<Field>, j: int)
    requires
        0 <= j < fs.len(),
    ensures
        spec_fields_cost(fs.take(j + 1)) == spec_fields_cost(fs.take(j)) + spec_field_cost(fs[j]),
        spec_fields_cost(fs.take(j + 1)) <= spec_fields_cost(fs),
    decreases fs.len() - j,
{
    assert(fs.take(j + 1).drop_last() =~= fs.take(j));
    if j + 1 < fs.len() {
        lemma_fields_cost_take(fs, j + 1);
    } else {
        assert(fs.take(j + 1) =~= fs);
    }
}

/// Stores one field of a table constructor in `table`: under its name,
/// under its key, or under the next position `*next` (which then moves on;
/// the last field stores all of its values from there).
fn store_field<'a, F: FloatOps>(
    field: &'a Field,
    table: LuaTable,
    next: &mut i64,
    is_last: bool,
    env: &mut Env,
    heap: &mut Heap<'a>,
    fl: &F,
    fuel: &mut u64,
    Ghost(es): Ghost<Seq<(TableKey, LuaVal)>>,
) -> (r: Result<(), ASTExecError>)
    requires
        *old(next) >= 1,
        table.0 < old(heap).tables_view().len(),
    ensures
        *final(fuel) <= *old(fuel),
        spec_heap_grows(*old(heap), *final(heap)),
        *final(env) == *old(env),
        *final(next) >= 1,
        table.0 < final(heap).tables_view().len(),
        spec_ctor_entry(
            *field,
            spec_reads_in(*old(heap), old(env).global, old(env).local.0@),
            *old(next) as int,
        ) matches Some(res) ==> is_fuel_error(r) || spec_field_stored(
            res,
            r,
            *field is UnnamedAssign,
            *old(next),
            *final(next),
            *old(heap),
            *final(heap),
            table,
            es,
        ),
        spec_ctor_entry(
            *field,
            spec_reads_in(*old(heap), old(env).global, old(env).local.0@),
            *old(next) as int,
        ) matches Some(res) ==> (*old(fuel) >= spec_field_cost(*field) ==> spec_field_stored(
            res,
            r,
            *field is UnnamedAssign,
            *old(next),
            *final(next),
            *old(heap),
            *final(heap),
            table,
            es,
        ) && *final(fuel) >= *old(fuel) - spec_field_cost(*field)),
    decreases *old(fuel),
{
    if !take_step(fuel) {
        return Err(out_of_fuel());
    }
    let ghost rd = spec_reads_in(*heap, env.global, env.local.0@);
    let ghost tb0 = heap.tables_view()[table.0 as int];
    match field {
        Field::BracketedAssign((exp1, exp2)) => {
            let key = first_value(exp1.eval(env, heap, fl, fuel)?);
            let val = first_value(exp2.eval(env, heap, fl, fuel)?);
            match &key.0 {
                LuaVal::LuaNum(_, _) | LuaVal::LuaString(_) => {},
                _ => {
                    let t = exp1.to_lua_string();
                    return Err(bad_key_error(&t));
                },
            }
            let ghost kval = key.0;
            let ghost vv = val;
            table.insert(heap, &key, val, fl)?;
            proof {
                if let Some(Ok(en)) = spec_ctor_entry(*field, rd, *old(next) as int) {
                    let kv = spec_eval_with(*exp1, rd)->Some_0->Ok_0;
                    match kval {
                        LuaVal::LuaNum(x, false) => {
                            let xk = kv->LuaNum_0;
                            if kval != kv {
                                lemma_int_of_bytes_injective(x, xk);
                            }
                            assert forall|k: TableKey| spec_key_eq(TableKey::Number(x), k) == spec_key_eq(
                                en.0,
                                k,
                            ) by {}
                            if spec_table_holds(tb0, es) {
                                lemma_holds_set(tb0, es, TableKey::Number(x), vv, en.0, en.1);
                            }
                        },
                        LuaVal::LuaString(st) => {
                            assert forall|k: TableKey| spec_key_eq(TableKey::String(st), k) == spec_key_eq(
                                en.0,
                                k,
                            ) by {}
                            if spec_table_holds(tb0, es) {
                                lemma_holds_set(tb0, es, TableKey::String(st), vv, en.0, en.1);
                            }
                        },
                        _ => {},
                    }
                }
            }
        },
        Field::NameAssign((name, exp)) => {
            let val = first_value(exp.eval(env, heap, fl, fuel)?);
            let ghost vv = val;
            let key = name.clone();
            table.insert_ident(heap, key, val);
            proof {
                if let Some(Ok(en)) = spec_ctor_entry(*field, rd, *old(next) as int) {
                    if spec_table_holds(tb0, es) {
                        lemma_holds_set(tb0, es, TableKey::String(key), vv, en.0, en.1);
                    }
                }
            }
        },
        Field::UnnamedAssign(exp) => {
            let vals = exp.eval(env, heap, fl, fuel)?;
            if vals.len() > 1 && is_last {
                let mut j: usize = 0;
                while j < vals.len()
                    invariant
                        *fuel <= *old(fuel),
                        spec_heap_grows(*old(heap), *heap),
                        *env == *old(env),
                        *next >= 1,
                        table.0 < heap.tables_view().len(),
                        spec_ctor_entry(*field, rd, *old(next) as int) is None,
                        rd == spec_reads_in(*old(heap), old(env).global, old(env).local.0@),
                    decreases vals@.len() - j,
                {
                    if *next == i64::MAX {
                        return Err(exec_error("Too many fields in table constructor"));
                    }
                    table.insert_int(heap, *next, vals[j].clone());
                    *next = *next + 1;
                    j = j + 1;
                }
            } else {
                if *next == i64::MAX {
                    return Err(exec_error("Too many fields in table constructor"));
                }
                let val = first_value(vals);
                let ghost vv = val;
                let ghost tb1 = heap.tables_view()[table.0 as int];
                table.insert_int(heap, *next, val);
                proof {
                    if let Some(Ok(en)) = spec_ctor_entry(*field, rd, *old(next) as int) {
                        let k0 = choose|k: TableKey|
                            spec_int_key(k, *old(next)) && heap.tables_view() == old(
                                heap,
                            ).tables_view().update(table.0 as int, spec_table_set(tb1, k, vv));
                        lemma_int_key_same_field(k0, *old(next));
                        if spec_table_holds(tb0, es) {
                            lemma_holds_set(tb0, es, k0, vv, en.0, en.1);
                        }
                    }
                }
                *next = *next + 1;
            }
        },
    }
    Ok(())
}

/// The value of a table constructor whose fields give `res` (see
/// `spec_ctor_entries`): one new table, the next of the heap `h0`, that
/// holds the entries; or the error.
pub open spec fn spec_ctor_value(
    res: Result<Seq<(TableKey, LuaVal)>, Seq<char>>,
    r: Result<Vec<LuaValue>, ASTExecError>,
    h0: Heap,
    h1: Heap,
) -> bool {
    match res {
        Ok(es) => r matches Ok(vs) && vs@.len() == 1 && (vs@[0].0 matches LuaVal::LuaTable(t) && t.0
            == h0.tables_view().len() && spec_table_holds(h1.tables_view()[t.0 as int], es)),
        Err(m) => r matches Err(e) && e.0@ == m,
    }
}

/// What a table constructor whose fields give `res` builds (see
/// `spec_ctor_entries`): a table that holds the entries, or the error.
pub open spec fn spec_table_built(
    res: Result<Seq<(TableKey, LuaVal)>, Seq<char>>,
    r: Result<LuaTable, ASTExecError>,
    h: Heap,
) -> bool {
    match res {
        Ok(es) => r matches Ok(t) && spec_table_holds(h.tables_view()[t.0 as int], es),
        Err(m) => r matches Err(e) && e.0@ == m,
    }
}

/// Builds a table from the fields of a constructor: `[k] = v` and
/// `name = v` store under their keys; the other fields are stored under
/// 1, 2, 3, ... in order, and when the last one gives several values they
/// all are stored.
pub fn build_table<'a, F: FloatOps>(
    fields: &'a Vec<Field>,
    env: &mut Env,
    heap: &mut Heap<'a>,
    fl: &F,
    fuel: &mut u64,
) -> (r: Result<LuaTable, ASTExecError>)
    ensures
        *final(fuel) <= *old(fuel),
        spec_heap_grows(*old(heap), *final(heap)),
        *final(env) == *old(env),
        r matches Ok(t) ==> t.0 == old(heap).tables_view().len(),
        spec_ctor_entries(
            fields@,
            spec_ctor_reads(*old(heap), old(env).global, old(env).local.0@),
        ) matches Some(res) ==> is_fuel_error(r) || spec_table_built(res, r, *final(heap)),
        spec_ctor_entries(
            fields@,
            spec_ctor_reads(*old(heap), old(env).global, old(env).local.0@),
        ) matches Some(res) ==> (*old(fuel) >= 1 + spec_fields_cost(fields@) ==> spec_table_built(
            res,
            r,
            *final(heap),
        ) && *final(fuel) >= *old(fuel) - 1 - spec_fields_cost(fields@)),
    decreases *old(fuel),
{
    if !take_step(fuel) {
        return Err(out_of_fuel());
    }
    let ghost names0 = spec_ctor_reads(*heap, env.global, env.local.0@);
    let ghost ctor = spec_ctor_entries(fields@, names0) is Some;
    let ghost enough = *old(fuel) >= 1 + spec_fields_cost(fields@);
    let table = LuaTable::new(heap);
    proof {
        assert forall|k: TableKey| match (#[trigger] spec_table_get(heap.tables_view()[table.0 as int], k),
            spec_entries_get(Seq::empty(), k)) {
            (Some(w), Some(v)) => spec_same_value(w.0, v),
            (None, None) => true,
            _ => false,
        } by {
            assert(heap.tables_view()[table.0 as int] == Seq::<(TableKey, LuaValue)>::empty());
        }
        assert(fields@.take(0) =~= Seq::<Field>::empty());
    }
    let mut numeric_index: i64 = 1;
    let field_count = fields.len();
    let mut i: usize = 0;
    while i < field_count
        invariant
            *fuel < *old(fuel),
            spec_heap_grows(*old(heap), *heap),
            *env == *old(env),
            field_count == fields@.len(),
            numeric_index >= 1,
            i <= field_count,
            names0 == spec_ctor_reads(*old(heap), old(env).global, old(env).local.0@),
            ctor == (spec_ctor_entries(fields@, names0) is Some),
            table.0 == old(heap).tables@.len(),
            table.0 < heap.tables_view().len(),
            ctor ==> (heap.scopes_view() == old(heap).scopes_view() && (spec_ctor_entries(
                fields@.take(i as int),
                names0,
            ) matches Some(Ok(es)) && numeric_index == spec_positional_count(fields@.take(i as int)) + 1
                && spec_table_holds(heap.tables_view()[table.0 as int], es))),
            enough == (*old(fuel) >= 1 + spec_fields_cost(fields@)),
            ctor && enough ==> *fuel >= *old(fuel) - 1 - spec_fields_cost(fields@.take(i as int)),
        decreases field_count - i,
    {
        proof {
            lemma_fields_cost_take(fields@, i as int);
            if ctor {
                lemma_ctor_prefix(fields@, names0, i as int);
                lemma_ctor_prefix(fields@, names0, i + 1);
                assert(fields@.take(i + 1).drop_last() =~= fields@.take(i as int));
                assert(fields@.take(i + 1).last() == fields@[i as int]);
            }
        }
        let ghost es0 = spec_ctor_entries(fields@.take(i as int), names0)->Some_0->Ok_0;
        let ghost rdi = spec_reads_in(*heap, env.global, env.local.0@);
        let ghost pos = numeric_index as int;
        proof {
            if ctor {
                assert(spec_reads_agree(names0, rdi));
                lemma_ctor_entry_agree(fields@[i as int], names0, rdi, pos);
            }
        }
        let is_last = i == field_count - 1;
        store_field(&fields[i], table, &mut numeric_index, is_last, env, heap, fl, fuel, Ghost(es0))?;
        proof {
            if ctor {
                if let Some(Ok(ea)) = spec_ctor_entry(fields@[i as int], names0, pos) {
                    let eb = spec_ctor_entry(fields@[i as int], rdi, pos)->Some_0->Ok_0;
                    lemma_holds_entry_equiv(heap.tables_view()[table.0 as int], es0, ea, eb);
                }
            }
        }
        i = i + 1;
    }
    proof {
        assert(fields@.take(field_count as int) =~= fields@);
    }
    Ok(table)
}
} // verus!

