//! Execution of statements and blocks.
use crate::ast::{Args, Block, Expression, FunctionCall, PrefixExp, Statement, Var, AST};
use crate::interpreter::environment::{
    law_assignment_frame, law_assignment_read, law_local_binding_shadows, lemma_scope_insert_get, lemma_local_get_find, lemma_open_scope,
    lemma_opened_then_same, lemma_pop_opened, lemma_push_table, lemma_same_scope_refl, lemma_same_scope_trans,
    spec_assign_scopes, spec_capture, spec_env_get, spec_env_opened, spec_get_scope, spec_env_same, spec_env_same_scope,
    spec_local_assign_scopes, spec_binds_kept, lemma_assign_keeps_binds, spec_empty_kept, spec_only_scope_changed, lemma_assign_keeps_empty, lemma_local_get_push_empty,
    lemma_local_get_empty_top, lemma_get_scope_push_empty, spec_stack_in, lemma_local_get_push_any,
    lemma_local_get_unbound_top, lemma_pop_iteration, lemma_empty_scope_get, spec_insert_scope, spec_scope_insert, Env, EnvTable, ScopesView,
};
use crate::interpreter::expression::{
    is_fuel_error, spec_exp_cost, lemma_eval_list_agree, lemma_eval_prefix_agree, lemma_print_line_same, spec_lua_values,
    spec_print_line, spec_reads_agree, spec_same_list_result, lemma_eval_list_len, lemma_eval_list_prefix, lemma_exps_cost_take, spec_exps_cost, spec_eval_in, spec_eval_list, spec_eval_prefix, spec_eval_with, spec_print_effect, spec_print_cost, spec_names_in, spec_reads_in, spec_tables_in, Reads,
};
use crate::interpreter::ops::spec_same_value;
use crate::interpreter::expression::{first_value, lemma_eval_with_agree, lemma_same_value_trans, out_of_fuel, take_step};
use crate::interpreter::float::FloatOps;
use crate::interpreter::{
    spec_heap_grows, spec_int_of_bytes, spec_int_bytes, lemma_int_bytes, is_int_val, spec_is_false, spec_table_set, spec_table_get, law_table_read_after_write,
    lemma_int_of_bytes_injective, bytes_to_int,
    exec_error, int_value, nil_value, ASTExecError, Heap, LuaFunction, LuaTable, LuaVal, LuaValue, TableKey,
};
use vstd::prelude::*;

verus! {

impl AST {
    /// Runs the program.
    pub fn exec<'a, F: FloatOps>(
        &'a self,
        env: &mut Env,
        heap: &mut Heap<'a>,
        fl: &F,
        fuel: &mut u64,
    ) -> (r: Result<(), ASTExecError>)
        ensures
            *final(fuel) <= *old(fuel),
            spec_heap_grows(*old(heap), *final(heap)),
            r is Ok ==> spec_env_fresh_table(*old(env), *final(env), *final(heap)),
            *old(fuel) == 0 ==> is_fuel_error(r),
            self.0.statements@.len() == 0 && self.0.return_stat is None ==> is_fuel_error(r) || r is Ok,
            self.0.statements@.len() == 0 ==> (self.0.return_stat matches Some(es) ==> (spec_eval_list(
                es@,
                spec_block_names(*old(env), *old(heap)),
            ) matches Some(res) ==> is_fuel_error(r) || match res {
                Ok(_) => r is Ok,
                Err(m) => r matches Err(e) && e.0@ == m,
            })),
            spec_run_plain(self.0.statements@, spec_block_names(*old(env), *old(heap))) matches Some(res) ==> (
            old(env).global.0 < old(heap).scopes@.len() ==> is_fuel_error(r) || spec_program_done(
                res,
                self.0.return_stat,
                r,
                *old(heap),
                *final(heap),
            )),
            spec_run_plain(self.0.statements@, spec_block_names(*old(env), *old(heap))) matches Some(res) ==> (
            old(env).global.0 < old(heap).scopes@.len() && *old(fuel) >= spec_block_cost(self.0)
                ==> spec_program_done(res, self.0.return_stat, r, *old(heap), *final(heap))),
    {
        self.0.exec(env, heap, fl, fuel)?;
        Ok(())
    }
}

/// What a program of plain statements (see `spec_run_plain`) gives: the
/// lines it prints, and success, or the error of its statements or of its
/// return statement (when that is of names, fields and constants).
pub open spec fn spec_program_done(
    res: Result<(Reads, Seq<Seq<char>>), (Seq<Seq<char>>, Seq<char>)>,
    ret: Option<Vec<Expression>>,
    r: Result<(), ASTExecError>,
    h0: Heap,
    h1: Heap,
) -> bool {
    match res {
        Ok((rd, lines)) => match ret {
            None => spec_lines_added(h0, h1, lines) && r is Ok,
            Some(es) => (spec_eval_list(es@, rd) matches Some(res2) ==> spec_lines_added(h0, h1, lines)
                && match res2 {
                Ok(_) => r is Ok,
                Err(m) => r matches Err(e) && e.0@ == m,
            }),
        },
        Err((lines, m)) => spec_lines_added(h0, h1, lines) && (r matches Err(e) && e.0@ == m),
    }
}

/// What a return statement whose expressions are of names, fields and constants
/// gives: their values (the same values, one each), or the first error.
pub open spec fn spec_returns_outcome(
    r: Result<Option<Vec<LuaValue>>, ASTExecError>,
    res: Result<Seq<LuaVal>, Seq<char>>,
) -> bool {
    match res {
        Ok(vals) => r matches Ok(Some(vs)) && vs@.len() == vals.len() && forall|i: int|
            0 <= i < vals.len() ==> spec_same_value((#[trigger] vs@[i]).0, vals[i]),
        Err(m) => r matches Err(e) && e.0@ == m,
    }
}

/// After a block: the same global table, and the caller's stack with one
/// more table on top, which is the last scope of the heap `h` and empty.
pub open spec fn spec_env_fresh_table(e0: Env, e1: Env, h: Heap) -> bool {
    &&& e1.global == e0.global
    &&& h.scopes@.len() > 0
    &&& e1.local.0@ == e0.local.0@.push(Some(EnvTable((h.scopes@.len() - 1) as usize)))
    &&& h.scopes_view().last() == Seq::<(String, LuaValue)>::empty()
}

/// How a block run in `env` over `h` reads: names in a new, empty scope on
/// top of the stack, and the tables of `h`.
pub open spec fn spec_block_names(env: Env, h: Heap) -> Reads {
    (
        spec_names_in(
            h.scopes_view().push(Seq::empty()),
            env.global,
            env.local.0@.push(None).push(Some(EnvTable(h.scopes.len()))),
        ),
        spec_tables_in(h.tables_view()),
    )
}

/// The block is made only of a return statement with at least one
/// expression.
pub open spec fn spec_returns_values(b: Block) -> bool {
    b.statements@.len() == 0 && (b.return_stat matches Some(es) && es@.len() > 0)
}

/// What a block made only of a return statement gives when it is run in
/// `env` over `h` (see `spec_returns_outcome`), when its expressions are of
/// names, fields and constants; any outcome for other blocks.
pub open spec fn spec_return_block_outcome(
    b: Block,
    r: Result<Option<Vec<LuaValue>>, ASTExecError>,
    env: Env,
    h: Heap,
) -> bool {
    b.statements@.len() == 0 ==> (b.return_stat matches Some(es) ==> (spec_eval_list(
        es@,
        spec_block_names(env, h),
    ) matches Some(res) ==> is_fuel_error(r) || spec_returns_outcome(r, res)))
}

impl Block {
    /// Runs the block in a new scope, then closes that scope and opens a
    /// fresh, empty table in the caller's scope, so that a local declared
    /// after the block is not seen by a closure made in it or before it.
    /// `Ok(None)` means a `break` was executed; `Ok(Some(vals))` gives the
    /// values of a return statement, the block's own or one inside its
    /// statements (none when there is none).
    pub fn exec<'a, F: FloatOps>(
        &'a self,
        env: &mut Env,
        heap: &mut Heap<'a>,
        fl: &F,
        fuel: &mut u64,
    ) -> (r: Result<Option<Vec<LuaValue>>, ASTExecError>)
        ensures
            *final(fuel) <= *old(fuel),
            spec_heap_grows(*old(heap), *final(heap)),
            r is Ok ==> spec_env_fresh_table(*old(env), *final(env), *final(heap)),
            r is Ok ==> spec_env_same_scope(*old(env), *final(env)),
            *old(fuel) == 0 ==> is_fuel_error(r),
            self.statements@.len() == 0 ==> (self.return_stat matches Some(es) ==> (spec_eval_list(
                es@,
                spec_block_names(*old(env), *old(heap)),
            ) matches Some(res) ==> is_fuel_error(r) || spec_returns_outcome(r, res))),
            self.statements@.len() == 0 && self.return_stat is None ==> is_fuel_error(r) || (r matches Ok(
                Some(vs),
            ) && vs@.len() == 0),
            spec_run_plain(self.statements@, spec_block_names(*old(env), *old(heap))) matches Some(res) ==> (
            old(env).global.0 < old(heap).scopes@.len() ==> is_fuel_error(r) || spec_plain_block_done(
                res,
                self.return_stat,
                r,
                *old(heap),
                *final(heap),
            )),
            spec_run_plain(self.statements@, spec_block_names(*old(env), *old(heap))) matches Some(res) ==> (
            old(env).global.0 < old(heap).scopes@.len() && *old(fuel) >= spec_block_cost(*self)
                ==> spec_plain_block_done(res, self.return_stat, r, *old(heap), *final(heap))),
            spec_run_plain(self.statements@, spec_block_names(*old(env), *old(heap))) matches Some(Ok((rd, lines)))
                ==> (old(env).global.0 < old(heap).scopes@.len() && *old(fuel) >= spec_block_cost(*self) && (
            self.return_stat matches Some(es) ==> spec_eval_list(es@, rd) is Some) ==> *final(fuel) >= *old(fuel)
                - spec_block_cost(*self)),
            spec_block_reads_after(*self, r, *old(env), *old(heap), *final(env), *final(heap)),
            spec_block_binds_kept(*self, r, *old(env), *old(heap), *final(heap)),
        decreases *old(fuel),
    {
        if !take_step(fuel) {
            return Err(out_of_fuel());
        }
        let ghost e0 = *env;
        let return_vals = self.exec_without_pop(env, heap, fl, fuel)?;
        proof {
            lemma_pop_opened(e0.local.0@, env.local.0@);
        }
        env.pop_local_env();
        let ghost hb = *heap;
        let ghost t = EnvTable(heap.scopes@.len() as usize);
        env.extend_local_without_scope(heap);
        proof {
            lemma_push_table(e0.local.0@, t);
            assert(heap.output@ == hb.output@);
            assert(heap.scopes@.len() == heap.scopes_view().len());
            assert(heap.scopes_view().last() == Seq::<(String, LuaValue)>::empty());
            let sv0 = hb.scopes_view();
            let sv1 = heap.scopes_view();
            assert(sv1 =~= sv0.push(Seq::empty()));
            let ro = spec_reads_in(hb, e0.global, e0.local.0@);
            let rf = spec_reads_in(*heap, env.global, env.local.0@);
            assert forall|x: Seq<char>| #[trigger] (rf.0)(x) == (ro.0)(x) by {
                lemma_local_get_empty_top(sv1, e0.local.0@, t, x);
                lemma_local_get_push_empty(sv0, e0.local.0@, x);
                lemma_get_scope_push_empty(sv0, e0.global.0, x);
            }
            assert(heap.tables_view() =~= hb.tables_view());
            assert forall|q: usize, x: Seq<char>|
                #![trigger spec_get_scope(sv1, q, x)]
                q < sv0.len() && spec_get_scope(sv1, q, x) is Some implies spec_get_scope(sv0, q, x) is Some by {
                lemma_get_scope_push_empty(sv0, q, x);
            }
            if let Some(Ok((rd, lines))) = spec_run_plain(self.statements@, spec_block_names(e0, *old(heap))) {
                if spec_reads_agree(rd, ro) {
                    assert forall|x: Seq<char>| #[trigger] (rd.0)(x) is Some implies ((rf.0)(x) matches Some(w)
                        && spec_same_value((rd.0)(x)->Some_0, w)) by {
                        assert((rf.0)(x) == (ro.0)(x));
                    }
                }
            }
        }
        Ok(return_vals)
    }

    /// Runs the block in a new scope and leaves that scope open (the
    /// condition of `repeat ... until` can see the block's locals).
    #[verifier::rlimit(100)]
    #[verifier::spinoff_prover]
    pub fn exec_without_pop<'a, F: FloatOps>(
        &'a self,
        env: &mut Env,
        heap: &mut Heap<'a>,
        fl: &F,
        fuel: &mut u64,
    ) -> (r: Result<Option<Vec<LuaValue>>, ASTExecError>)
        ensures
            *final(fuel) <= *old(fuel),
            spec_heap_grows(*old(heap), *final(heap)),
            r is Ok ==> spec_env_opened(*old(env), *final(env)),
            self.statements@.len() == 0 ==> (self.return_stat matches Some(es) ==> (spec_eval_list(
                es@,
                spec_block_names(*old(env), *old(heap)),
            ) matches Some(res) ==> is_fuel_error(r) || spec_returns_outcome(r, res))),
            self.statements@.len() == 0 && self.return_stat is None ==> is_fuel_error(r) || (r matches Ok(
                Some(vs),
            ) && vs@.len() == 0),
            spec_run_plain(self.statements@, spec_block_names(*old(env), *old(heap))) matches Some(res) ==> (
            old(env).global.0 < old(heap).scopes@.len() ==> is_fuel_error(r) || spec_plain_block_done(
                res,
                self.return_stat,
                r,
                *old(heap),
                *final(heap),
            )),
            spec_run_plain(self.statements@, spec_block_names(*old(env), *old(heap))) matches Some(res) ==> (
            old(env).global.0 < old(heap).scopes@.len() && *old(fuel) >= spec_body_cost(*self)
                ==> spec_plain_block_done(res, self.return_stat, r, *old(heap), *final(heap))),
            spec_run_plain(self.statements@, spec_block_names(*old(env), *old(heap))) matches Some(Ok((rd, lines)))
                ==> (old(env).global.0 < old(heap).scopes@.len() && *old(fuel) >= spec_body_cost(*self) && (
            self.return_stat matches Some(es) ==> spec_eval_list(es@, rd) is Some) ==> *final(fuel) >= *old(fuel)
                - spec_body_cost(*self)),
            spec_block_reads_after(*self, r, *old(env), *old(heap), *old(env), *final(heap)),
            spec_block_binds_kept(*self, r, *old(env), *old(heap), *final(heap)),
        decreases *old(fuel),
    {
        if !take_step(fuel) {
            return Err(out_of_fuel());
        }
        let ghost t = crate::interpreter::environment::EnvTable(heap.scopes@.len() as usize);
        env.extend_local_env(heap);
        proof {
            lemma_open_scope(old(env).local.0@, t);
        }
        let ghost h1 = *heap;
        let ghost e1 = *env;
        let ghost names1 = spec_reads_in(h1, e1.global, e1.local.0@);
        assert(names1 == spec_block_names(*old(env), *old(heap)));
        let ghost ss = self.statements@;
        let ghost plain = spec_run_plain(ss, names1) is Some && old(env).global.0 < old(heap).scopes@.len();
        let ghost enough = plain && *old(fuel) >= spec_body_cost(*self);
        let ghost nolocal = plain && spec_no_local(ss);
        let ghost mut rdi: Reads = names1;
        let ghost mut lines: Seq<Seq<char>> = Seq::empty();
        proof {
            assert(ss.skip(0) =~= ss);
            assert(Seq::<Seq<char>>::empty() + Seq::<Seq<char>>::empty() =~= Seq::<Seq<char>>::empty());
            match spec_run_plain(ss, names1) {
                Some(Ok((a, l))) => {
                    assert(Seq::<Seq<char>>::empty() + l =~= l);
                },
                Some(Err((l, m))) => {
                    assert(Seq::<Seq<char>>::empty() + l =~= l);
                },
                None => {},
            }
        }
        let mut i: usize = 0;
        while i < self.statements.len()
            invariant
                *fuel < *old(fuel),
                spec_heap_grows(*old(heap), *heap),
                spec_env_opened(*old(env), *env),
                i <= self.statements@.len(),
                i == 0 ==> *heap == h1 && *env == e1,
                ss == self.statements@,
                names1 == spec_reads_in(h1, e1.global, e1.local.0@),
                plain == (spec_run_plain(ss, names1) is Some && old(env).global.0 < old(heap).scopes@.len()),
                e1.global == old(env).global,
                e1.local.0@.len() > 0 && e1.local.0@.last() == Some(t),
                t.0 == old(heap).scopes@.len(),
                h1.scopes@.len() == old(heap).scopes@.len() + 1,
                h1.output@ == old(heap).output@,
                names1 == spec_block_names(*old(env), *old(heap)),
                plain ==> spec_plain_frame(e1, *old(heap), h1),
                plain ==> spec_plain_inv(ss, names1, i as int, rdi, lines, *old(heap), e1, h1, *heap, *env),
                enough == (plain && *old(fuel) >= spec_body_cost(*self)),
                enough ==> *fuel >= *old(fuel) - spec_body_cost(*self) + spec_plain_costs(ss.skip(i as int))
                    + spec_ret_cost(*self),
                nolocal == (plain && spec_no_local(ss)),
                nolocal ==> spec_empty_kept(h1.scopes_view(), heap.scopes_view(), old(env).global.0),
                nolocal ==> spec_binds_kept(h1.scopes_view(), heap.scopes_view(), old(env).global.0),
                h1.scopes_view() == old(heap).scopes_view().push(Seq::empty()),
            decreases self.statements@.len() - i,
        {
            let ghost ei = *env;
            let ghost hi = *heap;
            proof {
                if plain {
                    lemma_plain_ready(ss, names1, i as int, rdi, lines, *old(heap), e1, h1, *heap, *env);
                }
                assert(ss.skip(i as int)[0] == ss[i as int]);
                assert(ss.skip(i as int).drop_first() =~= ss.skip(i + 1));
            }
            let r0 = self.statements[i].exec(env, heap, fl, fuel);
            proof {
                if plain && (!is_fuel_error(r0) || enough) {
                    let next = lemma_plain_advance(ss, names1, i as int, rdi, lines, *old(heap), e1, h1, hi, ei, *heap, *env, r0);
                    rdi = next.0;
                    lines = next.1;
                }
            }
            let r = match r0 {
                Ok(x) => x,
                Err(e) => {
                    return Err(e);
                },
            };
            proof {
                lemma_opened_then_same(old(env).local.0@, ei.local.0@, env.local.0@);
                if nolocal {
                    lemma_stmt_keeps_empty(ss[i as int], r0, ei, hi, *env, *heap);
                    let sv2 = heap.scopes_view();
                    assert forall|q: int|
                        #![trigger sv2[q]]
                        0 <= q < h1.scopes_view().len() && q != old(env).global.0 && h1.scopes_view()[q].len()
                            == 0 implies sv2[q].len() == 0 by {
                        assert(hi.scopes_view()[q].len() == 0);
                    }
                    assert forall|q: usize, x: Seq<char>|
                        #![trigger spec_get_scope(sv2, q, x)]
                        q < h1.scopes_view().len() && q != old(env).global.0 && spec_get_scope(sv2, q, x)
                            is Some implies spec_get_scope(h1.scopes_view(), q, x) is Some by {
                        assert(spec_get_scope(hi.scopes_view(), q, x) is Some);
                    }
                }
            }
            match r {
                None => {
                    return Ok(None);
                },
                Some(vals) => {
                    if vals.len() > 0 {
                        return Ok(Some(vals));
                    }
                },
            }
            i = i + 1;
        }
        let ghost hr = *heap;
        let ghost er = *env;
        let ghost rn = spec_reads_in(hr, er.global, er.local.0@);
        proof {
            if nolocal {
                let sv = hr.scopes_view();
                assert(h1.scopes_view()[t.0 as int].len() == 0);
                assert(sv[t.0 as int].len() == 0);
                let ro = spec_reads_in(hr, old(env).global, old(env).local.0@);
                assert forall|x: Seq<char>| #[trigger] (ro.0)(x) == (rn.0)(x) by {
                    lemma_local_get_empty_top(sv, old(env).local.0@, t, x);
                }
                assert forall|x: Seq<char>| #[trigger] (rdi.0)(x) is Some implies ((ro.0)(x) matches Some(w)
                    && spec_same_value((rdi.0)(x)->Some_0, w)) by {
                    assert((ro.0)(x) == (rn.0)(x));
                }
                assert(spec_reads_agree(rdi, ro));
                let sv0 = old(heap).scopes_view();
                assert forall|q: usize, x: Seq<char>|
                    #![trigger spec_get_scope(sv, q, x)]
                    q < sv0.len() && q != old(env).global.0 && spec_get_scope(sv, q, x) is Some implies spec_get_scope(
                        sv0,
                        q,
                        x,
                    ) is Some by {
                    lemma_get_scope_push_empty(sv0, q, x);
                    assert(spec_get_scope(h1.scopes_view(), q, x) is Some);
                }
            }
        }
        proof {
            if plain {
                assert(ss.skip(i as int) =~= Seq::<Statement>::empty());
                assert(lines + Seq::<Seq<char>>::empty() =~= lines);
                if self.return_stat is Some {
                    lemma_eval_list_agree(self.return_stat->Some_0@, rdi, rn);
                }
            }
        }
        match &self.return_stat {
            None => Ok(Some(Vec::new())),
            Some(explist) => {
                let mut return_vals: Vec<LuaValue> = Vec::new();
                let mut j: usize = 0;
                proof {
                    assert(explist@.take(0) =~= Seq::<Expression>::empty());
                    assert(ss.skip(i as int) =~= Seq::<Statement>::empty());
                }
                while j < explist.len()
                    invariant
                        *fuel < *old(fuel),
                        spec_heap_grows(*old(heap), *heap),
                        spec_env_opened(*old(env), *env),
                        j <= explist@.len(),
                        self.return_stat == Some(*explist),
                        rn == spec_reads_in(hr, er.global, er.local.0@),
                        self.statements@.len() == 0 ==> rn == spec_block_names(*old(env), *old(heap)),
                        ss == self.statements@,
                        names1 == spec_block_names(*old(env), *old(heap)),
                        plain == (spec_run_plain(ss, names1) is Some && old(env).global.0 < old(heap).scopes@.len()),
                        plain ==> spec_run_plain(ss, names1) == Some(
                            Ok::<(Reads, Seq<Seq<char>>), (Seq<Seq<char>>, Seq<char>)>((rdi, lines)),
                        ) && spec_lines_added(*old(heap), hr, lines) && (spec_eval_list(explist@, rdi) matches Some(
                            res2,
                        ) ==> (spec_eval_list(explist@, rn) matches Some(resn) && spec_same_list_result(res2, resn))),
                        enough == (plain && *old(fuel) >= spec_body_cost(*self)),
                        enough && spec_eval_list(explist@, rn) is Some ==> *fuel >= *old(fuel) - spec_body_cost(
                            *self,
                        ) + spec_exps_cost(explist@) - spec_exps_cost(explist@.take(j as int)),
                        spec_eval_list(explist@, rn) is Some ==> (*heap == hr && *env == er && (spec_eval_list(
                            explist@.take(j as int),
                            rn,
                        ) matches Some(Ok(vals)) && return_vals@.len() == j && forall|k: int|
                            0 <= k < j ==> spec_same_value((#[trigger] return_vals@[k]).0, vals[k]))),
                    decreases explist@.len() - j,
                {
                    let ghost lst = spec_eval_list(explist@, rn) is Some;
                    proof {
                        assert(self.return_stat->Some_0@ == explist@);
                        lemma_exps_cost_take(explist@, j as int);
                        if lst {
                            lemma_eval_list_prefix(explist@, rn, j as int);
                            lemma_eval_list_prefix(explist@, rn, j + 1);
                            assert(explist@.take(j + 1).drop_last() =~= explist@.take(j as int));
                            assert(explist@.take(j + 1).last() == explist@[j as int]);
                        }
                    }
                    let ghost before = return_vals@;
                    let mut vals = explist[j].eval(env, heap, fl, fuel)?;
                    let ghost got = vals@;
                    if j == explist.len() - 1 {
                        return_vals.append(&mut vals);
                    } else {
                        return_vals.push(first_value(vals));
                    }
                    proof {
                        if lst {
                            assert(return_vals@ =~= before.push(got[0]));
                        }
                    }
                    j = j + 1;
                }
                proof {
                    assert(self.return_stat->Some_0@ == explist@);
                    assert(explist@.take(explist@.len() as int) =~= explist@);
                    if spec_eval_list(explist@, rn) is Some {
                        lemma_eval_list_len(explist@, rn);
                    }
                    if plain {
                        if let Some(res2) = spec_eval_list(explist@, rdi) {
                            lemma_returns_transfer(
                                Ok(Some(return_vals)),
                                spec_eval_list(explist@, rn)->Some_0,
                                res2,
                            );
                        }
                    }
                }
                Ok(Some(return_vals))
            },
        }
    }
}

/// Binds an assigned value to a variable: a `local` assignment binds in
/// the innermost scope; otherwise an existing local is updated, or else the
/// global is set. Fields of tables are set in place.
fn insert_to_env<'a, F: FloatOps>(
    var: &'a Var,
    val: &LuaValue,
    env: &mut Env,
    heap: &mut Heap<'a>,
    is_local: bool,
    fl: &F,
    fuel: &mut u64,
) -> (r: Result<(), ASTExecError>)
    ensures
        *final(fuel) <= *old(fuel),
        spec_heap_grows(*old(heap), *final(heap)),
        *old(fuel) == 0 ==> is_fuel_error(r) && *final(heap) == *old(heap),
        spec_env_same(*old(env), *final(env)),
        *var is NameVar && *old(fuel) > 0 ==> *final(fuel) == *old(fuel) - 1,
        *var matches Var::NameVar(n) ==> (*old(fuel) > 0 ==> r is Ok && final(env).global
            == old(env).global && final(env).local.0@ == old(env).local.0@ && final(heap).same_but_scopes(&*old(heap)) && final(heap).scopes_view() == (if is_local {
            spec_local_assign_scopes(old(heap).scopes_view(), old(env).local.0@, n, *val)
        } else {
            spec_assign_scopes(old(heap).scopes_view(), old(env).global, old(env).local.0@, n, *val)
        })),
        spec_field_target(seq![*var], *old(env), *old(heap)) matches Some((t, k)) ==> (is_fuel_error(r)
            || (r is Ok && spec_key_value(*final(heap), t, k) == val.0)),
    decreases *old(fuel),
{
    if !take_step(fuel) {
        return Err(out_of_fuel());
    }
    match var {
        Var::NameVar(name) => {
            proof {
                lemma_local_get_find(heap.scopes_view(), env.local.0@, name@);
            }
            if is_local {
                env.insert_local(heap, name.clone(), val.clone());
            } else if env.get_local(heap, name.as_str()).is_some() {
                env.update_local(heap, name.clone(), val.clone());
            } else {
                env.insert_global(heap, name.clone(), val.clone());
            }
            Ok(())
        },
        Var::BracketVar((prefixexp, exp)) => {
            let p = first_value(prefixexp.eval(env, heap, fl, fuel)?);
            match &p.0 {
                LuaVal::LuaTable(table) => {
                    let key = first_value(exp.eval(env, heap, fl, fuel)?);
                    let ghost tb = heap.tables_view()[table.0 as int];
                    let r = table.insert(heap, &key, val.clone(), fl);
                    proof {
                        if let Some((t, kk)) = spec_field_target(seq![*var], *old(env), *old(heap)) {
                            match key.0 {
                                LuaVal::LuaNum(x, false) => {
                                    let xk = kk->Number_0;
                                    if x != xk {
                                        lemma_int_of_bytes_injective(x, xk);
                                    }
                                    law_table_read_after_write(tb, TableKey::Number(x), *val, kk);
                                },
                                LuaVal::LuaString(st) => {
                                    law_table_read_after_write(tb, TableKey::String(st), *val, kk);
                                },
                                _ => {},
                            }
                        }
                    }
                    r
                },
                _ => {
                    let t = p.to_text(fl);
                    Err(
                        crate::interpreter::expression::message3(
                            "attempt to index a non-table value '",
                            t.as_str(),
                            "'",
                        ),
                    )
                },
            }
        },
        Var::DotVar((prefixexp, field)) => {
            let p = first_value(prefixexp.eval(env, heap, fl, fuel)?);
            match &p.0 {
                LuaVal::LuaTable(table) => {
                    let ghost tb = heap.tables_view()[table.0 as int];
                    let name = field.clone();
                    proof {
                        law_table_read_after_write(tb, TableKey::String(name), *val, TableKey::String(name));
                    }
                    table.insert_ident(heap, name, val.clone());
                    Ok(())
                },
                _ => {
                    let t = p.to_text(fl);
                    Err(
                        crate::interpreter::expression::message3(
                            "attempt to index a non-table value '",
                            t.as_str(),
                            "'",
                        ),
                    )
                },
            }
        },
    }
}

/// What table `t` of the heap `h` holds under the key `k` (`nil` for
/// nothing).
pub open spec fn spec_key_value(h: Heap, t: LuaTable, k: TableKey) -> LuaVal {
    if t.0 < h.tables@.len() {
        match spec_table_get(h.tables_view()[t.0 as int], k) {
            Some(v) => v.0,
            None => LuaVal::LuaNil,
        }
    } else {
        LuaVal::LuaNil
    }
}

/// The table and key that a single variable `p.name` or `p[k]` denotes,
/// when `p` (and `k`) are of names, fields and constants (see
/// `spec_eval_with`), `p` is a table of the heap and `k` an integer or a
/// string.
pub open spec fn spec_field_target(vars: Seq<Var>, env: Env, h: Heap) -> Option<(LuaTable, TableKey)> {
    let rd = spec_reads_in(h, env.global, env.local.0@);
    if vars.len() == 1 {
        match vars[0] {
            Var::DotVar((p, f)) => match spec_eval_prefix(*p, rd) {
                Some(Ok(LuaVal::LuaTable(t))) => if t.0 < h.tables@.len() {
                    Some((t, TableKey::String(f)))
                } else {
                    None
                },
                _ => None,
            },
            Var::BracketVar((p, k)) => match spec_eval_prefix(*p, rd) {
                Some(Ok(LuaVal::LuaTable(t))) => if t.0 < h.tables@.len() {
                    match spec_eval_with(k, rd) {
                        Some(Ok(LuaVal::LuaNum(x, false))) => Some((t, TableKey::Number(x))),
                        Some(Ok(LuaVal::LuaString(st))) => Some((t, TableKey::String(st))),
                        _ => None,
                    }
                } else {
                    None
                },
                _ => None,
            },
            _ => None,
        }
    } else {
        None
    }
}

/// The value of an expression of names, fields and constants (see `spec_eval_in`)
/// in the environment `env` over the heap `h`.
pub open spec fn spec_value_of(e: Expression, env: Env, h: Heap) -> Option<Result<LuaVal, Seq<char>>> {
    spec_eval_in(e, h, env.global, env.local.0@)
}

/// An assignment sets one field `name.field` of a table to one expression
/// of names, fields and constants (see `spec_eval_in`).
pub open spec fn spec_field_assignment(vars: Seq<Var>, exps: Seq<Expression>, env: Env, h: Heap) -> bool {
    &&& spec_field_target(vars, env, h) is Some
    &&& exps.len() == 1
    &&& spec_value_of(exps[0], env, h) is Some
}

/// What a field assignment does: its error, or the field now reads the
/// value of the expression.
pub open spec fn spec_field_assignment_done(
    vars: Seq<Var>,
    exps: Seq<Expression>,
    r_ok: bool,
    r_msg: Option<Seq<char>>,
    env0: Env,
    h0: Heap,
    h1: Heap,
) -> bool {
    match (spec_field_target(vars, env0, h0), spec_value_of(exps[0], env0, h0)) {
        (Some((t, k)), Some(Ok(v))) => r_ok && spec_same_value(spec_key_value(h1, t, k), v),
        (_, Some(Err(m))) => !r_ok && r_msg == Some(m),
        _ => true,
    }
}

/// An assignment binds one name to one expression of names, fields and constants
/// (see `spec_eval_in`), and the table it writes to exists.
pub open spec fn spec_single_assignment(
    vars: Seq<Var>,
    exps: Seq<Expression>,
    is_local: bool,
    env: Env,
    h: Heap,
) -> bool {
    &&& vars.len() == 1
    &&& exps.len() == 1
    &&& vars[0] is NameVar
    &&& spec_value_of(exps[0], env, h) is Some
    &&& if is_local {
        env.local.0@.len() > 0 && (env.local.0@.last() matches Some(t) && t.0 < h.scopes@.len())
    } else {
        env.global.0 < h.scopes@.len()
    }
}

/// What a single assignment does: its error, or the name now reads the
/// value of the expression, in an environment with the same tables.
pub open spec fn spec_single_assignment_done(
    vars: Seq<Var>,
    exps: Seq<Expression>,
    r_ok: bool,
    r_msg: Option<Seq<char>>,
    env0: Env,
    h0: Heap,
    env1: Env,
    sv1: Seq<Seq<(String, LuaValue)>>,
) -> bool {
    match spec_value_of(exps[0], env0, h0) {
        Some(Ok(v)) => r_ok && env1.global == env0.global && env1.local.0@ == env0.local.0@ && (
        spec_env_get(sv1, env1.global, env1.local.0@, vars[0]->NameVar_0@) matches Some(w)
            && spec_same_value(w.0, v)),
        Some(Err(m)) => !r_ok && r_msg == Some(m),
        None => true,
    }
}

/// How many expressions an assignment evaluates: one for each target, at
/// most, and at most all of them.
pub open spec fn spec_evaluated(vars: Seq<Var>, exps: Seq<Expression>) -> int {
    if vars.len() < exps.len() {
        vars.len() as int
    } else {
        exps.len() as int
    }
}

/// Every target of an assignment is a name, the table it writes to exists,
/// and the expressions it evaluates are of names, fields and constants (see
/// `spec_eval_list`).
pub open spec fn spec_names_assignment(
    vars: Seq<Var>,
    exps: Seq<Expression>,
    is_local: bool,
    env: Env,
    h: Heap,
) -> bool {
    &&& exps.len() > 0
    &&& forall|k: int| 0 <= k < vars.len() ==> #[trigger] vars[k] is NameVar
    &&& if is_local {
        env.local.0@.len() > 0 && (env.local.0@.last() matches Some(t) && t.0 < h.scopes@.len())
    } else {
        env.global.0 < h.scopes@.len()
    }
    &&& spec_eval_list(exps.take(spec_evaluated(vars, exps)), spec_reads_in(h, env.global, env.local.0@))
        is Some
}

/// The value that target `k` of an assignment gets from the values `vs`:
/// its own, or `nil` when there are fewer values than targets.
pub open spec fn spec_target_value(vs: Seq<LuaVal>, k: int) -> LuaVal {
    if k < vs.len() {
        vs[k]
    } else {
        LuaVal::LuaNil
    }
}

/// The value of the last of the first `k` targets that is the name `x`, if
/// one of them is.
pub open spec fn spec_last_assigned(vars: Seq<Var>, vs: Seq<LuaVal>, k: int, x: Seq<char>) -> Option<LuaVal>
    decreases k,
{
    if k <= 0 {
        None
    } else if vars[k - 1] is NameVar && vars[k - 1]->NameVar_0@ == x {
        Some(spec_target_value(vs, k - 1))
    } else {
        spec_last_assigned(vars, vs, k - 1, x)
    }
}

/// After the first `k` targets are assigned: each name among them reads the
/// value of the last target that is that name, and every other name reads
/// what it read in `sv0`.
pub open spec fn spec_reads_after(
    vars: Seq<Var>,
    vs: Seq<LuaVal>,
    k: int,
    g: EnvTable,
    s: Seq<Option<EnvTable>>,
    sv0: ScopesView,
    sv1: ScopesView,
) -> bool {
    forall|x: Seq<char>|
        #![trigger spec_env_get(sv1, g, s, x)]
        match spec_last_assigned(vars, vs, k, x) {
            Some(v) => spec_env_get(sv1, g, s, x) matches Some(w) && spec_same_value(w.0, v),
            None => spec_env_get(sv1, g, s, x) == spec_env_get(sv0, g, s, x),
        }
}

/// What an assignment to names does: all the values are computed first,
/// then the targets are assigned from left to right, so a name that is a
/// target twice keeps the later value, a target without a value gets `nil`,
/// and every other name reads as before; or it fails with the error of the
/// first expression that fails and assigns nothing.
pub open spec fn spec_names_assigned(
    vars: Seq<Var>,
    exps: Seq<Expression>,
    r_ok: bool,
    r_msg: Option<Seq<char>>,
    env0: Env,
    h0: Heap,
    env1: Env,
    h1: Heap,
) -> bool {
    match spec_eval_list(exps.take(spec_evaluated(vars, exps)), spec_reads_in(h0, env0.global, env0.local.0@)) {
        Some(Ok(vs)) => {
            &&& r_ok
            &&& env1.global == env0.global
            &&& env1.local.0@ == env0.local.0@
            &&& h1.same_but_scopes(&h0)
            &&& spec_reads_after(vars, vs, vars.len() as int, env0.global, env0.local.0@, h0.scopes_view(), h1.scopes_view())
        },
        Some(Err(m)) => !r_ok && r_msg == Some(m) && h1 == h0,
        None => true,
    }
}

/// The number of steps that is enough for an assignment to names (see
/// `spec_names_assignment`).
pub open spec fn spec_assignment_cost(vars: Seq<Var>, exps: Seq<Expression>) -> nat {
    1 + spec_exps_cost(exps.take(spec_evaluated(vars, exps))) + vars.len()
}

/// How names read after an assignment to names with values `vs`: each
/// target reads the value of the last target that is its name; other names
/// read as in `rd`. Tables read as in `rd`.
pub open spec fn spec_assign_reads(rd: Reads, vars: Seq<Var>, vs: Seq<LuaVal>) -> Reads {
    (
        |x: Seq<char>|
            match spec_last_assigned(vars, vs, vars.len() as int, x) {
                Some(v) => Some(v),
                None => (rd.0)(x),
            },
        rd.1,
    )
}

/// What a plain statement does when names and tables read as `rd`: `;`
/// does nothing; an assignment to names changes what they read (see
/// `spec_names_assigned`); a call of `print` writes one line. Each gives
/// the reads after it and the lines it prints, or the message of its
/// error. `None` for any other statement, or when an expression is not of
/// names, fields and constants, or a float is printed.
pub open spec fn spec_plain_step(st: Statement, rd: Reads) -> Option<
    Result<(Reads, Seq<Seq<char>>), Seq<char>>,
> {
    match st {
        Statement::Semicolon => Some(Ok((rd, Seq::empty()))),
        Statement::Assignment((vars, exps, _)) => if exps@.len() > 0 && forall|k: int|
            0 <= k < vars@.len() ==> #[trigger] vars@[k] is NameVar {
            match spec_eval_list(exps@.take(spec_evaluated(vars@, exps@)), rd) {
                Some(Ok(vs)) => Some(Ok((spec_assign_reads(rd, vars@, vs), Seq::empty()))),
                Some(Err(m)) => Some(Err(m)),
                None => None,
            }
        } else {
            None
        },
        Statement::FunctionCall(FunctionCall::Standard((callee, Args::ExpList(exps)))) => if spec_eval_prefix(
            *callee,
            rd,
        ) == Some(Ok::<LuaVal, Seq<char>>(LuaVal::Print)) {
            match spec_eval_list(exps@, rd) {
                Some(Ok(vals)) => match spec_print_line(spec_lua_values(vals)) {
                    Some(t) => Some(Ok((rd, seq![t]))),
                    None => None,
                },
                Some(Err(m)) => Some(Err(m)),
                None => None,
            }
        } else {
            None
        },
        _ => None,
    }
}

/// What plain statements (see `spec_plain_step`) do when run in order from
/// the reads `rd`: the reads after them and the lines they print, or the
/// lines printed before the first error and its message.
pub open spec fn spec_run_plain(ss: Seq<Statement>, rd: Reads) -> Option<
    Result<(Reads, Seq<Seq<char>>), (Seq<Seq<char>>, Seq<char>)>,
>
    decreases ss.len(),
{
    if ss.len() == 0 {
        Some(Ok((rd, Seq::empty())))
    } else {
        match spec_plain_step(ss[0], rd) {
            Some(Ok((rd1, out))) => spec_prepend_lines(out, spec_run_plain(ss.drop_first(), rd1)),
            Some(Err(m)) => Some(Err((Seq::empty(), m))),
            None => None,
        }
    }
}

/// The outcome `r` of running the rest, after the lines `out` were printed.
pub open spec fn spec_prepend_lines(
    out: Seq<Seq<char>>,
    r: Option<Result<(Reads, Seq<Seq<char>>), (Seq<Seq<char>>, Seq<char>)>>,
) -> Option<Result<(Reads, Seq<Seq<char>>), (Seq<Seq<char>>, Seq<char>)>> {
    match r {
        Some(Ok((rd, l))) => Some(Ok((rd, out + l))),
        Some(Err((l, m))) => Some(Err((out + l, m))),
        None => None,
    }
}

/// Two outcomes of runs of plain statements are the same: the same lines,
/// then reads that agree, or the same error.
pub open spec fn spec_run_same(
    a: Result<(Reads, Seq<Seq<char>>), (Seq<Seq<char>>, Seq<char>)>,
    b: Result<(Reads, Seq<Seq<char>>), (Seq<Seq<char>>, Seq<char>)>,
) -> bool {
    match (a, b) {
        (Ok((ra, la)), Ok((rb, lb))) => la == lb && spec_reads_agree(ra, rb),
        (Err((la, m)), Err((lb, k))) => la == lb && m == k,
        _ => false,
    }
}

/// Plain statements run from reads that agree give the same outcome.
pub proof fn lemma_run_plain_agree(ss: Seq<Statement>, ra: Reads, rb: Reads)
    requires
        spec_reads_agree(ra, rb),
    ensures
        spec_run_plain(ss, ra) matches Some(x) ==> (spec_run_plain(ss, rb) matches Some(y) && spec_run_same(x, y)),
    decreases ss.len(),
{
    if ss.len() > 0 {
        match ss[0] {
            Statement::Assignment((vars, exps, l)) => {
                let tk = exps@.take(spec_evaluated(vars@, exps@));
                lemma_eval_list_agree(tk, ra, rb);
                if let Some(Ok(va)) = spec_eval_list(tk, ra) {
                    let vb = spec_eval_list(tk, rb)->Some_0->Ok_0;
                    let a2 = spec_assign_reads(ra, vars@, va);
                    let b2 = spec_assign_reads(rb, vars@, vb);
                    assert forall|x: Seq<char>| #[trigger] (a2.0)(x) is Some implies ((b2.0)(x) matches Some(w)
                        && spec_same_value((a2.0)(x)->Some_0, w)) by {
                        lemma_last_assigned_same(vars@, va, vb, vars@.len() as int, x);
                    }
                    assert(spec_reads_agree(a2, b2));
                    lemma_run_plain_agree(ss.drop_first(), a2, b2);
                }
            },
            Statement::FunctionCall(FunctionCall::Standard((callee, Args::ExpList(exps)))) => {
                lemma_eval_prefix_agree(*callee, ra, rb);
                lemma_eval_list_agree(exps@, ra, rb);
                if let Some(Ok(va)) = spec_eval_list(exps@, ra) {
                    let vb = spec_eval_list(exps@, rb)->Some_0->Ok_0;
                    assert forall|k: int| 0 <= k < va.len() implies spec_same_value(
                        (#[trigger] spec_lua_values(va)[k]).0,
                        spec_lua_values(vb)[k].0,
                    ) by {
                        assert(spec_same_value(va[k], vb[k]));
                    }
                    lemma_print_line_same(spec_lua_values(va), spec_lua_values(vb));
                }
                lemma_run_plain_agree(ss.drop_first(), ra, rb);
            },
            _ => {
                lemma_run_plain_agree(ss.drop_first(), ra, rb);
            },
        }
    }
}

/// The same values give the same last values of targets.
proof fn lemma_last_assigned_same(vars: Seq<Var>, a: Seq<LuaVal>, b: Seq<LuaVal>, k: int, x: Seq<char>)
    requires
        a.len() == b.len(),
        forall|i: int| 0 <= i < a.len() ==> spec_same_value(#[trigger] a[i], b[i]),
    ensures
        match spec_last_assigned(vars, a, k, x) {
            Some(v) => spec_last_assigned(vars, b, k, x) matches Some(w) && spec_same_value(v, w),
            None => spec_last_assigned(vars, b, k, x) is None,
        },
    decreases k,
{
    if k > 0 {
        lemma_last_assigned_same(vars, a, b, k - 1, x);
        if k - 1 < a.len() {
            assert(spec_same_value(a[k - 1], b[k - 1]));
        }
    }
}

/// Reads that agree with the heap's before an assignment to names agree,
/// after it, with the heap's after it.
proof fn lemma_assign_agree(
    rd: Reads,
    vars: Seq<Var>,
    va: Seq<LuaVal>,
    vb: Seq<LuaVal>,
    g: EnvTable,
    s: Seq<Option<EnvTable>>,
    sv0: ScopesView,
    sv1: ScopesView,
    tv: Seq<Seq<(TableKey, LuaValue)>>,
)
    requires
        spec_reads_agree(rd, (spec_names_in(sv0, g, s), spec_tables_in(tv))),
        va.len() == vb.len(),
        forall|i: int| 0 <= i < va.len() ==> spec_same_value(#[trigger] va[i], vb[i]),
        spec_reads_after(vars, vb, vars.len() as int, g, s, sv0, sv1),
    ensures
        spec_reads_agree(spec_assign_reads(rd, vars, va), (spec_names_in(sv1, g, s), spec_tables_in(tv))),
{
    let rd2 = spec_assign_reads(rd, vars, va);
    let n1 = spec_names_in(sv1, g, s);
    assert forall|x: Seq<char>| #[trigger] (rd2.0)(x) is Some implies (n1(x) matches Some(w)
        && spec_same_value((rd2.0)(x)->Some_0, w)) by {
        lemma_last_assigned_same(vars, va, vb, vars.len() as int, x);
        assert(match spec_last_assigned(vars, vb, vars.len() as int, x) {
            Some(v) => spec_env_get(sv1, g, s, x) matches Some(w) && spec_same_value(w.0, v),
            None => spec_env_get(sv1, g, s, x) == spec_env_get(sv0, g, s, x),
        });
        if let Some(va_x) = spec_last_assigned(vars, va, vars.len() as int, x) {
            let vb_x = spec_last_assigned(vars, vb, vars.len() as int, x)->Some_0;
            let w = spec_env_get(sv1, g, s, x)->Some_0;
            lemma_same_value_trans(va_x, vb_x, w.0);
        } else {
            assert((rd.0)(x) matches Some(v) ==> ((spec_names_in(sv0, g, s))(x) matches Some(w)
                && spec_same_value(v, w)));
        }
    }
    assert forall|t: LuaTable, k: TableKey| #[trigger] (rd2.1)(t, k) is Some implies ((spec_tables_in(tv))(
        t,
        k,
    ) matches Some(w) && spec_same_value((rd2.1)(t, k)->Some_0, w)) by {
        assert((rd.1)(t, k) matches Some(v) ==> ((spec_tables_in(tv))(t, k) matches Some(w) && spec_same_value(v, w)));
    }
}

/// Printing `a` and then the outcome `r` is printing `a + b` and then `r`
/// when `b` is printed in between.
proof fn lemma_prepend_twice(
    a: Seq<Seq<char>>,
    b: Seq<Seq<char>>,
    r: Option<Result<(Reads, Seq<Seq<char>>), (Seq<Seq<char>>, Seq<char>)>>,
)
    ensures
        spec_prepend_lines(a, spec_prepend_lines(b, r)) == spec_prepend_lines(a + b, r),
{
    match r {
        Some(Ok((rd, l))) => {
            assert(a + (b + l) =~= (a + b) + l);
        },
        Some(Err((l, m))) => {
            assert(a + (b + l) =~= (a + b) + l);
        },
        None => {},
    }
}

/// A return whose values are the same as those of another gives the same
/// outcome.
proof fn lemma_returns_transfer(
    r: Result<Option<Vec<LuaValue>>, ASTExecError>,
    a: Result<Seq<LuaVal>, Seq<char>>,
    b: Result<Seq<LuaVal>, Seq<char>>,
)
    requires
        spec_same_list_result(b, a),
        spec_returns_outcome(r, a),
    ensures
        spec_returns_outcome(r, b),
{
    if let (Ok(x), Ok(y)) = (a, b) {
        let vs = r->Ok_0->Some_0@;
        assert forall|i: int| 0 <= i < y.len() implies spec_same_value((#[trigger] vs[i]).0, y[i]) by {
            assert(spec_same_value(y[i], x[i]));
            assert(spec_same_value(vs[i].0, x[i]));
            lemma_same_value_trans(vs[i].0, x[i], y[i]);
        }
    }
}

/// The state of a block of plain statements after `i` of them ran: the
/// abstract reads `rdi` and printed `lines` account for what is left to
/// run, and agree with the heap `h` and environment `e`.
pub open spec fn spec_plain_inv(
    ss: Seq<Statement>,
    names1: Reads,
    i: int,
    rdi: Reads,
    lines: Seq<Seq<char>>,
    h0: Heap,
    e1: Env,
    h1: Heap,
    h: Heap,
    e: Env,
) -> bool {
    &&& spec_run_plain(ss, names1) == spec_prepend_lines(lines, spec_run_plain(ss.skip(i), rdi))
    &&& spec_run_plain(ss.skip(i), rdi) is Some
    &&& e.global == e1.global
    &&& e.local.0@ == e1.local.0@
    &&& h.tables@ == h1.tables@
    &&& h1.scopes@.len() <= h.scopes@.len()
    &&& spec_lines_added(h0, h, lines)
    &&& spec_reads_agree(rdi, spec_reads_in(h, e.global, e.local.0@))
}

/// The environment of a block: its global table and its own table exist.
pub open spec fn spec_plain_frame(e1: Env, h0: Heap, h1: Heap) -> bool {
    &&& e1.local.0@.len() > 0
    &&& e1.local.0@.last() matches Some(t) && t.0 < h1.scopes@.len()
    &&& e1.global.0 < h1.scopes@.len()
    &&& h1.output@ == h0.output@
}

/// No statement declares a local (`local x = ...`).
pub open spec fn spec_no_local(ss: Seq<Statement>) -> bool {
    forall|k: int| 0 <= k < ss.len() ==> !(#[trigger] ss[k] matches Statement::Assignment((_, _, true)))
}

/// After a block of plain statements without locals (see `spec_run_plain`
/// and `spec_no_local`) that ran in `env0` over `h0` and ended normally,
/// names read, through `env1` in `h1`, what the run gives, when its return
/// statement (if any) is of names, fields and constants.
pub open spec fn spec_block_reads_after(
    b: Block,
    r: Result<Option<Vec<LuaValue>>, ASTExecError>,
    env0: Env,
    h0: Heap,
    env1: Env,
    h1: Heap,
) -> bool {
    spec_run_plain(b.statements@, spec_block_names(env0, h0)) matches Some(Ok((rd, lines))) ==> (
    env0.global.0 < h0.scopes@.len() && spec_no_local(b.statements@) && (b.return_stat matches Some(es)
        ==> spec_eval_list(es@, rd) is Some) && r is Ok ==> spec_reads_agree(
        rd,
        spec_reads_in(h1, env1.global, env1.local.0@),
    ))
}

/// A block of plain statements without locals (and whose return
/// statement, if any, is of names, fields and constants) that ran in
/// `env0` from `h0` to `h1` and ended normally made no scope but the
/// global one bind a new name (see `spec_binds_kept`).
pub open spec fn spec_block_binds_kept(
    b: Block,
    r: Result<Option<Vec<LuaValue>>, ASTExecError>,
    env0: Env,
    h0: Heap,
    h1: Heap,
) -> bool {
    spec_run_plain(b.statements@, spec_block_names(env0, h0)) matches Some(Ok((rd, lines))) ==> (
    env0.global.0 < h0.scopes@.len() && spec_no_local(b.statements@) && (b.return_stat matches Some(es)
        ==> spec_eval_list(es@, rd) is Some) && r is Ok ==> spec_binds_kept(
        h0.scopes_view(),
        h1.scopes_view(),
        env0.global.0,
    ))
}

/// A plain statement that declares no local keeps empty scopes empty.
proof fn lemma_stmt_keeps_empty<'a>(
    st: Statement,
    r: Result<Option<Vec<LuaValue>>, ASTExecError>,
    ei: Env,
    hi: Heap<'a>,
    en: Env,
    hn: Heap<'a>,
)
    requires
        spec_stmt_post(st, r, ei, hi, en, hn, true),
        spec_plain_ready(st, ei, hi),
        !(st matches Statement::Assignment((_, _, true))),
        r is Ok,
    ensures
        spec_empty_kept(hi.scopes_view(), hn.scopes_view(), ei.global.0),
        spec_binds_kept(hi.scopes_view(), hn.scopes_view(), ei.global.0),
{
    match st {
        Statement::FunctionCall(_) => {
            assert(hn.scopes_view() =~= hi.scopes_view());
        },
        _ => {},
    }
}

/// The steps a plain statement (see `spec_plain_step`) takes at most.
pub open spec fn spec_plain_cost(st: Statement) -> nat {
    match st {
        Statement::Semicolon => 1,
        Statement::Assignment((vars, exps, _)) => 1 + spec_assignment_cost(vars@, exps@),
        Statement::FunctionCall(FunctionCall::Standard((callee, Args::ExpList(exps)))) => 1
            + spec_print_cost(*callee, exps@),
        _ => 0,
    }
}

/// The steps plain statements take at most, one after the other.
pub open spec fn spec_plain_costs(ss: Seq<Statement>) -> nat
    decreases ss.len(),
{
    if ss.len() == 0 {
        0
    } else {
        spec_plain_cost(ss[0]) + spec_plain_costs(ss.drop_first())
    }
}

/// The steps a block of plain statements takes at most when it runs in
/// the scope it is given: one of its own, its statements, then the
/// expressions of its return statement.
pub open spec fn spec_body_cost(b: Block) -> nat {
    1 + spec_plain_costs(b.statements@) + spec_ret_cost(b)
}

/// The steps the expressions of a block's return statement take at most.
pub open spec fn spec_ret_cost(b: Block) -> nat {
    match b.return_stat {
        Some(es) => spec_exps_cost(es@),
        None => 0,
    }
}

/// The steps a block of plain statements takes at most: one to open its
/// scope, and its body (see `spec_body_cost`).
pub open spec fn spec_block_cost(b: Block) -> nat {
    1 + spec_body_cost(b)
}

/// The statement is plain (see `spec_plain_step`) when run from `env` over
/// `h`: `;`, an assignment to names of names, fields and constants, or a
/// call of `print` with such arguments.
pub open spec fn spec_plain_ready(st: Statement, env: Env, h: Heap) -> bool {
    match st {
        Statement::Semicolon => true,
        Statement::Assignment((vars, exps, l)) => spec_names_assignment(vars@, exps@, l, env, h),
        Statement::FunctionCall(FunctionCall::Standard((callee, Args::ExpList(exps)))) => spec_eval_prefix(
            *callee,
            spec_reads_in(h, env.global, env.local.0@),
        ) == Some(Ok::<LuaVal, Seq<char>>(LuaVal::Print)) && spec_eval_list(
            exps@,
            spec_reads_in(h, env.global, env.local.0@),
        ) is Some,
        _ => false,
    }
}

/// What `Statement::exec` states of a plain statement (see
/// `spec_plain_step`) run from `ei`, `hi` to `en`, `hn` with result `r`;
/// with `esc` it may also have run out of steps.
pub open spec fn spec_stmt_post<'a>(
    st: Statement,
    r: Result<Option<Vec<LuaValue>>, ASTExecError>,
    ei: Env,
    hi: Heap<'a>,
    en: Env,
    hn: Heap<'a>,
    esc: bool,
) -> bool {
    &&& spec_heap_grows(hi, hn)
    &&& st is Semicolon ==> hn == hi && en == ei && ((esc && is_fuel_error(r)) || (r matches Ok(Some(vs))
        && vs@.len() == 0))
    &&& st is FunctionCall ==> en == ei
    &&& st matches Statement::FunctionCall(c) ==> (c matches FunctionCall::Standard(
        (callee, Args::ExpList(exps)),
    ) ==> (spec_eval_prefix(*callee, spec_reads_in(hi, ei.global, ei.local.0@)) == Some(
        Ok::<LuaVal, Seq<char>>(LuaVal::Print),
    ) ==> (spec_eval_list(exps@, spec_reads_in(hi, ei.global, ei.local.0@)) matches Some(res)
        ==> (esc && is_fuel_error(r)) || match res {
        Ok(vals) => (r matches Ok(Some(vs)) && vs@.len() == 0) && spec_print_effect(vals, hi, hn),
        Err(m) => r matches Err(e) && e.0@ == m && hn.output@ == hi.output@,
    })))
    &&& st matches Statement::Assignment((vars, exps, is_local)) ==> (spec_names_assignment(
        vars@,
        exps@,
        is_local,
        ei,
        hi,
    ) && !is_local ==> spec_empty_kept(hi.scopes_view(), hn.scopes_view(), ei.global.0) && spec_binds_kept(
        hi.scopes_view(),
        hn.scopes_view(),
        ei.global.0,
    ))
    &&& st matches Statement::Assignment((vars, exps, is_local)) ==> (spec_names_assignment(
        vars@,
        exps@,
        is_local,
        ei,
        hi,
    ) && is_local ==> spec_only_scope_changed(hi.scopes_view(), hn.scopes_view(), ei.local.0@.last()->Some_0.0))
    &&& st matches Statement::Assignment((vars, exps, is_local)) ==> (spec_names_assignment(
        vars@,
        exps@,
        is_local,
        ei,
        hi,
    ) ==> ((esc && is_fuel_error(r)) || spec_names_assigned(
        vars@,
        exps@,
        (r matches Ok(Some(vs)) && vs@.len() == 0),
        spec_err_msg(r),
        ei,
        hi,
        en,
        hn,
    )))
}

/// The next statement of a block of plain statements is plain in the
/// state the block has reached (see `spec_plain_ready`).
proof fn lemma_plain_ready<'a>(
    ss: Seq<Statement>,
    names1: Reads,
    i: int,
    rdi: Reads,
    lines: Seq<Seq<char>>,
    h0: Heap<'a>,
    e1: Env,
    h1: Heap<'a>,
    hi: Heap<'a>,
    ei: Env,
)
    requires
        0 <= i < ss.len(),
        spec_plain_inv(ss, names1, i, rdi, lines, h0, e1, h1, hi, ei),
        spec_plain_frame(e1, h0, h1),
    ensures
        spec_plain_ready(ss[i], ei, hi),
{
    let st = ss[i];
    let ri = spec_reads_in(hi, ei.global, ei.local.0@);
    assert(ss.skip(i)[0] == st);
    match st {
        Statement::Assignment((vars, exps, l)) => {
            let tk = exps@.take(spec_evaluated(vars@, exps@));
            lemma_eval_list_agree(tk, rdi, ri);
            assert(spec_names_assignment(vars@, exps@, l, ei, hi));
        },
        Statement::FunctionCall(FunctionCall::Standard((callee, Args::ExpList(exps)))) => {
            lemma_eval_prefix_agree(*callee, rdi, ri);
            lemma_eval_list_agree(exps@, rdi, ri);
        },
        _ => {},
    }
}

/// One plain statement keeps the state of a block of plain statements (or
/// ends the block with the error the abstract run gives).
proof fn lemma_plain_advance<'a>(
    ss: Seq<Statement>,
    names1: Reads,
    i: int,
    rdi: Reads,
    lines: Seq<Seq<char>>,
    h0: Heap<'a>,
    e1: Env,
    h1: Heap<'a>,
    hi: Heap<'a>,
    ei: Env,
    hn: Heap<'a>,
    en: Env,
    r: Result<Option<Vec<LuaValue>>, ASTExecError>,
) -> (next: (Reads, Seq<Seq<char>>))
    requires
        0 <= i < ss.len(),
        spec_plain_inv(ss, names1, i, rdi, lines, h0, e1, h1, hi, ei),
        spec_plain_frame(e1, h0, h1),
        spec_stmt_post(ss[i], r, ei, hi, en, hn, false),
    ensures
        r is Ok ==> (r matches Ok(Some(vs)) && vs@.len() == 0) && spec_plain_inv(
            ss,
            names1,
            i + 1,
            next.0,
            next.1,
            h0,
            e1,
            h1,
            hn,
            en,
        ),
        r is Err ==> (spec_run_plain(ss, names1) matches Some(Err((l, m))) && spec_lines_added(h0, hn, l)
            && (r matches Err(e2) && e2.0@ == m)),
{
    let st = ss[i];
    let rest = ss.skip(i);
    let ri = spec_reads_in(hi, ei.global, ei.local.0@);
    assert(rest[0] == st);
    assert(rest.drop_first() =~= ss.skip(i + 1));
    assert(lines + Seq::<Seq<char>>::empty() =~= lines);
    match st {
        Statement::Semicolon => {
            lemma_prepend_twice(lines, Seq::empty(), spec_run_plain(ss.skip(i + 1), rdi));
            (rdi, lines + Seq::empty())
        },
        Statement::Assignment((vars, exps, l)) => {
            let tk = exps@.take(spec_evaluated(vars@, exps@));
            lemma_eval_list_agree(tk, rdi, ri);
            assert(spec_names_assignment(vars@, exps@, l, ei, hi));
            match spec_eval_list(tk, rdi) {
                Some(Ok(va)) => {
                    let vb = spec_eval_list(tk, ri)->Some_0->Ok_0;
                    lemma_assign_agree(
                        rdi,
                        vars@,
                        va,
                        vb,
                        ei.global,
                        ei.local.0@,
                        hi.scopes_view(),
                        hn.scopes_view(),
                        hi.tables_view(),
                    );
                    assert(hn.tables_view() =~= hi.tables_view());
                    let rd2 = spec_assign_reads(rdi, vars@, va);
                    lemma_prepend_twice(lines, Seq::empty(), spec_run_plain(ss.skip(i + 1), rd2));
                    assert forall|k: int| 0 <= k < lines.len() implies (#[trigger] hn.output@[h0.output@.len() + k])@
                        == lines[k] by {
                        assert(hn.output@[h0.output@.len() + k] == hi.output@[h0.output@.len() + k]);
                    }
                    (rd2, lines + Seq::empty())
                },
                _ => {
                    (rdi, lines)
                },
            }
        },
        Statement::FunctionCall(FunctionCall::Standard((callee, Args::ExpList(exps)))) => {
            lemma_eval_prefix_agree(*callee, rdi, ri);
            lemma_eval_list_agree(exps@, rdi, ri);
            match spec_eval_list(exps@, rdi) {
                Some(Ok(va)) => {
                    let vb = spec_eval_list(exps@, ri)->Some_0->Ok_0;
                    assert forall|k: int| 0 <= k < va.len() implies spec_same_value(
                        (#[trigger] spec_lua_values(va)[k]).0,
                        spec_lua_values(vb)[k].0,
                    ) by {
                        assert(spec_same_value(va[k], vb[k]));
                    }
                    lemma_print_line_same(spec_lua_values(va), spec_lua_values(vb));
                    let line = spec_print_line(spec_lua_values(va))->Some_0;
                    assert(hn.scopes_view() =~= hi.scopes_view());
                    assert(hn.tables_view() =~= hi.tables_view());
                    lemma_prepend_twice(lines, seq![line], spec_run_plain(ss.skip(i + 1), rdi));
                    assert forall|k: int| 0 <= k < lines.len() + 1 implies (#[trigger] hn.output@[h0.output@.len()
                        + k])@ == (lines + seq![line])[k] by {
                        if k < lines.len() {
                            assert(hn.output@[h0.output@.len() + k] == hi.output@[h0.output@.len() + k]);
                        }
                    }
                    assert forall|k: int| 0 <= k < h0.output@.len() implies #[trigger] hn.output@[k]
                        == h0.output@[k] by {
                        assert(hn.output@[k] == hi.output@[k]);
                    }
                    (rdi, lines + seq![line])
                },
                _ => {
                    (rdi, lines)
                },
            }
        },
        _ => {
            (rdi, lines)
        },
    }
}

/// `h1` holds the output of `h0` followed by the lines `lines`.
pub open spec fn spec_lines_added(h0: Heap, h1: Heap, lines: Seq<Seq<char>>) -> bool {
    &&& h1.output@.len() == h0.output@.len() + lines.len()
    &&& forall|k: int| 0 <= k < h0.output@.len() ==> #[trigger] h1.output@[k] == h0.output@[k]
    &&& forall|k: int| 0 <= k < lines.len() ==> (#[trigger] h1.output@[h0.output@.len() + k])@ == lines[k]
}

/// What a block of plain statements gives (see `spec_run_plain`): the lines
/// printed, then the values of its return statement (none without one),
/// when its expressions are of names, fields and constants; or the error.
pub open spec fn spec_plain_block_done(
    res: Result<(Reads, Seq<Seq<char>>), (Seq<Seq<char>>, Seq<char>)>,
    ret: Option<Vec<Expression>>,
    r: Result<Option<Vec<LuaValue>>, ASTExecError>,
    h0: Heap,
    h1: Heap,
) -> bool {
    match res {
        Ok((rd, lines)) => match ret {
            None => spec_lines_added(h0, h1, lines) && (r matches Ok(Some(vs)) && vs@.len() == 0),
            Some(es) => (spec_eval_list(es@, rd) matches Some(res2) ==> spec_lines_added(h0, h1, lines)
                && spec_returns_outcome(r, res2)),
        },
        Err((lines, m)) => spec_lines_added(h0, h1, lines) && (r matches Err(e) && e.0@ == m),
    }
}

/// What a block of plain statements (see `spec_run_plain`) run as a body
/// in `env` over `h0` gives (see `spec_plain_block_done`), when its
/// environment's global table exists; with `esc` it may also run out of
/// steps.
pub open spec fn spec_plain_body_done(
    b: Block,
    r: Result<Option<Vec<LuaValue>>, ASTExecError>,
    env: Env,
    h0: Heap,
    h1: Heap,
    esc: bool,
) -> bool {
    spec_run_plain(b.statements@, spec_block_names(env, h0)) matches Some(res) ==> (env.global.0
        < h0.scopes@.len() ==> (esc && is_fuel_error(r)) || spec_plain_block_done(res, b.return_stat, r, h0, h1))
}

/// The message of an error result.
pub open spec fn spec_err_msg<T>(r: Result<T, ASTExecError>) -> Option<Seq<char>> {
    match r {
        Ok(_) => None,
        Err(e) => Some(e.0@),
    }
}

/// Runs `vars = exps` (or `local vars = exps`): the expressions are
/// evaluated from left to right, each giving one value except the last,
/// which gives as many as there are variables left (missing ones are
/// `nil`); then the variables are assigned in order.
#[verifier::loop_isolation(false)]
#[verifier::rlimit(100)]
#[verifier::spinoff_prover]
fn exec_assignment<'a, F: FloatOps>(
    varlist: &'a Vec<Var>,
    explist: &'a Vec<Expression>,
    is_local: bool,
    env: &mut Env,
    heap: &mut Heap<'a>,
    fl: &F,
    fuel: &mut u64,
) -> (r: Result<(), ASTExecError>)
    ensures
        *final(fuel) <= *old(fuel),
        spec_heap_grows(*old(heap), *final(heap)),
        spec_env_same(*old(env), *final(env)),
        spec_single_assignment(varlist@, explist@, is_local, *old(env), *old(heap))
            ==> is_fuel_error(r) || spec_single_assignment_done(
            varlist@,
            explist@,
            r is Ok,
            spec_err_msg(r),
            *old(env),
            *old(heap),
            *final(env),
            final(heap).scopes_view(),
        ),
        spec_field_assignment(varlist@, explist@, *old(env), *old(heap)) ==> is_fuel_error(r)
            || spec_field_assignment_done(
            varlist@,
            explist@,
            r is Ok,
            spec_err_msg(r),
            *old(env),
            *old(heap),
            *final(heap),
        ),
        spec_names_assignment(varlist@, explist@, is_local, *old(env), *old(heap)) ==> (is_fuel_error(r)
            || spec_names_assigned(
            varlist@,
            explist@,
            r is Ok,
            spec_err_msg(r),
            *old(env),
            *old(heap),
            *final(env),
            *final(heap),
        )),
        spec_names_assignment(varlist@, explist@, is_local, *old(env), *old(heap)) && *old(fuel)
            >= spec_assignment_cost(varlist@, explist@) ==> spec_names_assigned(
            varlist@,
            explist@,
            r is Ok,
            spec_err_msg(r),
            *old(env),
            *old(heap),
            *final(env),
            *final(heap),
        ),
        spec_names_assignment(varlist@, explist@, is_local, *old(env), *old(heap)) && *old(fuel)
            >= spec_assignment_cost(varlist@, explist@) ==> *final(fuel) >= *old(fuel) - spec_assignment_cost(
            varlist@,
            explist@,
        ),
        spec_names_assignment(varlist@, explist@, is_local, *old(env), *old(heap)) && !is_local
            ==> spec_empty_kept(old(heap).scopes_view(), final(heap).scopes_view(), old(env).global.0),
        spec_names_assignment(varlist@, explist@, is_local, *old(env), *old(heap)) && !is_local
            ==> spec_binds_kept(old(heap).scopes_view(), final(heap).scopes_view(), old(env).global.0),
        spec_names_assignment(varlist@, explist@, is_local, *old(env), *old(heap)) && is_local
            ==> spec_only_scope_changed(
            old(heap).scopes_view(),
            final(heap).scopes_view(),
            old(env).local.0@.last()->Some_0.0,
        ),
    decreases *old(fuel),
{
    if !take_step(fuel) {
        return Err(out_of_fuel());
    }
    if explist.len() == 0 {
        return Err(exec_error("Assignment without expressions"));
    }
    let ghost single = spec_single_assignment(varlist@, explist@, is_local, *env, *heap)
        || spec_field_assignment(varlist@, explist@, *env, *heap);
    let ghost fld = spec_field_assignment(varlist@, explist@, *env, *heap);
    let ghost env0 = *env;
    let ghost heap0 = *heap;
    let ghost rd0 = spec_reads_in(heap0, env0.global, env0.local.0@);
    let ghost names = spec_names_assignment(varlist@, explist@, is_local, *env, *heap);
    let ghost m = spec_evaluated(varlist@, explist@);
    let ghost enough = *old(fuel) >= spec_assignment_cost(varlist@, explist@);
    let mut vallist: Vec<LuaValue> = Vec::new();
    let mut i: usize = 0;
    while i < varlist.len()
        invariant
            explist@.len() > 0,
            i < varlist@.len() ==> i < explist@.len(),
            names ==> *heap == heap0 && *env == env0 && (spec_eval_list(
                explist@.take(if i < explist@.len() { i as int } else { explist@.len() as int }),
                rd0,
            ) matches Some(Ok(vs)) && forall|k: int|
                0 <= k < i ==> spec_same_value((#[trigger] vallist@[k]).0, spec_target_value(vs, k))),
            names && enough ==> *fuel >= *old(fuel) - 1 - spec_exps_cost(
                explist@.take(if i < explist@.len() { i as int } else { explist@.len() as int }),
            ),
            names == spec_names_assignment(varlist@, explist@, is_local, env0, heap0),
            rd0 == spec_reads_in(heap0, env0.global, env0.local.0@),
            m == spec_evaluated(varlist@, explist@),
            enough == (*old(fuel) >= spec_assignment_cost(varlist@, explist@)),
            *fuel < *old(fuel),
            spec_heap_grows(*old(heap), *heap),
            explist@.len() > 0,
            spec_env_same(*old(env), *env),
            i <= varlist@.len(),
            vallist@.len() == i,
            single && i == 0 ==> *heap == heap0 && *env == env0,
            single && i > 0 ==> i == 1 && *heap == heap0 && *env == env0 && (spec_value_of(
                explist@[0],
                env0,
                heap0,
            ) matches Some(Ok(v)) && spec_same_value(vallist@[0].0, v)),
        decreases varlist@.len() - i,
    {
        if i >= explist.len() {
            return Err(exec_error("Assignment without expressions"));
        }
        proof {
            if names {
                lemma_exps_cost_take(explist@, i as int);
                lemma_exps_cost_take(explist@.take(m), i as int);
                assert(explist@.take(m).take(i as int) =~= explist@.take(i as int));
                assert(explist@.take(m).take(i + 1) =~= explist@.take(i + 1));
                lemma_eval_list_prefix(explist@.take(m), rd0, i as int);
                lemma_eval_list_prefix(explist@.take(m), rd0, i + 1);
                assert(explist@.take(i + 1).drop_last() =~= explist@.take(i as int));
                assert(explist@.take(i + 1).last() == explist@[i as int]);
                assert(explist@.take(m).take(m) =~= explist@.take(m));
            }
        }
        let ghost vals_before = vallist@;
        let return_vals = explist[i].eval(env, heap, fl, fuel)?;
        let num = if i == explist.len() - 1 {
            varlist.len() - i
        } else {
            1
        };
        let mut j: usize = 0;
        while j < num
            invariant
                names ==> *heap == heap0 && *env == env0 && return_vals@.len() == 1 && (spec_eval_list(
                    explist@.take(i + 1),
                    rd0,
                ) matches Some(Ok(vs)) && forall|k: int|
                    0 <= k < i + j ==> spec_same_value((#[trigger] vallist@[k]).0, spec_target_value(vs, k))),
                names ==> vallist@.subrange(0, i as int) == vals_before,
                *fuel < *old(fuel),
                spec_heap_grows(*old(heap), *heap),
                i + num <= varlist@.len(),
                vallist@.len() == i + j,
                j <= num,
                single ==> i == 0 && num == 1 && *heap == heap0 && *env == env0,
                single && j == 1 ==> vallist@[0] == return_vals@[0],
            decreases num - j,
        {
            if j < return_vals.len() {
                vallist.push(return_vals[j].clone());
            } else {
                vallist.push(nil_value());
            }
            j = j + 1;
        }
        i = i + num;
    }
    proof {
        if names {
            assert(i == varlist@.len());
        }
    }
    let mut k: usize = 0;
    while k < varlist.len()
        invariant
            names ==> env.global == env0.global && env.local.0@ == env0.local.0@ && heap.same_but_scopes(&heap0)
                && heap.scopes@.len() == heap0.scopes@.len() && (spec_eval_list(explist@.take(m), rd0) matches Some(
                Ok(vs),
            ) && (forall|j: int|
                0 <= j < varlist@.len() ==> spec_same_value(
                    (#[trigger] vallist@[j]).0,
                    spec_target_value(vs, j),
                )) && spec_reads_after(
                varlist@,
                vs,
                k as int,
                env0.global,
                env0.local.0@,
                heap0.scopes_view(),
                heap.scopes_view(),
            )),
            names && enough ==> *fuel >= *old(fuel) - 1 - spec_exps_cost(explist@.take(m)) - k,
            names && !is_local ==> spec_empty_kept(heap0.scopes_view(), heap.scopes_view(), env0.global.0),
            names && !is_local ==> spec_binds_kept(heap0.scopes_view(), heap.scopes_view(), env0.global.0),
            names && is_local ==> spec_only_scope_changed(
                heap0.scopes_view(),
                heap.scopes_view(),
                env0.local.0@.last()->Some_0.0,
            ),
            names == spec_names_assignment(varlist@, explist@, is_local, env0, heap0),
            rd0 == spec_reads_in(heap0, env0.global, env0.local.0@),
            m == spec_evaluated(varlist@, explist@),
            enough == (*old(fuel) >= spec_assignment_cost(varlist@, explist@)),
            *fuel < *old(fuel),
            spec_heap_grows(*old(heap), *heap),
            vallist@.len() == varlist@.len(),
            spec_env_same(*old(env), *env),
            k <= varlist@.len(),
            single ==> varlist@.len() == 1,
            single && k == 0 ==> *heap == heap0 && *env == env0,
            fld && k == 1 ==> (spec_field_target(varlist@, env0, heap0) matches Some((t, kk))
                && spec_key_value(*heap, t, kk) == vallist@[0].0),
            single && !fld && k == 1 ==> env.global == env0.global && env.local.0@ == env0.local.0@
                && heap.scopes_view() == (if is_local {
                spec_local_assign_scopes(heap0.scopes_view(), env0.local.0@, varlist@[0]->NameVar_0, vallist@[0])
            } else {
                spec_assign_scopes(heap0.scopes_view(), env0.global, env0.local.0@, varlist@[0]->NameVar_0, vallist@[0])
            }),
        decreases varlist@.len() - k,
    {
        let ghost sv = heap.scopes_view();
        let ghost ek = *env;
        insert_to_env(&varlist[k], &vallist[k], env, heap, is_local, fl, fuel)?;
        proof {
            if names {
                let vs = spec_eval_list(explist@.take(m), rd0)->Some_0->Ok_0;
                assert(varlist@[k as int] is NameVar);
                let n = varlist@[k as int]->NameVar_0;
                assert forall|x: Seq<char>|
                    #![trigger spec_env_get(heap.scopes_view(), env0.global, env0.local.0@, x)]
                    match spec_last_assigned(varlist@, vs, k + 1, x) {
                        Some(v) => spec_env_get(heap.scopes_view(), env0.global, env0.local.0@, x) matches Some(w)
                            && spec_same_value(w.0, v),
                        None => spec_env_get(heap.scopes_view(), env0.global, env0.local.0@, x) == spec_env_get(
                            heap0.scopes_view(),
                            env0.global,
                            env0.local.0@,
                            x,
                        ),
                    } by {
                    law_assignment_frame(sv, env0.global, env0.local.0@, is_local, n, vallist@[k as int], x);
                    assert(spec_same_value(vallist@[k as int].0, spec_target_value(vs, k as int)));
                    assert(spec_env_get(sv, env0.global, env0.local.0@, x) == spec_env_get(sv, env0.global, env0.local.0@, x));
                }
                law_assignment_frame(sv, env0.global, env0.local.0@, is_local, n, vallist@[k as int], n@);
                if is_local {
                    let sv2 = heap.scopes_view();
                    assert forall|q: int| #![trigger sv2[q]] 0 <= q < heap0.scopes_view().len() && q
                        != env0.local.0@.last()->Some_0.0 implies sv2[q] == heap0.scopes_view()[q] by {
                        assert(sv[q] == heap0.scopes_view()[q]);
                    }
                }
                if !is_local {
                    lemma_assign_keeps_binds(sv, env0.global, env0.local.0@, n, vallist@[k as int]);
                    let sv3 = heap.scopes_view();
                    assert forall|q: usize, x: Seq<char>|
                        #![trigger spec_get_scope(sv3, q, x)]
                        q < heap0.scopes_view().len() && q != env0.global.0 && spec_get_scope(sv3, q, x)
                            is Some implies spec_get_scope(heap0.scopes_view(), q, x) is Some by {
                        assert(spec_get_scope(sv, q, x) is Some);
                    }
                    lemma_assign_keeps_empty(sv, env0.global, env0.local.0@, n, vallist@[k as int]);
                    let sv2 = heap.scopes_view();
                    assert forall|q: int|
                        #![trigger sv2[q]]
                        0 <= q < heap0.scopes_view().len() && q != env0.global.0 && heap0.scopes_view()[q].len()
                            == 0 implies sv2[q].len() == 0 by {
                        assert(sv[q].len() == 0);
                    }
                }
            }
        }
        k = k + 1;
    }
    proof {
        if fld {
        } else if single {
            let n = varlist@[0]->NameVar_0;
            if is_local {
                law_local_binding_shadows(heap0.scopes_view(), env0.local.0@, env0.global, n, vallist@[0]);
            } else {
                law_assignment_read(heap0.scopes_view(), env0.global, env0.local.0@, n, vallist@[0]);
            }
        }
    }
    Ok(())
}

/// The integer a for-loop bound evaluates to.
fn loop_int(v: &LuaValue, msg: &str) -> (r: Result<i64, ASTExecError>)
    ensures
        match v.0 {
            LuaVal::LuaNum(b, false) => r == Ok::<i64, ASTExecError>(spec_int_of_bytes(b)),
            _ => r matches Err(e) && e.0@ == msg@,
        },
{
    match &v.0 {
        LuaVal::LuaNum(bytes, false) => Ok(bytes_to_int(*bytes)),
        _ => Err(exec_error(msg)),
    }
}

/// The truth of a condition made of names, fields and constants (see
/// `spec_eval_in`), or the message of the error it raises; `None` for any
/// other condition.
pub open spec fn spec_cond_value(c: Expression, env: Env, h: Heap) -> Option<Result<bool, Seq<char>>> {
    match spec_value_of(c, env, h) {
        Some(Ok(v)) => Some(Ok(!spec_is_false(v))),
        Some(Err(m)) => Some(Err(m)),
        None => None,
    }
}

/// What a statement does whose condition is known: a false condition runs
/// nothing and leaves the heap as it was; a condition that raises an error
/// ends the statement with that error. The evaluation may also run out of
/// steps.
pub open spec fn spec_cond_outcome<'a>(
    cond: Option<Result<bool, Seq<char>>>,
    r: Result<Option<Vec<LuaValue>>, ASTExecError>,
    h0: Heap<'a>,
    h1: Heap<'a>,
) -> bool {
    match cond {
        Some(Ok(false)) => is_fuel_error(r) || ((r matches Ok(Some(vs)) && vs@.len() == 0) && h1 == h0),
        Some(Err(m)) => is_fuel_error(r) || (r matches Err(e) && e.0@ == m),
        _ => true,
    }
}

/// Which block an `if` statement runs from its `elseif` branches on: that
/// of the first branch whose condition holds, else the `else` block
/// (`None` without one); or the error of the first condition that raises
/// one. `None` when a condition it reaches is not of names, fields and
/// constants.
pub open spec fn spec_elif_branch(elifs: Seq<(Expression, Block)>, els: Option<Block>, env: Env, h: Heap) -> Option<
    Result<Option<Block>, Seq<char>>,
>
    decreases elifs.len(),
{
    if elifs.len() == 0 {
        Some(Ok(els))
    } else {
        match spec_cond_value(elifs[0].0, env, h) {
            Some(Ok(true)) => Some(Ok(Some(elifs[0].1))),
            Some(Ok(false)) => spec_elif_branch(elifs.drop_first(), els, env, h),
            Some(Err(m)) => Some(Err(m)),
            None => None,
        }
    }
}

/// Which block `if c then body elseif .. else .. end` runs (see
/// `spec_elif_branch`): `body` when `c` holds.
pub open spec fn spec_if_branch(
    c: Expression,
    body: Block,
    elifs: Seq<(Expression, Block)>,
    els: Option<Block>,
    env: Env,
    h: Heap,
) -> Option<Result<Option<Block>, Seq<char>>> {
    match spec_cond_value(c, env, h) {
        Some(Ok(true)) => Some(Ok(Some(body))),
        Some(Ok(false)) => spec_elif_branch(elifs, els, env, h),
        Some(Err(m)) => Some(Err(m)),
        None => None,
    }
}

/// What an `if` statement does once its branch is known: the chosen block
/// runs (see `spec_plain_body_done`, `spec_return_block_outcome` and
/// `spec_block_reads_after`); with
/// no block to run nothing changes; a failing condition gives its error.
/// With `esc` it may also run out of steps.
pub open spec fn spec_if_done<'a>(
    branch: Option<Result<Option<Block>, Seq<char>>>,
    r: Result<Option<Vec<LuaValue>>, ASTExecError>,
    env: Env,
    h0: Heap<'a>,
    env1: Env,
    h1: Heap<'a>,
    esc: bool,
) -> bool {
    match branch {
        Some(Ok(Some(b))) => spec_plain_body_done(b, r, env, h0, h1, esc) && spec_return_block_outcome(b, r, env, h0)
            && spec_block_reads_after(b, r, env, h0, env1, h1),
        Some(Ok(None)) => (esc && is_fuel_error(r)) || ((r matches Ok(Some(vs)) && vs@.len() == 0) && h1 == h0),
        Some(Err(m)) => (esc && is_fuel_error(r)) || (r matches Err(e) && e.0@ == m),
        None => true,
    }
}

/// The steps a block of plain statements takes at most, or none without
/// a block.
pub open spec fn spec_opt_block_cost(b: Option<Block>) -> nat {
    match b {
        Some(b) => spec_block_cost(b),
        None => 0,
    }
}

/// The steps the `elseif` branches of an `if` statement take at most:
/// each condition and each block (see `spec_block_cost`).
pub open spec fn spec_elifs_cost(elifs: Seq<(Expression, Block)>) -> nat
    decreases elifs.len(),
{
    if elifs.len() == 0 {
        0
    } else {
        spec_exp_cost(elifs[0].0) + spec_block_cost(elifs[0].1) + spec_elifs_cost(elifs.drop_first())
    }
}

/// The steps an `if` statement whose conditions are of names, fields and
/// constants and whose blocks are plain takes at most: one of its own,
/// then every condition and every block.
pub open spec fn spec_if_cost(c: Expression, body: Block, elifs: Seq<(Expression, Block)>, els: Option<Block>) -> nat {
    1 + spec_exp_cost(c) + spec_block_cost(body) + spec_elifs_cost(elifs) + spec_opt_block_cost(els)
}

/// The integers a numeric `for` loop runs over, when its initial value, its
/// limit and its step (1 without one) are integers of names, fields and
/// constants and the step is not 0: the initial value, the limit and the
/// step.
pub open spec fn spec_for_ints(e1: Expression, e2: Expression, e3: Option<Expression>, env: Env, h: Heap) -> Option<
    (int, int, int),
> {
    match spec_loop_int_value(e1, "Initial value in for loop must be an integer"@, env, h) {
        Some(Ok(a)) => match spec_value_of(e2, env, h) {
            Some(Ok(LuaVal::LuaNum(b, false))) => match e3 {
                Some(e) => match spec_loop_int_value(e, "Step value in for loop must be an integer"@, env, h) {
                    Some(Ok(c)) => if c != 0 {
                        Some((a, spec_int_of_bytes(b) as int, c))
                    } else {
                        None
                    },
                    _ => None,
                },
                None => Some((a, spec_int_of_bytes(b) as int, 1)),
            },
            _ => None,
        },
        _ => None,
    }
}

/// How many values a numeric `for` loop at `i` has left to run, and one.
pub open spec fn spec_for_left(i: int, limit: int, step: int) -> nat {
    if step > 0 && i <= limit {
        (limit - i + 1) as nat
    } else if step < 0 && i >= limit {
        (i - limit + 1) as nat
    } else {
        0
    }
}

/// The reads of an iteration of a numeric `for` loop: the loop's name reads
/// the integer `i`, other names as in `rd`.
pub open spec fn spec_for_reads(rd: Reads, name: Seq<char>, i: int) -> Reads {
    (
        |x: Seq<char>|
            if x == name {
                Some(LuaVal::LuaNum(spec_int_bytes(i as i64), false))
            } else {
                (rd.0)(x)
            },
        rd.1,
    )
}

/// The reads `rd` with nothing known of `name`.
pub open spec fn spec_forget(rd: Reads, name: Seq<char>) -> Reads {
    (|x: Seq<char>| if x == name { None } else { (rd.0)(x) }, rd.1)
}

/// What a numeric `for` loop over the name `name` from `i` to `limit` by
/// `step`, whose body is the plain statements `body` (see
/// `spec_run_plain`), does from the reads `rd`: each iteration runs the
/// body with `name` reading the loop's value, until the value passes the
/// limit (inclusive) or the next one would not fit in an `i64`; the reads
/// after it and the lines printed, or the lines printed before an error
/// and the error.
pub open spec fn spec_run_for(name: Seq<char>, i: int, limit: int, step: int, body: Seq<Statement>, rd: Reads) -> Option<
    Result<(Reads, Seq<Seq<char>>), (Seq<Seq<char>>, Seq<char>)>,
>
    decreases spec_for_left(i, limit, step),
{
    if spec_for_left(i, limit, step) == 0 {
        Some(Ok((rd, Seq::empty())))
    } else {
        match spec_run_plain(body, spec_for_reads(rd, name, i)) {
            Some(Ok((ro, lines))) => if i + step < i64::MIN || i + step > i64::MAX {
                Some(Ok((spec_forget(ro, name), lines)))
            } else {
                spec_prepend_lines(lines, spec_run_for(name, i + step, limit, step, body, spec_forget(ro, name)))
            },
            Some(Err(e)) => Some(Err(e)),
            None => None,
        }
    }
}

/// The steps a numeric `for` loop from `i` takes at most, `c` for each
/// iteration.
pub open spec fn spec_for_cost(i: int, limit: int, step: int, c: nat) -> nat
    decreases spec_for_left(i, limit, step),
{
    if spec_for_left(i, limit, step) == 0 {
        0
    } else if i + step < i64::MIN || i + step > i64::MAX {
        c
    } else {
        c + spec_for_cost(i + step, limit, step, c)
    }
}

/// The steps the head of a numeric `for` loop takes at most: its three
/// expressions.
pub open spec fn spec_for_head_cost(e1: Expression, e2: Expression, e3: Option<Expression>) -> nat {
    spec_exp_cost(e1) + spec_exp_cost(e2) + match e3 {
        Some(e) => spec_exp_cost(e),
        None => 0,
    }
}

/// What a numeric `for` loop that runs as `res` says (see `spec_run_for`)
/// does: it prints the lines and ends with no values, names then reading
/// as the run gives through `env1` in `h1`; or it prints the lines before
/// the error and gives the error.
pub open spec fn spec_for_done(
    res: Result<(Reads, Seq<Seq<char>>), (Seq<Seq<char>>, Seq<char>)>,
    r: Result<Option<Vec<LuaValue>>, ASTExecError>,
    h0: Heap,
    h1: Heap,
    env1: Env,
) -> bool {
    match res {
        Ok((rd, lines)) => (r matches Ok(Some(vs)) && vs@.len() == 0) && spec_lines_added(h0, h1, lines)
            && spec_reads_agree(rd, spec_reads_in(h1, env1.global, env1.local.0@)),
        Err((lines, m)) => spec_lines_added(h0, h1, lines) && (r matches Err(e) && e.0@ == m),
    }
}

/// The reads an iteration of a numeric `for` loop gives its body (see
/// `spec_for_reads`) agree with the state the loop made for it: a scope
/// binding only the loop's name to the value, on top of the loop's stack.
proof fn lemma_iteration_reads<'a>(
    rdk: Reads,
    name: &String,
    i: i64,
    iv: LuaValue,
    hk: Heap<'a>,
    hi: Heap<'a>,
    ek: Env,
    ei: Env,
    t: EnvTable,
)
    requires
        spec_reads_agree(rdk, spec_reads_in(hk, ek.global, ek.local.0@)),
        ek.global.0 < hk.scopes@.len(),
        spec_stack_in(ek.local.0@, hk.scopes@.len()),
        t.0 == hk.scopes@.len(),
        hi.scopes_view() == spec_insert_scope(hk.scopes_view().push(Seq::empty()), t.0, *name, iv),
        hi.tables@ == hk.tables@,
        is_int_val(iv.0, i),
        ei.global == ek.global,
        ei.local.0@ == ek.local.0@.push(None).push(Some(t)),
    ensures
        spec_reads_agree(spec_for_reads(rdk, name@, i as int), spec_block_names(ei, hi)),
        t.0 < hi.scopes_view().len(),
        forall|x: Seq<char>| x != name@ ==> #[trigger] spec_get_scope(hi.scopes_view(), t.0, x) is None,
{
    let e1 = spec_scope_insert(Seq::<(String, LuaValue)>::empty(), *name, iv);
    let svk = hk.scopes_view();
    let svi = hi.scopes_view();
    assert(svi =~= svk.push(e1));
    let sv2 = svi.push(Seq::<(String, LuaValue)>::empty());
    let top = EnvTable(hi.scopes@.len() as usize);
    assert(hi.scopes@.len() == svi.len());
    let bn = spec_block_names(ei, hi);
    let rd_in = spec_for_reads(rdk, name@, i as int);
    let rk = spec_reads_in(hk, ek.global, ek.local.0@);
    assert(spec_stack_in(ek.local.0@, svk.len()));
    assert(spec_stack_in(ek.local.0@, svi.len())) by {
        assert forall|k: int| 0 <= k < ek.local.0@.len() implies (#[trigger] ek.local.0@[k] matches Some(u) ==> u.0
            < svi.len()) by {}
    }
    assert forall|x: Seq<char>| #[trigger] (rd_in.0)(x) is Some implies ((bn.0)(x) matches Some(w) && spec_same_value(
        (rd_in.0)(x)->Some_0,
        w,
    )) by {
        lemma_local_get_empty_top(sv2, ei.local.0@, top, x);
        lemma_scope_insert_get(Seq::<(String, LuaValue)>::empty(), *name, iv, x);
        lemma_empty_scope_get(Seq::<(String, LuaValue)>::empty(), x);
        assert(sv2[t.0 as int] == e1);
        if x == name@ {
            assert(spec_get_scope(sv2, t.0, x) == Some(iv));
            assert(ek.local.0@.push(None).push(Some(t)).last() == Some(t));
            lemma_int_bytes(i);
        } else {
            assert(spec_get_scope(sv2, t.0, x) is None);
            lemma_local_get_unbound_top(sv2, ek.local.0@, t, x);
            lemma_local_get_push_any(svi, ek.local.0@, Seq::empty(), x);
            lemma_local_get_push_any(svk, ek.local.0@, e1, x);
            assert(spec_get_scope(sv2, ek.global.0, x) == spec_get_scope(svk, ek.global.0, x));
            assert((bn.0)(x) == (rk.0)(x));
        }
    }
    assert(hi.tables_view() =~= hk.tables_view());
    assert forall|x: Seq<char>| x != name@ implies #[trigger] spec_get_scope(hi.scopes_view(), t.0, x) is None by {
        lemma_scope_insert_get(Seq::<(String, LuaValue)>::empty(), *name, iv, x);
        lemma_empty_scope_get(Seq::<(String, LuaValue)>::empty(), x);
        assert(svi[t.0 as int] == e1);
    }
}

/// After an iteration of a numeric `for` loop whose body (plain, without
/// locals) left the reads `ro`, the loop's stack reads as `ro` but for the
/// loop's name: the iteration's scope still binds nothing else.
proof fn lemma_after_iteration<'a>(
    name: Seq<char>,
    ro: Reads,
    ei: Env,
    hi: Heap<'a>,
    ea: Env,
    ha: Heap<'a>,
    ek: Env,
    t: EnvTable,
)
    requires
        spec_reads_agree(ro, spec_reads_in(ha, ea.global, ea.local.0@)),
        spec_env_fresh_table(ei, ea, ha),
        ei.global == ek.global,
        ei.local.0@ == ek.local.0@.push(None).push(Some(t)),
        spec_binds_kept(hi.scopes_view(), ha.scopes_view(), ek.global.0),
        t.0 < hi.scopes_view().len(),
        t.0 != ek.global.0,
        forall|x: Seq<char>| x != name ==> #[trigger] spec_get_scope(hi.scopes_view(), t.0, x) is None,
    ensures
        spec_reads_agree(spec_forget(ro, name), spec_reads_in(ha, ek.global, ek.local.0@)),
{
    let sva = ha.scopes_view();
    let f = EnvTable((ha.scopes@.len() - 1) as usize);
    let ra = spec_reads_in(ha, ea.global, ea.local.0@);
    let rk = spec_reads_in(ha, ek.global, ek.local.0@);
    let rf = spec_forget(ro, name);
    assert forall|x: Seq<char>| #[trigger] (rf.0)(x) is Some implies ((rk.0)(x) matches Some(w) && spec_same_value(
        (rf.0)(x)->Some_0,
        w,
    )) by {
        assert(x != name);
        assert(sva.len() == ha.scopes@.len());
        assert(ha.scopes.len() == ha.scopes@.len());
        assert(f.0 as int == sva.len() - 1);
        assert(sva[f.0 as int] == sva.last());
        lemma_local_get_empty_top(sva, ei.local.0@, f, x);
        if spec_get_scope(sva, t.0, x) is Some {
            assert(spec_get_scope(hi.scopes_view(), t.0, x) is Some);
        }
        lemma_local_get_unbound_top(sva, ek.local.0@, t, x);
        assert((ra.0)(x) == (rk.0)(x));
    }
}

/// One iteration of a numeric `for` loop whose body is plain and without
/// locals: the body's outcome in the loop's state (as `Block::exec` states
/// it) moves the loop's run (see `spec_run_for`) on by one value, or ends
/// it with the body's error. Gives the reads and the lines after it.
proof fn lemma_for_iteration<'a>(
    name: Seq<char>,
    i: int,
    lim: int,
    st: int,
    block: Block,
    rdk: Reads,
    lines: Seq<Seq<char>>,
    total: Option<Result<(Reads, Seq<Seq<char>>), (Seq<Seq<char>>, Seq<char>)>>,
    rb: Result<Option<Vec<LuaValue>>, ASTExecError>,
    exact: bool,
    h0: Heap<'a>,
    ek: Env,
    ei: Env,
    hi: Heap<'a>,
    ea: Env,
    ha: Heap<'a>,
    t: EnvTable,
) -> (next: (Reads, Seq<Seq<char>>))
    requires
        spec_for_left(i, lim, st) != 0,
        total == spec_prepend_lines(lines, spec_run_for(name, i, lim, st, block.statements@, rdk)),
        spec_run_for(name, i, lim, st, block.statements@, rdk) is Some,
        spec_reads_agree(spec_for_reads(rdk, name, i), spec_block_names(ei, hi)),
        spec_run_plain(block.statements@, spec_block_names(ei, hi)) matches Some(res) ==> ((!exact && is_fuel_error(
            rb,
        )) || spec_plain_block_done(res, block.return_stat, rb, hi, ha)),
        spec_block_reads_after(block, rb, ei, hi, ea, ha),
        spec_block_binds_kept(block, rb, ei, hi, ha),
        rb is Ok ==> spec_env_fresh_table(ei, ea, ha),
        ei.global.0 < hi.scopes@.len(),
        spec_no_local(block.statements@),
        block.return_stat is None,
        spec_lines_added(h0, hi, lines),
        t.0 < hi.scopes_view().len(),
        t.0 != ek.global.0,
        forall|x: Seq<char>| x != name ==> #[trigger] spec_get_scope(hi.scopes_view(), t.0, x) is None,
        ei.global == ek.global,
        ei.local.0@ == ek.local.0@.push(None).push(Some(t)),
    ensures
        rb is Err && (exact || !is_fuel_error(rb)) ==> (total matches Some(Err((l, m))) && spec_lines_added(h0, ha, l)
            && (rb matches Err(e) && e.0@ == m)),
        rb is Ok ==> (rb matches Ok(Some(vs)) && vs@.len() == 0),
        rb is Ok ==> spec_run_plain(block.statements@, spec_block_names(ei, hi)) matches Some(Ok((ry, ly))),
        rb is Ok ==> spec_reads_agree(next.0, spec_reads_in(ha, ek.global, ek.local.0@)),
        rb is Ok ==> spec_lines_added(h0, ha, next.1),
        rb is Ok && (i + st < i64::MIN || i + st > i64::MAX) ==> total == Some(
            Ok::<(Reads, Seq<Seq<char>>), (Seq<Seq<char>>, Seq<char>)>((next.0, next.1)),
        ),
        rb is Ok && !(i + st < i64::MIN || i + st > i64::MAX) ==> (total == spec_prepend_lines(
            next.1,
            spec_run_for(name, i + st, lim, st, block.statements@, next.0),
        ) && spec_run_for(name, i + st, lim, st, block.statements@, next.0) is Some),
{
    let rd_in = spec_for_reads(rdk, name, i);
    let bn = spec_block_names(ei, hi);
    lemma_run_plain_agree(block.statements@, rd_in, bn);
    let x = spec_run_plain(block.statements@, rd_in)->Some_0;
    let y = spec_run_plain(block.statements@, bn)->Some_0;
    match x {
        Ok((ro, lx)) => {
            let ry = y->Ok_0.0;
            if rb is Ok {
                lemma_reads_agree_trans(ro, ry, spec_reads_in(ha, ea.global, ea.local.0@));
                lemma_after_iteration(name, ro, ei, hi, ea, ha, ek, t);
                lemma_lines_added_concat(h0, hi, ha, lines, lx);
                let rn = spec_forget(ro, name);
                if !(i + st < i64::MIN || i + st > i64::MAX) {
                    lemma_prepend_twice(lines, lx, spec_run_for(name, i + st, lim, st, block.statements@, rn));
                }
                (rn, lines + lx)
            } else {
                (rdk, lines)
            }
        },
        Err((lx, m)) => {
            if rb is Err && (exact || !is_fuel_error(rb)) {
                lemma_lines_added_concat(h0, hi, ha, lines, lx);
            }
            (rdk, lines)
        },
    }
}

/// What a `while` loop with the condition `c` and the body `b` of plain
/// statements (see `spec_run_plain`) does from the reads `rd`, for at most
/// `n` iterations: while `c` holds (only `nil` and `false` are false) the
/// body runs; the reads after it and the lines printed, or the lines
/// printed before an error and the error. `None` when `c` is not of names,
/// fields and constants, or the loop runs more than `n` times.
pub open spec fn spec_run_while(c: Expression, b: Seq<Statement>, rd: Reads, n: nat) -> Option<
    Result<(Reads, Seq<Seq<char>>), (Seq<Seq<char>>, Seq<char>)>,
>
    decreases n,
{
    match spec_eval_with(c, rd) {
        Some(Ok(v)) => if spec_is_false(v) {
            Some(Ok((rd, Seq::empty())))
        } else if n == 0 {
            None
        } else {
            match spec_run_plain(b, rd) {
                Some(Ok((ro, lines))) => spec_prepend_lines(lines, spec_run_while(c, b, ro, (n - 1) as nat)),
                other => other,
            }
        },
        Some(Err(m)) => Some(Err((Seq::empty(), m))),
        None => None,
    }
}

/// One iteration of a `while` loop whose body is plain and without locals:
/// the condition and the body's outcome in the loop's state move the run
/// (see `spec_run_while`) on, or end it. Gives the reads and the lines
/// after it.
proof fn lemma_while_iteration<'a>(
    c: Expression,
    block: Block,
    rdk: Reads,
    n: nat,
    lines: Seq<Seq<char>>,
    total: Option<Result<(Reads, Seq<Seq<char>>), (Seq<Seq<char>>, Seq<char>)>>,
    rb: Result<Option<Vec<LuaValue>>, ASTExecError>,
    h0: Heap<'a>,
    ek: Env,
    hk: Heap<'a>,
    ea: Env,
    ha: Heap<'a>,
)
    -> (next: (Reads, Seq<Seq<char>>))
    requires
        spec_eval_with(c, rdk) matches Some(Ok(v)) && !spec_is_false(v),
        n > 0,
        total == spec_prepend_lines(lines, spec_run_while(c, block.statements@, rdk, n)),
        spec_run_while(c, block.statements@, rdk, n) is Some,
        spec_reads_agree(rdk, spec_reads_in(hk, ek.global, ek.local.0@)),
        spec_run_plain(block.statements@, spec_block_names(ek, hk)) matches Some(res) ==> (is_fuel_error(
            rb,
        ) || spec_plain_block_done(res, block.return_stat, rb, hk, ha)),
        spec_block_reads_after(block, rb, ek, hk, ea, ha),
        ek.global.0 < hk.scopes@.len(),
        spec_no_local(block.statements@),
        block.return_stat is None,
        spec_lines_added(h0, hk, lines),
    ensures
        spec_reads_agree(rdk, spec_block_names(ek, hk)),
        rb is Err && !is_fuel_error(rb) ==> (total matches Some(Err((l, m))) && spec_lines_added(h0, ha, l)
            && (rb matches Err(e) && e.0@ == m)),
        rb is Ok ==> (rb matches Ok(Some(vs)) && vs@.len() == 0),
        rb is Ok ==> spec_run_plain(block.statements@, spec_block_names(ek, hk)) matches Some(Ok((ry, ly))),
        rb is Ok ==> spec_reads_agree(next.0, spec_reads_in(ha, ea.global, ea.local.0@)),
        rb is Ok ==> spec_lines_added(h0, ha, next.1),
        rb is Ok ==> (total == spec_prepend_lines(
            next.1,
            spec_run_while(c, block.statements@, next.0, (n - 1) as nat),
        ) && spec_run_while(c, block.statements@, next.0, (n - 1) as nat) is Some),
{
    let bn = spec_block_names(ek, hk);
    let rk = spec_reads_in(hk, ek.global, ek.local.0@);
    let sv = hk.scopes_view();
    let top = EnvTable(hk.scopes.len());
    assert(hk.scopes.len() == hk.scopes@.len());
    assert forall|x: Seq<char>| #[trigger] (bn.0)(x) == (rk.0)(x) by {
        lemma_local_get_empty_top(sv.push(Seq::empty()), ek.local.0@, top, x);
        lemma_local_get_push_empty(sv, ek.local.0@, x);
        lemma_get_scope_push_empty(sv, ek.global.0, x);
    }
    assert forall|x: Seq<char>| #[trigger] (rdk.0)(x) is Some implies ((bn.0)(x) matches Some(w) && spec_same_value(
        (rdk.0)(x)->Some_0,
        w,
    )) by {
        assert((bn.0)(x) == (rk.0)(x));
    }
    assert(spec_reads_agree(rdk, bn));
    lemma_run_plain_agree(block.statements@, rdk, bn);
    let x = spec_run_plain(block.statements@, rdk)->Some_0;
    let y = spec_run_plain(block.statements@, bn)->Some_0;
    match x {
        Ok((ro, lx)) => {
            let ry = y->Ok_0.0;
            if rb is Ok {
                lemma_reads_agree_trans(ro, ry, spec_reads_in(ha, ea.global, ea.local.0@));
                lemma_lines_added_concat(h0, hk, ha, lines, lx);
                lemma_prepend_twice(lines, lx, spec_run_while(c, block.statements@, ro, (n - 1) as nat));
                (ro, lines + lx)
            } else {
                (rdk, lines)
            }
        },
        Err((lx, m)) => {
            if rb is Err && !is_fuel_error(rb) {
                lemma_lines_added_concat(h0, hk, ha, lines, lx);
            }
            (rdk, lines)
        },
    }
}

/// Printed lines add up.
proof fn lemma_lines_added_concat(h0: Heap, h1: Heap, h2: Heap, a: Seq<Seq<char>>, b: Seq<Seq<char>>)
    requires
        spec_lines_added(h0, h1, a),
        spec_lines_added(h1, h2, b),
    ensures
        spec_lines_added(h0, h2, a + b),
{
    assert forall|k: int| 0 <= k < h0.output@.len() implies #[trigger] h2.output@[k] == h0.output@[k] by {
        assert(h2.output@[k] == h1.output@[k]);
    }
    assert forall|k: int| 0 <= k < (a + b).len() implies (#[trigger] h2.output@[h0.output@.len() + k])@ == (a
        + b)[k] by {
        if k < a.len() {
            assert(h2.output@[h0.output@.len() + k] == h1.output@[h0.output@.len() + k]);
        } else {
            assert(h2.output@[h1.output@.len() + (k - a.len())]@ == b[k - a.len()]);
        }
    }
}

/// Reads that agree with reads that agree with a third agree with it.
proof fn lemma_reads_agree_trans(a: Reads, b: Reads, c: Reads)
    requires
        spec_reads_agree(a, b),
        spec_reads_agree(b, c),
    ensures
        spec_reads_agree(a, c),
{
    assert forall|x: Seq<char>| #[trigger] (a.0)(x) is Some implies ((c.0)(x) matches Some(w) && spec_same_value(
        (a.0)(x)->Some_0,
        w,
    )) by {
        lemma_same_value_trans((a.0)(x)->Some_0, (b.0)(x)->Some_0, (c.0)(x)->Some_0);
    }
    assert forall|t: LuaTable, k: TableKey| #[trigger] (a.1)(t, k) is Some implies ((c.1)(t, k) matches Some(w)
        && spec_same_value((a.1)(t, k)->Some_0, w)) by {
        lemma_same_value_trans((a.1)(t, k)->Some_0, (b.1)(t, k)->Some_0, (c.1)(t, k)->Some_0);
    }
}

/// The integer value of an expression of names, fields and constants (see
/// `spec_eval_in`), or the error that the expression raises, or `msg` when
/// its value is no integer.
pub open spec fn spec_loop_int_value(e: Expression, msg: Seq<char>, env: Env, h: Heap) -> Option<
    Result<int, Seq<char>>,
> {
    match spec_value_of(e, env, h) {
        Some(Ok(LuaVal::LuaNum(b, false))) => Some(Ok(spec_int_of_bytes(b) as int)),
        Some(Ok(_)) => Some(Err(msg)),
        Some(Err(m)) => Some(Err(m)),
        None => None,
    }
}

/// Whether a numeric `for` loop whose bounds are expressions of names and
/// constants runs its body at least once, or the error it stops with before
/// running it. The initial value is checked before the limit is evaluated,
/// and the step after it.
pub open spec fn spec_for_value(
    e1: Expression,
    e2: Expression,
    e3: Option<Expression>,
    env: Env,
    h: Heap,
) -> Option<Result<bool, Seq<char>>> {
    match spec_loop_int_value(e1, "Initial value in for loop must be an integer"@, env, h) {
        Some(Ok(init)) => match spec_value_of(e2, env, h) {
            Some(Ok(lv)) => {
                let st = match e3 {
                    Some(e) => spec_loop_int_value(
                        e,
                        "Step value in for loop must be an integer"@,
                        env,
                        h,
                    ),
                    None => Some(Ok(1)),
                };
                match st {
                    Some(Ok(step)) => if step == 0 {
                        Some(Err("Step value in for loop cannot be 0"@))
                    } else {
                        match lv {
                            LuaVal::LuaNum(b, false) => Some(Ok(
                                if step > 0 {
                                    spec_int_of_bytes(b) >= init
                                } else {
                                    spec_int_of_bytes(b) <= init
                                },
                            )),
                            LuaVal::LuaNum(_, true) => None,
                            _ => Some(Err("Cannot compare values (types cannot be compared)"@)),
                        }
                    },
                    Some(Err(m)) => Some(Err(m)),
                    None => None,
                }
            },
            Some(Err(m)) => Some(Err(m)),
            None => None,
        },
        Some(Err(m)) => Some(Err(m)),
        None => None,
    }
}

/// What a function declaration does: the function is added to the heap
/// with the declared parameters and body and the stack it captures (whose
/// own table is a new scope); a fresh table is pushed on the caller's stack,
/// empty for a global declaration, so that locals declared after it are not
/// seen by the function; and its name then reads the new function (a local
/// one in the current scope, a global one in the global scope, when that
/// scope exists).
pub open spec fn spec_declared<'a>(
    st: Statement,
    r: Result<Option<Vec<LuaValue>>, ASTExecError>,
    e0: Env,
    e1: Env,
    h0: Heap<'a>,
    h1: Heap<'a>,
    local: bool,
) -> bool {
    match st {
        Statement::FunctionDecl((name, pars, body)) | Statement::LocalFuncDecl((name, pars, body)) => {
            let f = LuaValue(LuaVal::Function(h0.functions@.len() as usize));
            &&& r matches Ok(Some(vs)) && vs@.len() == 0
            &&& h1.functions@.len() == h0.functions@.len() + 1
            &&& *h1.functions@.last().par_list == pars
            &&& *h1.functions@.last().block == body
            &&& h1.functions@.last().captured_env.0@ == spec_capture(e0.local.0@, h0.scopes@.len() as usize)
            &&& e1.global == e0.global
            &&& e1.local.0@ == e0.local.0@.push(Some(EnvTable((h0.scopes@.len() + 1) as usize)))
            &&& h1.scopes@.len() == h0.scopes@.len() + 2
            &&& !local && e0.global.0 < h0.scopes@.len() ==> h1.scopes_view()[h0.scopes@.len() + 1int]
                == Seq::<(String, LuaValue)>::empty()
            &&& if local {
                spec_env_get(h1.scopes_view(), e1.global, e1.local.0@, name@) == Some(f)
            } else {
                e0.global.0 < h0.scopes@.len() ==> spec_get_scope(h1.scopes_view(), e0.global.0, name@)
                    == Some(f)
            }
        },
        _ => false,
    }
}

impl Statement {

    /// Runs `while exp do block end`: the block runs while the condition
    /// holds (only `nil` and `false` are false), until a `break` or a
    /// return with values.
    #[verifier::loop_isolation(false)]
    #[verifier::rlimit(100)]
    #[verifier::spinoff_prover]
    fn exec_while<'a, F: FloatOps>(
        exp: &'a Expression,
        block: &'a Block,
        env: &mut Env,
        heap: &mut Heap<'a>,
        fl: &F,
        fuel: &mut u64,
    ) -> (r: Result<Option<Vec<LuaValue>>, ASTExecError>)
        ensures
            *final(fuel) <= *old(fuel),
            spec_heap_grows(*old(heap), *final(heap)),
            r is Ok ==> spec_env_same_scope(*old(env), *final(env)),
            spec_cond_outcome(spec_cond_value(*exp, *old(env), *old(heap)), r, *old(heap), *final(heap)),
            spec_cond_value(*exp, *old(env), *old(heap)) == Some(Ok::<bool, Seq<char>>(true)) && spec_returns_values(
                *block,
            ) ==> spec_return_block_outcome(*block, r, *old(env), *old(heap)),
            block.return_stat is None && spec_no_local(block.statements@) && old(env).global.0
                < old(heap).scopes@.len() ==> (spec_run_while(
                *exp,
                block.statements@,
                spec_reads_in(*old(heap), old(env).global, old(env).local.0@),
                *old(fuel) as nat,
            ) matches Some(res) ==> is_fuel_error(r) || spec_for_done(res, r, *old(heap), *final(heap), *final(env))),
        decreases *old(fuel),
    {
        if !take_step(fuel) {
            return Err(out_of_fuel());
        }
        proof {
            lemma_same_scope_refl(env.local.0@);
        }
        let ghost mut first = true;
        let ghost gives_values = spec_cond_value(*exp, *old(env), *old(heap)) == Some(
            Ok::<bool, Seq<char>>(true),
        ) && spec_returns_values(*block) && spec_eval_list(
            block.return_stat->Some_0@,
            spec_block_names(*old(env), *old(heap)),
        ) is Some;
        let ghost rd0 = spec_reads_in(*old(heap), old(env).global, old(env).local.0@);
        let ghost total = spec_run_while(*exp, block.statements@, rd0, *old(fuel) as nat);
        let ghost good = block.return_stat is None && spec_no_local(block.statements@) && old(env).global.0
            < old(heap).scopes@.len() && total is Some;
        let ghost mut rdk: Reads = rd0;
        let ghost mut nk: nat = *old(fuel) as nat;
        let ghost mut lines: Seq<Seq<char>> = Seq::empty();
        proof {
            if good {
                assert(Seq::<Seq<char>>::empty() + Seq::<Seq<char>>::empty() =~= Seq::<Seq<char>>::empty());
                match total {
                    Some(Ok((x, l))) => {
                        assert(Seq::<Seq<char>>::empty() + l =~= l);
                    },
                    Some(Err((l, m))) => {
                        assert(Seq::<Seq<char>>::empty() + l =~= l);
                    },
                    None => {},
                }
            }
        }
        loop
            invariant
                good ==> total == spec_prepend_lines(lines, spec_run_while(*exp, block.statements@, rdk, nk)),
                good ==> spec_run_while(*exp, block.statements@, rdk, nk) is Some,
                good ==> spec_lines_added(*old(heap), *heap, lines),
                good ==> spec_reads_agree(rdk, spec_reads_in(*heap, env.global, env.local.0@)),
                good ==> env.global == old(env).global && old(env).global.0 < heap.scopes@.len(),
                *fuel < *old(fuel),
                spec_heap_grows(*old(heap), *heap),
                spec_env_same_scope(*old(env), *env),
                spec_cond_value(*exp, *old(env), *old(heap)) is Some && spec_cond_value(*exp, *old(env), *old(heap))
                    != Some(Ok::<bool, Seq<char>>(true)) ==> *heap == *old(heap),
                first ==> *heap == *old(heap) && *env == *old(env),
                gives_values ==> first,
                spec_cond_value(*exp, *old(env), *old(heap)) is Some && spec_cond_value(*exp, *old(env), *old(heap))
                    != Some(Ok::<bool, Seq<char>>(true)) ==> first,
            decreases *fuel,
        {
            let ghost ek = *env;
            let ghost hk = *heap;
            proof {
                if good {
                    lemma_eval_with_agree(*exp, rdk, spec_reads_in(hk, ek.global, ek.local.0@));
                }
            }
            let cond = first_value(exp.eval(env, heap, fl, fuel)?);
            if !cond.is_true() {
                proof {
                    assert(lines + Seq::<Seq<char>>::empty() =~= lines);
                }
                break ;
            }
            if !take_step(fuel) {
                return Err(out_of_fuel());
            }
            proof {
                if gives_values {
                    lemma_eval_list_len(
                        block.return_stat->Some_0@,
                        spec_block_names(*old(env), *old(heap)),
                    );
                }
            }
            let ghost eb = *env;
            let rb = block.exec(env, heap, fl, fuel);
            let ghost rbg = rb;
            let ghost ha = *heap;
            let ghost ea = *env;
            let ghost mut nx: (Reads, Seq<Seq<char>>) = (rdk, lines);
            proof {
                if good {
                    nx = lemma_while_iteration(*exp, *block, rdk, nk, lines, total, rbg, *old(heap), ek, hk, ea, ha);
                }
            }
            let body_result = match rb {
                Ok(x) => x,
                Err(e) => {
                    return Err(e);
                },
            };
            proof {
                first = false;
                lemma_same_scope_trans(old(env).local.0@, eb.local.0@, env.local.0@);
                if good {
                    rdk = nx.0;
                    lines = nx.1;
                    nk = (nk - 1) as nat;
                }
            }
            match body_result {
                Some(return_vals) => {
                    if return_vals.len() > 0 {
                        return Ok(Some(return_vals));
                    }
                },
                None => {
                    return Ok(Some(Vec::new()));
                },
            }
        }
    
        Ok(Some(Vec::new()))
    }

    /// Runs `for name = exp1, exp2, exp3 do block end`: the block runs with
    /// `name` bound, in a scope of its own, to each integer from the initial
    /// value to the limit (inclusive) by the step (1 without one), until a
    /// `break` or a return with values.
    #[verifier::loop_isolation(false)]
    #[verifier::rlimit(100)]
    #[verifier::spinoff_prover]
    fn exec_for<'a, F: FloatOps>(
        name: &'a String,
        exp1: &'a Expression,
        exp2: &'a Expression,
        exp3: &'a Option<Expression>,
        block: &'a Block,
        env: &mut Env,
        heap: &mut Heap<'a>,
        fl: &F,
        fuel: &mut u64,
    ) -> (r: Result<Option<Vec<LuaValue>>, ASTExecError>)
        ensures
            *final(fuel) <= *old(fuel),
            spec_heap_grows(*old(heap), *final(heap)),
            r is Ok ==> spec_env_same_scope(*old(env), *final(env)),
            spec_cond_outcome(spec_for_value(*exp1, *exp2, *exp3, *old(env), *old(heap)), r, *old(heap), *final(heap)),
            spec_for_ints(*exp1, *exp2, *exp3, *old(env), *old(heap)) matches Some((a, lim, st)) ==> (
            block.return_stat is None && spec_no_local(block.statements@) && old(env).global.0
                < old(heap).scopes@.len() && spec_stack_in(old(env).local.0@, old(heap).scopes@.len())
                ==> (spec_run_for(
                name@,
                a,
                lim,
                st,
                block.statements@,
                spec_reads_in(*old(heap), old(env).global, old(env).local.0@),
            ) matches Some(res) ==> ((*old(fuel) < 1 + spec_for_head_cost(*exp1, *exp2, *exp3) + spec_for_cost(
                a,
                lim,
                st,
                1 + spec_block_cost(*block),
            ) && is_fuel_error(r)) || spec_for_done(res, r, *old(heap), *final(heap), *final(env))))),
        decreases *old(fuel),
    {
        if !take_step(fuel) {
            return Err(out_of_fuel());
        }
        proof {
            lemma_same_scope_refl(env.local.0@);
        }
        let ghost fo = spec_for_ints(*exp1, *exp2, *exp3, *old(env), *old(heap));
        let ghost c = 1 + spec_block_cost(*block);
        let ghost good = fo is Some && block.return_stat is None && spec_no_local(block.statements@)
            && old(env).global.0 < old(heap).scopes@.len() && spec_stack_in(old(env).local.0@, old(heap).scopes@.len())
            && spec_run_for(
            name@,
            fo->Some_0.0,
            fo->Some_0.1,
            fo->Some_0.2,
            block.statements@,
            spec_reads_in(*old(heap), old(env).global, old(env).local.0@),
        ) is Some;
        let ghost enough = good && *old(fuel) >= 1 + spec_for_head_cost(*exp1, *exp2, *exp3) + spec_for_cost(
            fo->Some_0.0,
            fo->Some_0.1,
            fo->Some_0.2,
            c,
        );
        let ghost total = spec_run_for(
            name@,
            fo->Some_0.0,
            fo->Some_0.1,
            fo->Some_0.2,
            block.statements@,
            spec_reads_in(*old(heap), old(env).global, old(env).local.0@),
        );
        let ghost f0 = *fuel;
        let init = first_value(exp1.eval(env, heap, fl, fuel)?);
        let initial = loop_int(&init, "Initial value in for loop must be an integer")?;
        let limit = first_value(exp2.eval(env, heap, fl, fuel)?);
        let step = match exp3 {
            Some(e) => {
                let s = first_value(e.eval(env, heap, fl, fuel)?);
                loop_int(&s, "Step value in for loop must be an integer")?
            },
            None => 1,
        };
        if step == 0 {
            return Err(exec_error("Step value in for loop cannot be 0"));
        }
        let mut i = initial;
        let ghost mut rdk: Reads = spec_reads_in(*old(heap), old(env).global, old(env).local.0@);
        let ghost mut lines: Seq<Seq<char>> = Seq::empty();
        proof {
            if good {
                assert(Seq::<Seq<char>>::empty() + Seq::<Seq<char>>::empty() =~= Seq::<Seq<char>>::empty());
                match total {
                    Some(Ok((x, l))) => {
                        assert(Seq::<Seq<char>>::empty() + l =~= l);
                    },
                    Some(Err((l, m))) => {
                        assert(Seq::<Seq<char>>::empty() + l =~= l);
                    },
                    None => {},
                }
            }
        }
        loop
            invariant
                *fuel < *old(fuel),
                spec_heap_grows(*old(heap), *heap),
                spec_env_same_scope(*old(env), *env),
                spec_for_value(*exp1, *exp2, *exp3, *old(env), *old(heap)) == Some(Ok::<bool, Seq<char>>(false)) ==> (
                i == initial && *heap == *old(heap)),
                good ==> fo == Some((initial as int, spec_int_of_bytes(limit.0->LuaNum_0) as int, step as int)),
                good ==> limit.0 is LuaNum && !limit.0->LuaNum_1,
                good ==> env.global == old(env).global && env.local.0@ == old(env).local.0@,
                good ==> total == spec_prepend_lines(
                    lines,
                    spec_run_for(name@, i as int, fo->Some_0.1, fo->Some_0.2, block.statements@, rdk),
                ),
                good ==> spec_run_for(name@, i as int, fo->Some_0.1, fo->Some_0.2, block.statements@, rdk) is Some,
                good ==> spec_lines_added(*old(heap), *heap, lines),
                good ==> spec_reads_agree(rdk, spec_reads_in(*heap, env.global, env.local.0@)),
                good ==> old(env).global.0 < heap.scopes@.len(),
                good ==> spec_stack_in(old(env).local.0@, heap.scopes@.len()),
                enough ==> *fuel >= spec_for_cost(i as int, fo->Some_0.1, fo->Some_0.2, c),
            decreases *fuel,
        {
            let go = if step > 0 {
                limit.is_greater_or_equal(i, fl)?
            } else {
                limit.is_less_or_equal(i, fl)?
            };
            if !go {
                proof {
                    assert(lines + Seq::<Seq<char>>::empty() =~= lines);
                }
                break ;
            }
            if !take_step(fuel) {
                return Err(out_of_fuel());
            }
            let ghost hk = *heap;
            let ghost ek = *env;
            let ghost t = crate::interpreter::environment::EnvTable(heap.scopes@.len() as usize);
            let ghost e0 = *env;
            let iv = int_value(i);
            env.extend_local_env(heap);
            let ghost hm = *heap;
            env.insert_local(heap, name.clone(), iv);
            let ghost hi = *heap;
            let ghost ei = *env;
            let ghost rd_in = spec_for_reads(rdk, name@, i as int);
            let ghost bn = spec_block_names(ei, hi);
            proof {
                if good {
                    lemma_iteration_reads(rdk, name, i, iv, hk, hi, ek, ei, t);
                    lemma_run_plain_agree(block.statements@, rd_in, bn);
                }
            }
            let rb = block.exec(env, heap, fl, fuel);
            let ghost rbg = rb;
            let ghost ha = *heap;
            let ghost ea = *env;
            let ghost mut nx: (Reads, Seq<Seq<char>>) = (rdk, lines);
            proof {
                if good {
                    nx = lemma_for_iteration(
                        name@,
                        i as int,
                        fo->Some_0.1,
                        fo->Some_0.2,
                        *block,
                        rdk,
                        lines,
                        total,
                        rbg,
                        enough,
                        *old(heap),
                        ek,
                        ei,
                        hi,
                        ea,
                        ha,
                        t,
                    );
                }
            }
            let r = match rb {
                Ok(x) => x,
                Err(e) => {
                    return Err(e);
                },
            };
            proof {
                lemma_open_scope(e0.local.0@, t);
                lemma_opened_then_same(e0.local.0@, e0.local.0@.push(None).push(Some(t)), env.local.0@);
                lemma_pop_opened(e0.local.0@, env.local.0@);
            }
            env.pop_local_env();
            proof {
                if good {
                    lemma_pop_iteration(ek.local.0@, t, ea.local.0@.last()->Some_0);
                }
            }
            match r {
                Some(return_vals) => {
                    if return_vals.len() > 0 {
                        return Ok(Some(return_vals));
                    }
                },
                None => {
                    return Ok(Some(Vec::new()));
                },
            }
            proof {
                rdk = nx.0;
                lines = nx.1;
            }
            match i.checked_add(step) {
                Some(n) => {
                    i = n;
                },
                None => {
                    break ;
                },
            }
        }
        Ok(Some(Vec::new()))
    }

    /// Runs a function declaration (see `spec_declared`).
    fn exec_decl<'a>(&'a self, env: &mut Env, heap: &mut Heap<'a>) -> (r: Result<Option<Vec<LuaValue>>, ASTExecError>)
        requires
            *self is FunctionDecl || *self is LocalFuncDecl,
        ensures
            spec_heap_grows(*old(heap), *final(heap)),
            r is Ok,
            spec_env_same_scope(*old(env), *final(env)),
            spec_declared(*self, r, *old(env), *final(env), *old(heap), *final(heap), *self is LocalFuncDecl),
    {
        let ghost h0 = *heap;
        match self {
        Statement::FunctionDecl((name, par_list, block)) => {
            let captured_env = env.local.capture_env(heap);
            proof {
                lemma_push_table(env.local.0@, crate::interpreter::environment::EnvTable(heap.scopes@.len() as usize));
            }
            env.extend_local_without_scope(heap);
            let idx = heap.functions.len();
            heap.functions.push(LuaFunction { par_list, block, captured_env });
            let key = name.clone();
            let ghost sv = heap.scopes_view();
            let ghost g = env.global.0;
            proof {
                if g < sv.len() {
                    lemma_scope_insert_get(sv[g as int], key, LuaValue(LuaVal::Function(idx)), name@);
                }
            }
            env.insert_global(heap, key, LuaValue(LuaVal::Function(idx)));
        },
        Statement::LocalFuncDecl((name, par_list, block)) => {
            let captured_env = env.local.capture_env(heap);
            proof {
                lemma_push_table(env.local.0@, crate::interpreter::environment::EnvTable(heap.scopes@.len() as usize));
            }
            env.extend_local_without_scope(heap);
            let idx = heap.functions.len();
            heap.functions.push(LuaFunction { par_list, block, captured_env });
            env.insert_local(heap, name.clone(), LuaValue(LuaVal::Function(idx)));
        },
            _ => {
                assert(false);
            },
        }
        proof {
            assert(heap.scopes_view().len() == h0.scopes_view().len() + 2);
        }
        Ok(Some(Vec::new()))
    }

    /// Runs `if exp then block elseif .. else .. end`: the block of the
    /// first condition that holds, else the `else` block.
    #[verifier::loop_isolation(false)]
    #[verifier::spinoff_prover]
    fn exec_if<'a, F: FloatOps>(
        exp: &'a Expression,
        block: &'a Block,
        elseifs: &'a Vec<(Expression, Block)>,
        elseblock: &'a Option<Block>,
        env: &mut Env,
        heap: &mut Heap<'a>,
        fl: &F,
        fuel: &mut u64,
    ) -> (r: Result<Option<Vec<LuaValue>>, ASTExecError>)
        ensures
            *final(fuel) <= *old(fuel),
            spec_heap_grows(*old(heap), *final(heap)),
            r is Ok ==> spec_env_same_scope(*old(env), *final(env)),
            spec_if_done(
                spec_if_branch(*exp, *block, elseifs@, *elseblock, *old(env), *old(heap)),
                r,
                *old(env),
                *old(heap),
                *final(env),
                *final(heap),
                *old(fuel) < spec_if_cost(*exp, *block, elseifs@, *elseblock),
            ),
        decreases *old(fuel),
    {
        if !take_step(fuel) {
            return Err(out_of_fuel());
        }
        proof {
            lemma_same_scope_refl(env.local.0@);
            assert(elseifs@.skip(0) =~= elseifs@);
        }
        let condition = first_value(exp.eval(env, heap, fl, fuel)?);
        if condition.is_true() {
            return block.exec(env, heap, fl, fuel);
        }
        let mut i: usize = 0;
        let ghost h_entry = *heap;
        while i < elseifs.len()
            invariant
                i <= elseifs@.len(),
                i == 0 ==> *heap == h_entry && *env == *old(env),
                spec_cond_value(*exp, *old(env), *old(heap)) == Some(Ok::<bool, Seq<char>>(false))
                    && spec_elif_branch(elseifs@, *elseblock, *old(env), *old(heap)) is Some ==> (
                *heap == *old(heap) && *env == *old(env) && spec_elif_branch(
                    elseifs@.skip(i as int),
                    *elseblock,
                    *old(env),
                    *old(heap),
                ) == spec_elif_branch(elseifs@, *elseblock, *old(env), *old(heap))),
                spec_cond_value(*exp, *old(env), *old(heap)) == Some(Ok::<bool, Seq<char>>(false))
                    && spec_elif_branch(elseifs@, *elseblock, *old(env), *old(heap)) is Some && *old(fuel)
                    >= spec_if_cost(*exp, *block, elseifs@, *elseblock) ==> *fuel >= spec_elifs_cost(
                    elseifs@.skip(i as int),
                ) + spec_opt_block_cost(*elseblock),
                *fuel < *old(fuel),
                spec_heap_grows(*old(heap), *heap),
                spec_env_same_scope(*old(env), *env),
            decreases elseifs@.len() - i,
        {
            proof {
                assert(elseifs@.skip(i as int)[0] == elseifs@[i as int]);
                assert(elseifs@.skip(i as int).drop_first() =~= elseifs@.skip(i + 1));
            }
            let c = first_value(elseifs[i].0.eval(env, heap, fl, fuel)?);
            if c.is_true() {
                let ghost eb = *env;
                let r = elseifs[i].1.exec(env, heap, fl, fuel);
                proof {
                    if r is Ok {
                        lemma_same_scope_trans(old(env).local.0@, eb.local.0@, env.local.0@);
                    }
                }
                return r;
            }
            proof {
                assert(elseifs@.skip(i as int)[0] == elseifs@[i as int]);
                assert(elseifs@.skip(i as int).drop_first() =~= elseifs@.skip(i + 1));
            }
            i = i + 1;
        }
        proof {
            assert(elseifs@.skip(i as int) =~= Seq::<(Expression, Block)>::empty());
        }
        match elseblock {
            Some(b) => {
                let ghost eb = *env;
                let r = b.exec(env, heap, fl, fuel);
                proof {
                    if r is Ok {
                        lemma_same_scope_trans(old(env).local.0@, eb.local.0@, env.local.0@);
                    }
                }
                return r;
            },
            None => {},
        }
    
        Ok(Some(Vec::new()))
    }
    /// Runs the statement. `Ok(None)` means `break`; `Ok(Some(vals))` with
    /// values means a return from inside a loop or block.
    #[verifier::loop_isolation(false)]
    #[verifier::rlimit(100)]
    #[verifier::spinoff_prover]
    pub fn exec<'a, F: FloatOps>(
        &'a self,
        env: &mut Env,
        heap: &mut Heap<'a>,
        fl: &F,
        fuel: &mut u64,
    ) -> (r: Result<Option<Vec<LuaValue>>, ASTExecError>)
        ensures
            *final(fuel) <= *old(fuel),
            spec_heap_grows(*old(heap), *final(heap)),
            *old(fuel) > 0 && (*self matches Statement::Break) ==> r == Ok::<
                Option<Vec<LuaValue>>,
                ASTExecError,
            >(None) && *final(env) == *old(env) && *final(heap) == *old(heap),
            *old(fuel) > 0 && (*self matches Statement::Semicolon) ==> (r matches Ok(Some(vs))
                && vs@.len() == 0),
            spec_stmt_post(*self, r, *old(env), *old(heap), *final(env), *final(heap), true),
            spec_plain_ready(*self, *old(env), *old(heap)) && *old(fuel) >= spec_plain_cost(*self) ==> spec_stmt_post(
                *self,
                r,
                *old(env),
                *old(heap),
                *final(env),
                *final(heap),
                false,
            ) && *final(fuel) >= *old(fuel) - spec_plain_cost(*self),
            r is Ok ==> spec_env_same_scope(*old(env), *final(env)),
            *self matches Statement::ForGeneric((names, exps, body)) ==> (*old(fuel) > 0 ==> (r matches Err(
                e,
            ) && e.0@ == (if exps@.len() != 1 {
                "Generic for loop must use iterator function"@
            } else {
                "Generic for loop is not supported"@
            }))),
            *self matches Statement::While((c, body)) ==> spec_cond_outcome(
                spec_cond_value(c, *old(env), *old(heap)),
                r,
                *old(heap),
                *final(heap),
            ),
            *self matches Statement::While((c, body)) ==> (body.return_stat is None && spec_no_local(body.statements@)
                && old(env).global.0 < old(heap).scopes@.len() ==> (spec_run_while(
                c,
                body.statements@,
                spec_reads_in(*old(heap), old(env).global, old(env).local.0@),
                (*old(fuel) - 1) as nat,
            ) matches Some(res) ==> is_fuel_error(r) || spec_for_done(res, r, *old(heap), *final(heap), *final(env)))),
            *self matches Statement::If((c, body, elifs, els)) ==> spec_if_done(
                spec_if_branch(c, body, elifs@, els, *old(env), *old(heap)),
                r,
                *old(env),
                *old(heap),
                *final(env),
                *final(heap),
                *old(fuel) < 1 + spec_if_cost(c, body, elifs@, els),
            ),
            *self matches Statement::DoBlock(b) ==> spec_return_block_outcome(b, r, *old(env), *old(heap)),
            *self matches Statement::DoBlock(b) ==> spec_plain_body_done(
                b,
                r,
                *old(env),
                *old(heap),
                *final(heap),
                *old(fuel) < 1 + spec_block_cost(b),
            ),
            *self matches Statement::DoBlock(b) ==> spec_block_reads_after(
                b,
                r,
                *old(env),
                *old(heap),
                *final(env),
                *final(heap),
            ),
            *self matches Statement::While((c, body)) ==> (spec_cond_value(c, *old(env), *old(heap)) == Some(
                Ok::<bool, Seq<char>>(true),
            ) && spec_returns_values(body) ==> spec_return_block_outcome(body, r, *old(env), *old(heap))),
            *self matches Statement::Repeat((body, c)) ==> (spec_returns_values(body)
                ==> spec_return_block_outcome(body, r, *old(env), *old(heap))),
            *self matches Statement::ForNum((n, e1, e2, e3, body)) ==> spec_cond_outcome(
                spec_for_value(e1, e2, e3, *old(env), *old(heap)),
                r,
                *old(heap),
                *final(heap),
            ),
            *self matches Statement::ForNum((n, e1, e2, e3, body)) ==> (spec_for_ints(e1, e2, e3, *old(env), *old(heap))
                matches Some((a, lim, st)) ==> (body.return_stat is None && spec_no_local(body.statements@)
                && old(env).global.0 < old(heap).scopes@.len() && spec_stack_in(old(env).local.0@, old(heap).scopes@.len())
                ==> (spec_run_for(
                n@,
                a,
                lim,
                st,
                body.statements@,
                spec_reads_in(*old(heap), old(env).global, old(env).local.0@),
            ) matches Some(res) ==> ((*old(fuel) < 2 + spec_for_head_cost(e1, e2, e3) + spec_for_cost(
                a,
                lim,
                st,
                1 + spec_block_cost(body),
            ) && is_fuel_error(r)) || spec_for_done(res, r, *old(heap), *final(heap), *final(env)))))),
            *self matches Statement::FunctionCall(c) ==> (c matches FunctionCall::Standard(
                (callee, Args::ExpList(exps)),
            ) ==> (spec_eval_prefix(*callee, spec_reads_in(*old(heap), old(env).global, old(env).local.0@))
                == Some(Ok::<LuaVal, Seq<char>>(LuaVal::Print)) ==> (spec_eval_list(
                exps@,
                spec_reads_in(*old(heap), old(env).global, old(env).local.0@),
            ) matches Some(res) ==> (*old(fuel) >= 1 + spec_print_cost(*callee, exps@) ==> match res {
                Ok(vals) => (r matches Ok(Some(vs)) && vs@.len() == 0) && spec_print_effect(
                    vals,
                    *old(heap),
                    *final(heap),
                ),
                Err(m) => r matches Err(e) && e.0@ == m && final(heap).output@ == old(heap).output@,
            })))),
            *self matches Statement::Assignment((vars, exps, is_local)) ==> (spec_names_assignment(
                vars@,
                exps@,
                is_local,
                *old(env),
                *old(heap),
            ) ==> (*old(fuel) >= 1 + spec_assignment_cost(vars@, exps@) ==> spec_names_assigned(
                vars@,
                exps@,
                (r matches Ok(Some(vs)) && vs@.len() == 0),
                spec_err_msg(r),
                *old(env),
                *old(heap),
                *final(env),
                *final(heap),
            ))),
            *old(fuel) > 0 && (*self is FunctionDecl) ==> spec_declared(
                *self,
                r,
                *old(env),
                *final(env),
                *old(heap),
                *final(heap),
                false,
            ),
            *old(fuel) > 0 && (*self is LocalFuncDecl) ==> spec_declared(
                *self,
                r,
                *old(env),
                *final(env),
                *old(heap),
                *final(heap),
                true,
            ),
            *self matches Statement::Assignment((vars, exps, is_local)) ==> (spec_field_assignment(
                vars@,
                exps@,
                *old(env),
                *old(heap),
            ) ==> is_fuel_error(r) || spec_field_assignment_done(
                vars@,
                exps@,
                (r matches Ok(Some(vs)) && vs@.len() == 0),
                spec_err_msg(r),
                *old(env),
                *old(heap),
                *final(heap),
            )),
            *self matches Statement::Assignment((vars, exps, is_local)) ==> (spec_single_assignment(
                vars@,
                exps@,
                is_local,
                *old(env),
                *old(heap),
            ) ==> is_fuel_error(r) || spec_single_assignment_done(
                vars@,
                exps@,
                (r matches Ok(Some(vs)) && vs@.len() == 0),
                spec_err_msg(r),
                *old(env),
                *old(heap),
                *final(env),
                final(heap).scopes_view(),
            )),
        decreases *old(fuel),
    {
        if !take_step(fuel) {
            return Err(out_of_fuel());
        }
        proof {
            lemma_same_scope_refl(env.local.0@);
        }
        match self {
            Statement::Semicolon => {},
            Statement::Assignment((varlist, explist, is_local)) => {
                exec_assignment(varlist, explist, *is_local, env, heap, fl, fuel)?;
            },
            Statement::FunctionCall(funcall) => {
                funcall.exec(env, heap, fl, fuel)?;
            },
            Statement::Break => {
                return Ok(None);
            },
            Statement::DoBlock(block) => {
                return match block.exec(env, heap, fl, fuel)? {
                    Some(val) => Ok(Some(val)),
                    None => Err(
                        exec_error(
                            "Break statement can only be used inside a while, repeat, or for loop",
                        ),
                    ),
                };
            },
            Statement::While((exp, block)) => {
                return Self::exec_while(exp, block, env, heap, fl, fuel);
            },
            Statement::Repeat((block, exp)) => {
                let ghost mut first = true;
                let ghost gives_values = spec_returns_values(*block) && spec_eval_list(
                    block.return_stat->Some_0@,
                    spec_block_names(*old(env), *old(heap)),
                ) is Some;
                loop
                    invariant
                        *fuel < *old(fuel),
                        spec_heap_grows(*old(heap), *heap),
                        spec_env_same_scope(*old(env), *env),
                        first ==> *heap == *old(heap) && *env == *old(env),
                        gives_values ==> first,
                    decreases *fuel,
                {
                    if !take_step(fuel) {
                        return Err(out_of_fuel());
                    }
                    let ghost e0 = *env;
                    proof {
                        if gives_values {
                            lemma_eval_list_len(
                                block.return_stat->Some_0@,
                                spec_block_names(*old(env), *old(heap)),
                            );
                        }
                    }
                    let body_result = block.exec_without_pop(env, heap, fl, fuel)?;
                    proof {
                        first = false;
                    }
                    proof {
                        lemma_pop_opened(e0.local.0@, env.local.0@);
                    }
                    match body_result {
                        Some(return_vals) => {
                            if return_vals.len() > 0 {
                                env.pop_local_env();
                                return Ok(Some(return_vals));
                            }
                        },
                        None => {
                            env.pop_local_env();
                            return Ok(Some(Vec::new()));
                        },
                    }
                    let cond = first_value(exp.eval(env, heap, fl, fuel)?);
                    env.pop_local_env();
                    if cond.is_true() {
                        break ;
                    }
                }
            },
            Statement::If((exp, block, elseifs, elseblock)) => {
                return Self::exec_if(exp, block, elseifs, elseblock, env, heap, fl, fuel);
            },
            Statement::ForNum((name, exp1, exp2, exp3, block)) => {
                return Self::exec_for(name, exp1, exp2, exp3, block, env, heap, fl, fuel);
            },
            Statement::ForGeneric((_names, exp_list, _block)) => {
                if exp_list.len() != 1 {
                    return Err(exec_error("Generic for loop must use iterator function"));
                }
                return Err(exec_error("Generic for loop is not supported"));
            },
            Statement::FunctionDecl(_) | Statement::LocalFuncDecl(_) => {
                return self.exec_decl(env, heap);
            },
        }
        Ok(Some(Vec::new()))
    }
}

} // verus!
