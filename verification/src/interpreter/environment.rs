//! Scopes of variables. A scope is a table in the heap; the local
//! environment is a stack of such tables where `None` marks where a scope
//! begins. Closures capture the tables of the local environment, so they see
//! later changes to captured variables but not variables declared after
//! them.
use crate::interpreter::{Heap, LuaVal, LuaValue};
use vstd::prelude::*;

verus! {

/// Entries of one scope.
pub type ScopeEntries = Seq<(String, LuaValue)>;

/// The contents of all scopes in a heap.
pub type ScopesView = Seq<Seq<(String, LuaValue)>>;

/// The index of the last entry for `name`, or -1.
pub open spec fn spec_find_last(e: ScopeEntries, name: Seq<char>) -> int
    decreases e.len(),
{
    if e.len() == 0 {
        -1
    } else if e.last().0@ == name {
        e.len() - 1
    } else {
        spec_find_last(e.drop_last(), name)
    }
}

/// The value bound to `name` in one scope.
pub open spec fn spec_scope_get(e: ScopeEntries, name: Seq<char>) -> Option<LuaValue> {
    let i = spec_find_last(e, name);
    if i < 0 {
        None
    } else {
        Some(e[i].1)
    }
}

/// The scope after binding `name` to `v`: the last entry for the name is
/// overwritten, or a new entry is added.
pub open spec fn spec_scope_insert(e: ScopeEntries, name: String, v: LuaValue) -> ScopeEntries {
    let i = spec_find_last(e, name@);
    if i < 0 {
        e.push((name, v))
    } else {
        e.update(i, (e[i].0, v))
    }
}

/// The value bound to `name` in scope `t`.
pub open spec fn spec_get_scope(sv: ScopesView, t: usize, name: Seq<char>) -> Option<LuaValue> {
    if t < sv.len() {
        spec_scope_get(sv[t as int], name)
    } else {
        None
    }
}

/// The scopes after binding `name` to `v` in scope `t`.
pub open spec fn spec_insert_scope(sv: ScopesView, t: usize, name: String, v: LuaValue) -> ScopesView {
    if t < sv.len() {
        sv.update(t as int, spec_scope_insert(sv[t as int], name, v))
    } else {
        sv
    }
}

/// The value of `name` in a stack of scopes: the innermost binding wins.
pub open spec fn spec_local_get(sv: ScopesView, s: Seq<Option<EnvTable>>, name: Seq<char>) -> Option<
    LuaValue,
>
    decreases s.len(),
{
    if s.len() == 0 {
        None
    } else {
        match s.last() {
            Some(t) => match spec_get_scope(sv, t.0, name) {
                Some(v) => Some(v),
                None => spec_local_get(sv, s.drop_last(), name),
            },
            None => spec_local_get(sv, s.drop_last(), name),
        }
    }
}

/// The innermost scope of a stack that binds `name`.
pub open spec fn spec_local_find(sv: ScopesView, s: Seq<Option<EnvTable>>, name: Seq<char>) -> Option<
    EnvTable,
>
    decreases s.len(),
{
    if s.len() == 0 {
        None
    } else {
        match s.last() {
            Some(t) => if spec_get_scope(sv, t.0, name) is Some {
                Some(t)
            } else {
                spec_local_find(sv, s.drop_last(), name)
            },
            None => spec_local_find(sv, s.drop_last(), name),
        }
    }
}

/// The stack without its innermost scope: entries are removed up to and
/// including the nearest `None`.
pub open spec fn spec_pop(s: Seq<Option<EnvTable>>) -> Seq<Option<EnvTable>>
    decreases s.len(),
{
    if s.len() == 0 {
        s
    } else if s.last() is None {
        s.drop_last()
    } else {
        spec_pop(s.drop_last())
    }
}

/// The stack a closure captures: a fresh scope `fresh`, then the tables of
/// `s` from the innermost to the outermost.
pub open spec fn spec_capture(s: Seq<Option<EnvTable>>, fresh: usize) -> Seq<Option<EnvTable>> {
    seq![None, Some(EnvTable(fresh))] + s.reverse()
}

// ---------------------------------------------------------------------
// Lemmas on scopes
// ---------------------------------------------------------------------

proof fn lemma_find_last_range(e: ScopeEntries, name: Seq<char>)
    ensures
        -1 <= spec_find_last(e, name) < e.len(),
        spec_find_last(e, name) >= 0 ==> e[spec_find_last(e, name)].0@ == name,
    decreases e.len(),
{
    if e.len() > 0 && e.last().0@ != name {
        lemma_find_last_range(e.drop_last(), name);
    }
}

proof fn lemma_find_last_is(e: ScopeEntries, name: Seq<char>, i: int)
    requires
        -1 <= i < e.len(),
        i >= 0 ==> e[i].0@ == name,
        forall|j: int| i < j < e.len() ==> e[j].0@ != name,
    ensures
        spec_find_last(e, name) == i,
    decreases e.len(),
{
    if e.len() > 0 && e.len() - 1 != i {
        lemma_find_last_is(e.drop_last(), name, i);
    }
}

proof fn lemma_find_last_same_keys(e1: ScopeEntries, e2: ScopeEntries, name: Seq<char>)
    requires
        e1.len() == e2.len(),
        forall|j: int| 0 <= j < e1.len() ==> e1[j].0@ == e2[j].0@,
    ensures
        spec_find_last(e1, name) == spec_find_last(e2, name),
    decreases e1.len(),
{
    if e1.len() > 0 {
        lemma_find_last_same_keys(e1.drop_last(), e2.drop_last(), name);
    }
}

/// Binding a name in a scope changes what that name reads, and nothing else.
pub proof fn lemma_scope_insert_get(e: ScopeEntries, name: String, v: LuaValue, other: Seq<char>)
    ensures
        spec_scope_get(spec_scope_insert(e, name, v), other) == if other == name@ {
            Some(v)
        } else {
            spec_scope_get(e, other)
        },
{
    let i = spec_find_last(e, name@);
    lemma_find_last_range(e, name@);
    let e2 = spec_scope_insert(e, name, v);
    lemma_find_last_range(e, other);
    if i < 0 {
        assert(e2.drop_last() =~= e);
    } else {
        lemma_find_last_same_keys(e, e2, other);
        lemma_find_last_same_keys(e, e2, name@);
    }
}

// ---------------------------------------------------------------------
// One scope
// ---------------------------------------------------------------------

/// A handle to one scope in the heap.
#[derive(Debug, PartialEq, Eq, Clone, Copy, Structural)]
pub struct EnvTable(pub usize);

impl EnvTable {
    /// A new empty scope.
    pub fn new(heap: &mut Heap) -> (t: EnvTable)
        ensures
            t.0 == old(heap).scopes@.len(),
            final(heap).scopes_view() == old(heap).scopes_view().push(Seq::empty()),
            final(heap).same_but_scopes(&*old(heap)),
    {
        let t = EnvTable(heap.scopes.len());
        heap.scopes.push(Vec::new());
        assert(heap.scopes_view() =~= old(heap).scopes_view().push(Seq::empty()));
        t
    }

    /// The value bound to `name` in this scope, through a mutable handle
    /// (the handle itself does not change).
    pub fn get_mut(&mut self, heap: &Heap, name: &str) -> (r: Option<LuaValue>)
        ensures
            r == spec_get_scope(heap.scopes_view(), old(self).0, name@),
            *final(self) == *old(self),
    {
        self.get(heap, name)
    }

    /// The value bound to `name` in this scope.
    pub fn get(&self, heap: &Heap, name: &str) -> (r: Option<LuaValue>)
        ensures
            r == spec_get_scope(heap.scopes_view(), self.0, name@),
    {
        if self.0 >= heap.scopes.len() {
            return None;
        }
        let entries = &heap.scopes[self.0];
        let ghost e = entries@;
        assert(heap.scopes_view()[self.0 as int] == e);
        let mut i = entries.len();
        while i > 0
            invariant
                i <= e.len(),
                e == entries@,
                self.0 < heap.scopes@.len(),
                heap.scopes_view()[self.0 as int] == e,
                forall|j: int| i <= j < e.len() ==> e[j].0@ != name@,
            decreases i,
        {
            i = i - 1;
            if str_eq(entries[i].0.as_str(), name) {
                proof {
                    lemma_find_last_is(e, name@, i as int);
                }
                return Some(entries[i].1.clone());
            }
        }
        proof {
            lemma_find_last_is(e, name@, -1);
        }
        None
    }

    /// Binds `name` to `var` in this scope and returns the value it had.
    pub fn insert(&self, heap: &mut Heap, name: String, var: LuaValue) -> (r: Option<LuaValue>)
        ensures
            r == spec_get_scope(old(heap).scopes_view(), self.0, name@),
            final(heap).scopes_view() == spec_insert_scope(
                old(heap).scopes_view(),
                self.0,
                name,
                var,
            ),
            final(heap).same_but_scopes(&*old(heap)),
    {
        if self.0 >= heap.scopes.len() {
            return None;
        }
        let ghost sv = heap.scopes_view();
        let ghost e = heap.scopes@[self.0 as int]@;
        let mut i = heap.scopes[self.0].len();
        while i > 0
            invariant
                i <= e.len(),
                self.0 < heap.scopes@.len(),
                heap.scopes_view() == sv,
                sv[self.0 as int] == e,
                heap.same_but_scopes(&*old(heap)),
                sv == old(heap).scopes_view(),
                forall|j: int| i <= j < e.len() ==> e[j].0@ != name@,
            decreases i,
        {
            i = i - 1;
            assert(heap.scopes_view()[self.0 as int] == heap.scopes@[self.0 as int]@);
            if str_eq(heap.scopes[self.0][i].0.as_str(), name.as_str()) {
                proof {
                    lemma_find_last_is(e, name@, i as int);
                }
                let old_val = heap.scopes[self.0][i].1.clone();
                heap.scopes[self.0][i].1 = var;
                assert(heap.scopes_view() =~= spec_insert_scope(sv, self.0, name, var));
                return Some(old_val);
            }
        }
        proof {
            lemma_find_last_is(e, name@, -1);
        }
        heap.scopes[self.0].push((name, var));
        assert(heap.scopes_view() =~= spec_insert_scope(sv, self.0, name, var));
        None
    }
}

/// Whether two strings have the same characters.
pub fn str_eq(a: &str, b: &str) -> (r: bool)
    ensures
        r == (a@ == b@),
{
    let ca = crate::text::str_to_chars(a);
    let cb = crate::text::str_to_chars(b);
    if ca.len() != cb.len() {
        assert(a@.len() != b@.len());
        return false;
    }
    let mut i: usize = 0;
    while i < ca.len()
        invariant
            ca@ == a@,
            cb@ == b@,
            ca.len() == cb.len(),
            i <= ca.len(),
            forall|j: int| 0 <= j < i ==> ca@[j] == cb@[j],
        decreases ca.len() - i,
    {
        if ca[i] != cb[i] {
            return false;
        }
        i = i + 1;
    }
    assert(a@ =~= b@);
    true
}


// ---------------------------------------------------------------------
// The stack of local scopes
// ---------------------------------------------------------------------

/// Local scopes, innermost last. `None` marks the start of a scope; a scope
/// may hold several tables, of which a closure captures only those that
/// existed when it was defined.
#[derive(Debug, PartialEq)]
pub struct LocalEnv(pub Vec<Option<EnvTable>>);

proof fn lemma_local_get_take(sv: ScopesView, s: Seq<Option<EnvTable>>, name: Seq<char>, i: int)
    requires
        0 < i <= s.len(),
    ensures
        s.take(i).last() == s[i - 1],
        s.take(i).drop_last() == s.take(i - 1),
{
    assert(s.take(i).drop_last() =~= s.take(i - 1));
}

impl LocalEnv {
    /// A stack with one empty scope.
    pub fn new(heap: &mut Heap) -> (env: LocalEnv)
        ensures
            env.0@ == seq![None, Some(EnvTable(old(heap).scopes.len()))],
            final(heap).scopes_view() == old(heap).scopes_view().push(Seq::empty()),
            final(heap).same_but_scopes(&*old(heap)),
    {
        let mut env = LocalEnv(Vec::new());
        env.extend_env(heap);
        assert(env.0@ =~= seq![None, Some(EnvTable(old(heap).scopes.len()))]);
        env
    }

    /// The value of `name`, searching from the innermost table outwards.
    pub fn get(&self, heap: &Heap, name: &str) -> (r: Option<LuaValue>)
        ensures
            r == spec_local_get(heap.scopes_view(), self.0@, name@),
    {
        let ghost sv = heap.scopes_view();
        let ghost s = self.0@;
        let mut i = self.0.len();
        assert(s.take(i as int) =~= s);
        while i > 0
            invariant
                i <= s.len(),
                s == self.0@,
                sv == heap.scopes_view(),
                spec_local_get(sv, s, name@) == spec_local_get(sv, s.take(i as int), name@),
            decreases i,
        {
            proof {
                lemma_local_get_take(sv, s, name@, i as int);
            }
            i = i - 1;
            match self.0[i] {
                Some(t) => {
                    let r = t.get(heap, name);
                    if r.is_some() {
                        return r;
                    }
                },
                None => {},
            }
        }
        assert(s.take(0) =~= Seq::<Option<EnvTable>>::empty());
        None
    }

    /// The innermost table that binds `name`.
    pub fn find(&self, heap: &Heap, name: &str) -> (r: Option<EnvTable>)
        ensures
            r == spec_local_find(heap.scopes_view(), self.0@, name@),
    {
        let ghost sv = heap.scopes_view();
        let ghost s = self.0@;
        let mut i = self.0.len();
        assert(s.take(i as int) =~= s);
        while i > 0
            invariant
                i <= s.len(),
                s == self.0@,
                sv == heap.scopes_view(),
                spec_local_find(sv, s, name@) == spec_local_find(sv, s.take(i as int), name@),
            decreases i,
        {
            proof {
                lemma_local_get_take(sv, s, name@, i as int);
            }
            i = i - 1;
            match self.0[i] {
                Some(t) => {
                    let r = t.get(heap, name);
                    if r.is_some() {
                        return Some(t);
                    }
                },
                None => {},
            }
        }
        assert(s.take(0) =~= Seq::<Option<EnvTable>>::empty());
        None
    }

    /// Opens a new scope with one empty table.
    pub fn extend_env(&mut self, heap: &mut Heap)
        ensures
            final(self).0@ == old(self).0@.push(None).push(
                Some(EnvTable(old(heap).scopes.len())),
            ),
            final(heap).scopes_view() == old(heap).scopes_view().push(Seq::empty()),
            final(heap).same_but_scopes(&*old(heap)),
    {
        self.0.push(None);
        let t = EnvTable::new(heap);
        self.0.push(Some(t));
    }

    /// Pushes a table of another stack (or a scope marker).
    pub fn extend_env_with_table(&mut self, table: &Option<EnvTable>)
        ensures
            final(self).0@ == old(self).0@.push(*table),
    {
        self.0.push(*table);
    }

    /// Adds an empty table to the innermost scope without opening a new
    /// scope, so that names declared from now on are not seen by closures
    /// created before.
    pub fn extend_env_without_scope(&mut self, heap: &mut Heap)
        ensures
            final(self).0@ == old(self).0@.push(Some(EnvTable(old(heap).scopes.len()))),
            final(heap).scopes_view() == old(heap).scopes_view().push(Seq::empty()),
            final(heap).same_but_scopes(&*old(heap)),
    {
        let t = EnvTable::new(heap);
        self.0.push(Some(t));
    }

    /// Closes the innermost scope.
    pub fn pop_env(&mut self)
        ensures
            final(self).0@ == spec_pop(old(self).0@),
    {
        loop
            invariant_except_break
                spec_pop(old(self).0@) == spec_pop(self.0@),
            ensures
                self.0@ == spec_pop(old(self).0@),
            decreases self.0@.len(),
        {
            let ghost before = self.0@;
            match self.0.pop() {
                Some(Some(_)) => {
                    assert(before.drop_last() == self.0@);
                },
                Some(None) => {
                    assert(before.drop_last() == self.0@);
                    break ;
                },
                None => {
                    break ;
                },
            }
        }
    }

    /// Binds `name` in the innermost table; nothing happens when the stack
    /// does not end with a table.
    pub fn insert(&mut self, heap: &mut Heap, name: String, var: LuaValue) -> (r: Option<
        LuaValue,
    >)
        ensures
            final(self).0@ == old(self).0@,
            old(self).0@.len() > 0 && old(self).0@.last() is Some ==> {
                let t = old(self).0@.last()->Some_0;
                &&& r == spec_get_scope(old(heap).scopes_view(), t.0, name@)
                &&& final(heap).scopes_view() == spec_insert_scope(
                    old(heap).scopes_view(),
                    t.0,
                    name,
                    var,
                )
            },
            !(old(self).0@.len() > 0 && old(self).0@.last() is Some) ==> r is None
                && final(heap).scopes_view() == old(heap).scopes_view(),
            final(heap).same_but_scopes(&*old(heap)),
    {
        let n = self.0.len();
        if n == 0 {
            return None;
        }
        match self.0[n - 1] {
            Some(t) => t.insert(heap, name, var),
            None => None,
        }
    }

    /// Rebinds `name` in the innermost table that binds it; nothing happens
    /// when no table binds it.
    pub fn update(&mut self, heap: &mut Heap, name: String, var: LuaValue) -> (r: Option<
        LuaValue,
    >)
        ensures
            final(self).0@ == old(self).0@,
            match spec_local_find(old(heap).scopes_view(), old(self).0@, name@) {
                Some(t) => {
                    &&& r == spec_get_scope(old(heap).scopes_view(), t.0, name@)
                    &&& final(heap).scopes_view() == spec_insert_scope(
                        old(heap).scopes_view(),
                        t.0,
                        name,
                        var,
                    )
                },
                None => r is None && final(heap).scopes_view() == old(heap).scopes_view(),
            },
            final(heap).same_but_scopes(&*old(heap)),
    {
        match self.find(heap, name.as_str()) {
            Some(t) => t.insert(heap, name, var),
            None => None,
        }
    }

    /// The stack a closure defined here captures: a fresh scope followed by
    /// this stack's tables, innermost first. The tables are shared, not
    /// copied.
    pub fn capture_env(&self, heap: &mut Heap) -> (env: LocalEnv)
        ensures
            env.0@ == spec_capture(self.0@, old(heap).scopes.len()),
            final(heap).scopes_view() == old(heap).scopes_view().push(Seq::empty()),
            final(heap).same_but_scopes(&*old(heap)),
    {
        let mut env = LocalEnv::new(heap);
        let ghost start = env.0@;
        let mut i = self.0.len();
        while i > 0
            invariant
                i <= self.0@.len(),
                env.0@ == start + self.0@.skip(i as int).reverse(),
            decreases i,
        {
            i = i - 1;
            env.extend_env_with_table(&self.0[i]);
            assert(self.0@.skip(i as int).reverse() =~= self.0@.skip(i + 1).reverse().push(
                self.0@[i as int],
            ));
        }
        assert(self.0@.skip(0) =~= self.0@);
        env
    }
}

// ---------------------------------------------------------------------
// The whole environment
// ---------------------------------------------------------------------

/// The global scope and the stack of local scopes.
#[derive(Debug, PartialEq)]
pub struct Env {
    pub global: EnvTable,
    pub local: LocalEnv,
}

/// The value of `name`: the innermost local binding, else the global one.
pub open spec fn spec_env_get(sv: ScopesView, global: EnvTable, local: Seq<Option<EnvTable>>, name: Seq<char>) -> Option<LuaValue> {
    match spec_local_get(sv, local, name) {
        Some(v) => Some(v),
        None => spec_get_scope(sv, global.0, name),
    }
}

impl Env {
    /// A fresh environment whose global scope holds the built-in functions
    /// `print`, `read` and `random`.
    pub fn new(heap: &mut Heap) -> (env: Env)
        ensures
            env.global.0 == old(heap).scopes@.len(),
            env.local.0@ == seq![None, Some(EnvTable((old(heap).scopes.len() + 1) as usize))],
            final(heap).same_but_scopes(&*old(heap)),
            final(heap).scopes@.len() == old(heap).scopes@.len() + 2,
            spec_get_scope(final(heap).scopes_view(), env.global.0, "print"@) == Some(LuaValue(LuaVal::Print)),
            spec_get_scope(final(heap).scopes_view(), env.global.0, "read"@) == Some(LuaValue(LuaVal::Read)),
            spec_get_scope(final(heap).scopes_view(), env.global.0, "random"@) == Some(LuaValue(LuaVal::Random)),
            spec_local_get(final(heap).scopes_view(), env.local.0@, "print"@) is None,
            spec_local_get(final(heap).scopes_view(), env.local.0@, "read"@) is None,
            spec_local_get(final(heap).scopes_view(), env.local.0@, "random"@) is None,
            forall|n: Seq<char>|
                #[trigger] spec_get_scope(final(heap).scopes_view(), env.global.0, n) is Some ==> n == "print"@
                    || n == "read"@ || n == "random"@,
            final(heap).scopes_view()[env.local.0@[1]->Some_0.0 as int] == Seq::<(String, LuaValue)>::empty(),
    {
        let global = EnvTable::new(heap);
        let local = LocalEnv::new(heap);
        let mut env = Env { global, local };
        proof {
            reveal_strlit("print");
            reveal_strlit("read");
            reveal_strlit("random");
        }
        let ghost sv0 = heap.scopes_view();
        let p = String::from_str("print");
        let ghost pv = p;
        env.insert_global(heap, p, LuaValue(LuaVal::Print));
        let ghost sv1 = heap.scopes_view();
        let r = String::from_str("read");
        let ghost rv = r;
        env.insert_global(heap, r, LuaValue(LuaVal::Read));
        let ghost sv2 = heap.scopes_view();
        let q = String::from_str("random");
        let ghost qv = q;
        env.insert_global(heap, q, LuaValue(LuaVal::Random));
        proof {
            let g = global.0 as int;
            assert("print"@.len() == 5 && "read"@.len() == 4 && "random"@.len() == 6);
            assert("print"@ != "read"@ && "print"@ != "random"@ && "read"@ != "random"@);
            let e0 = sv0[g];
            lemma_scope_insert_get(e0, pv, LuaValue(LuaVal::Print), "print"@);
            let e1 = spec_scope_insert(e0, pv, LuaValue(LuaVal::Print));
            assert(sv1[g] == e1);
            lemma_scope_insert_get(e1, rv, LuaValue(LuaVal::Read), "print"@);
            lemma_scope_insert_get(e1, rv, LuaValue(LuaVal::Read), "read"@);
            let e2 = spec_scope_insert(e1, rv, LuaValue(LuaVal::Read));
            assert(sv2[g] == e2);
            lemma_scope_insert_get(e2, qv, LuaValue(LuaVal::Random), "print"@);
            lemma_scope_insert_get(e2, qv, LuaValue(LuaVal::Random), "read"@);
            lemma_scope_insert_get(e2, qv, LuaValue(LuaVal::Random), "random"@);
            assert(heap.scopes_view().len() == sv0.len());
            assert(heap.scopes_view()[g] == spec_scope_insert(e2, qv, LuaValue(LuaVal::Random)));
            let l = env.local.0@.last()->Some_0.0 as int;
            assert(heap.scopes_view()[l] == sv0[l]);
            assert(sv0[l] == Seq::<(String, LuaValue)>::empty());
            assert(env.local.0@.drop_last() =~= seq![None]);
            assert(env.local.0@.drop_last().drop_last() =~= Seq::<Option<EnvTable>>::empty());
            reveal_with_fuel(spec_local_get, 3);
            assert forall|n: Seq<char>|
                #[trigger] spec_get_scope(heap.scopes_view(), env.global.0, n) is Some implies n == "print"@
                    || n == "read"@ || n == "random"@ by {
                if n != "print"@ && n != "read"@ && n != "random"@ {
                    lemma_scope_insert_get(e0, pv, LuaValue(LuaVal::Print), n);
                    lemma_scope_insert_get(e1, rv, LuaValue(LuaVal::Read), n);
                    lemma_scope_insert_get(e2, qv, LuaValue(LuaVal::Random), n);
                    assert(e0 == Seq::<(String, LuaValue)>::empty());
                    assert(spec_find_last(e0, n) < 0);
                }
            }
        }
        env
    }

    /// Shares another global scope.
    pub fn set_global_env(&mut self, global: EnvTable)
        ensures
            final(self).global == global,
            final(self).local.0@ == old(self).local.0@,
    {
        self.global = global;
    }

    pub fn get_local(&self, heap: &Heap, name: &str) -> (r: Option<LuaValue>)
        ensures
            r == spec_local_get(heap.scopes_view(), self.local.0@, name@),
    {
        self.local.get(heap, name)
    }

    pub fn get_global(&self, heap: &Heap, name: &str) -> (r: Option<LuaValue>)
        ensures
            r == spec_get_scope(heap.scopes_view(), self.global.0, name@),
    {
        self.global.get(heap, name)
    }

    /// The value of `name`: locals shadow globals.
    pub fn get(&self, heap: &Heap, name: &str) -> (r: Option<LuaValue>)
        ensures
            r == spec_env_get(heap.scopes_view(), self.global, self.local.0@, name@),
    {
        match self.local.get(heap, name) {
            Some(v) => Some(v),
            None => self.global.get(heap, name),
        }
    }

    pub fn insert_local(&mut self, heap: &mut Heap, name: String, var: LuaValue)
        ensures
            final(self).global == old(self).global,
            final(self).local.0@ == old(self).local.0@,
            old(self).local.0@.len() > 0 && old(self).local.0@.last() is Some ==> final(heap).scopes_view() == spec_insert_scope(
                old(heap).scopes_view(),
                old(self).local.0@.last()->Some_0.0,
                name,
                var,
            ),
            !(old(self).local.0@.len() > 0 && old(self).local.0@.last() is Some)
                ==> final(heap).scopes_view() == old(heap).scopes_view(),
            final(heap).same_but_scopes(&*old(heap)),
    {
        self.local.insert(heap, name, var);
    }

    pub fn update_local(&mut self, heap: &mut Heap, name: String, var: LuaValue)
        ensures
            final(self).global == old(self).global,
            final(self).local.0@ == old(self).local.0@,
            final(heap).scopes_view() == match spec_local_find(
                old(heap).scopes_view(),
                old(self).local.0@,
                name@,
            ) {
                Some(t) => spec_insert_scope(old(heap).scopes_view(), t.0, name, var),
                None => old(heap).scopes_view(),
            },
            final(heap).same_but_scopes(&*old(heap)),
    {
        self.local.update(heap, name, var);
    }

    pub fn insert_global(&mut self, heap: &mut Heap, name: String, var: LuaValue)
        ensures
            final(self).global == old(self).global,
            final(self).local.0@ == old(self).local.0@,
            final(heap).scopes_view() == spec_insert_scope(
                old(heap).scopes_view(),
                old(self).global.0,
                name,
                var,
            ),
            final(heap).same_but_scopes(&*old(heap)),
    {
        self.global.insert(heap, name, var);
    }

    pub fn extend_local_env(&mut self, heap: &mut Heap)
        ensures
            final(self).global == old(self).global,
            final(self).local.0@ == old(self).local.0@.push(None).push(
                Some(EnvTable(old(heap).scopes.len())),
            ),
            final(heap).scopes_view() == old(heap).scopes_view().push(Seq::empty()),
            final(heap).same_but_scopes(&*old(heap)),
    {
        self.local.extend_env(heap);
    }

    pub fn extend_local_without_scope(&mut self, heap: &mut Heap)
        ensures
            final(self).global == old(self).global,
            final(self).local.0@ == old(self).local.0@.push(
                Some(EnvTable(old(heap).scopes.len())),
            ),
            final(heap).scopes_view() == old(heap).scopes_view().push(Seq::empty()),
            final(heap).same_but_scopes(&*old(heap)),
    {
        self.local.extend_env_without_scope(heap);
    }

    pub fn pop_local_env(&mut self)
        ensures
            final(self).global == old(self).global,
            final(self).local.0@ == spec_pop(old(self).local.0@),
    {
        self.local.pop_env();
    }

    pub fn get_local_env(&self) -> (l: &LocalEnv)
        ensures
            *l == self.local,
    {
        &self.local
    }

    /// The environment of a call of a closure that captured `local_env`: the
    /// current global scope and a capture of the closure's scopes.
    pub fn create_with_captured_env(&self, heap: &mut Heap, local_env: &LocalEnv) -> (env: Env)
        ensures
            env.global == self.global,
            env.local.0@ == spec_capture(local_env.0@, old(heap).scopes.len()),
            final(heap).scopes_view() == old(heap).scopes_view().push(Seq::empty()),
            final(heap).same_but_scopes(&*old(heap)),
    {
        let local = local_env.capture_env(heap);
        Env { global: self.global, local }
    }
}

// ---------------------------------------------------------------------
// Laws of scoping
// ---------------------------------------------------------------------

/// Every table of the stack is a scope of the heap.
pub open spec fn spec_stack_in_heap(s: Seq<Option<EnvTable>>, n: nat) -> bool {
    forall|i: int| 0 <= i < s.len() && s[i] is Some ==> (#[trigger] s[i])->Some_0.0 < n
}

proof fn lemma_local_get_frame(sv1: ScopesView, sv2: ScopesView, s: Seq<Option<EnvTable>>, name: Seq<char>)
    requires
        spec_stack_in_heap(s, sv1.len()),
        sv1.len() <= sv2.len(),
        forall|t: int| 0 <= t < sv1.len() ==> sv1[t] == sv2[t],
    ensures
        spec_local_get(sv1, s, name) == spec_local_get(sv2, s, name),
        spec_local_find(sv1, s, name) == spec_local_find(sv2, s, name),
    decreases s.len(),
{
    if s.len() > 0 {
        let d = s.drop_last();
        assert forall|i: int| 0 <= i < d.len() && d[i] is Some implies (#[trigger] d[i])->Some_0.0
            < sv1.len() by {
            assert(d[i] == s[i]);
        }
        lemma_local_get_frame(sv1, sv2, d, name);
        if s.last() is Some {
            assert(s[s.len() - 1] is Some);
        }
    }
}

/// Leaving a block forgets its locals: opening a scope, binding a name in
/// it and closing the scope again gives back the same stack, in which every
/// name reads as it did before.
pub proof fn law_scope_exit_restores(
    sv: ScopesView,
    s: Seq<Option<EnvTable>>,
    name: String,
    v: LuaValue,
    other: Seq<char>,
)
    requires
        spec_stack_in_heap(s, sv.len()),
        sv.len() < usize::MAX,
    ensures
        ({
            let t = EnvTable(sv.len() as usize);
            let opened = s.push(None).push(Some(t));
            let sv2 = spec_insert_scope(sv.push(Seq::empty()), t.0, name, v);
            &&& spec_pop(opened) == s
            &&& spec_local_get(sv2, s, other) == spec_local_get(sv, s, other)
            &&& spec_local_get(sv2, opened, name@) == Some(v)
        }),
{
    let t = EnvTable(sv.len() as usize);
    let opened = s.push(None).push(Some(t));
    let sv1 = sv.push(Seq::empty());
    let sv2 = spec_insert_scope(sv1, t.0, name, v);
    assert(opened.drop_last() == s.push(None));
    assert(s.push(None).drop_last() == s);
    assert(spec_pop(s.push(None)) == s);
    assert(spec_pop(opened) == spec_pop(s.push(None)));
    assert forall|u: int| 0 <= u < sv.len() implies sv[u] == sv2[u] by {}
    lemma_local_get_frame(sv, sv2, s, other);
    lemma_scope_insert_get(Seq::empty(), name, v, name@);
    assert(sv1[t.0 as int] == Seq::<(String, LuaValue)>::empty());
}

/// A closure does not see names declared after it: once the closure has
/// captured the stack, declaring a local in a fresh table of the current
/// scope leaves every name of the captured stack as it was.
pub proof fn law_capture_hides_later_locals(
    sv: ScopesView,
    s: Seq<Option<EnvTable>>,
    name: String,
    v: LuaValue,
    other: Seq<char>,
)
    requires
        spec_stack_in_heap(s, sv.len()),
        sv.len() + 1 < usize::MAX,
    ensures
        ({
            let cap = spec_capture(s, sv.len() as usize);
            let sv1 = sv.push(Seq::empty());
            let t2 = EnvTable(sv1.len() as usize);
            let sv3 = spec_insert_scope(sv1.push(Seq::empty()), t2.0, name, v);
            &&& spec_local_get(sv3, cap, other) == spec_local_get(sv1, cap, other)
            &&& spec_local_get(sv3, s.push(Some(t2)), name@) == Some(v)
        }),
{
    let cap = spec_capture(s, sv.len() as usize);
    let sv1 = sv.push(Seq::empty());
    let t2 = EnvTable(sv1.len() as usize);
    let sv2 = sv1.push(Seq::empty());
    let sv3 = spec_insert_scope(sv2, t2.0, name, v);
    assert forall|i: int| 0 <= i < cap.len() && cap[i] is Some implies (#[trigger] cap[i])->Some_0.0
        < sv1.len() by {
        if i >= 2 {
            assert(cap[i] == s.reverse()[i - 2]);
            assert(s.reverse()[i - 2] == s[s.len() - 1 - (i - 2)]);
        }
    }
    assert forall|u: int| 0 <= u < sv1.len() implies sv1[u] == sv3[u] by {}
    lemma_local_get_frame(sv1, sv3, cap, other);
    lemma_scope_insert_get(Seq::empty(), name, v, name@);
    assert(s.push(Some(t2)).last() == Some(t2));
}

/// A local binding shadows every outer one: after binding `name` in the
/// innermost table, the stack reads `name` as the new value.
pub proof fn law_local_binding_shadows(
    sv: ScopesView,
    s: Seq<Option<EnvTable>>,
    global: EnvTable,
    name: String,
    v: LuaValue,
)
    requires
        s.len() > 0,
        s.last() is Some,
        s.last()->Some_0.0 < sv.len(),
    ensures
        spec_env_get(spec_insert_scope(sv, s.last()->Some_0.0, name, v), global, s, name@)
            == Some(v),
{
    let t = s.last()->Some_0;
    lemma_scope_insert_get(sv[t.0 as int], name, v, name@);
}

/// The scopes after `local name = v`: the name is bound in the innermost
/// table of the stack.
pub open spec fn spec_local_assign_scopes(
    sv: ScopesView,
    s: Seq<Option<EnvTable>>,
    name: String,
    v: LuaValue,
) -> ScopesView {
    if s.len() > 0 && s.last() is Some {
        spec_insert_scope(sv, s.last()->Some_0.0, name, v)
    } else {
        sv
    }
}

/// The scopes after `name = v` without `local`: the innermost table of the
/// stack that binds `name` is updated, or else the global table.
pub open spec fn spec_assign_scopes(
    sv: ScopesView,
    global: EnvTable,
    s: Seq<Option<EnvTable>>,
    name: String,
    v: LuaValue,
) -> ScopesView {
    match spec_local_find(sv, s, name@) {
        Some(t) => spec_insert_scope(sv, t.0, name, v),
        None => spec_insert_scope(sv, global.0, name, v),
    }
}

/// Every scope of `sv0` but the global one `g` that is empty is still empty
/// in `sv1`, which has at least as many scopes.
pub open spec fn spec_empty_kept(sv0: ScopesView, sv1: ScopesView, g: usize) -> bool {
    &&& sv1.len() >= sv0.len()
    &&& forall|k: int|
        #![trigger sv1[k]]
        0 <= k < sv0.len() && k != g && sv0[k].len() == 0 ==> sv1[k].len() == 0
}

/// No scope of `sv0` but the global one `g` binds in `sv1` a name it did
/// not bind in `sv0`; `sv1` has at least as many scopes.
pub open spec fn spec_binds_kept(sv0: ScopesView, sv1: ScopesView, g: usize) -> bool {
    &&& sv1.len() >= sv0.len()
    &&& forall|k: usize, x: Seq<char>|
        #![trigger spec_get_scope(sv1, k, x)]
        k < sv0.len() && k != g && spec_get_scope(sv1, k, x) is Some ==> spec_get_scope(sv0, k, x) is Some
}

/// An assignment that is not `local` binds no new name in a scope other
/// than the global one.
pub proof fn lemma_assign_keeps_binds(sv: ScopesView, g: EnvTable, s: Seq<Option<EnvTable>>, name: String, v: LuaValue)
    ensures
        spec_binds_kept(sv, spec_assign_scopes(sv, g, s, name, v), g.0),
{
    lemma_find_binds(sv, s, name@);
    let sv1 = spec_assign_scopes(sv, g, s, name, v);
    assert forall|k: usize, x: Seq<char>|
        #![trigger spec_get_scope(sv1, k, x)]
        k < sv.len() && k != g.0 && spec_get_scope(sv1, k, x) is Some implies spec_get_scope(sv, k, x) is Some by {
        if let Some(t) = spec_local_find(sv, s, name@) {
            if k == t.0 {
                lemma_scope_insert_get(sv[k as int], name, v, x);
            }
        }
    }
}

/// Only scope `t` may differ between `sv0` and `sv1`.
pub open spec fn spec_only_scope_changed(sv0: ScopesView, sv1: ScopesView, t: usize) -> bool {
    &&& sv1.len() == sv0.len()
    &&& forall|k: int| #![trigger sv1[k]] 0 <= k < sv0.len() && k != t ==> sv1[k] == sv0[k]
}

/// An assignment that is not `local` binds in a scope that already binds
/// the name, or in the global scope: it leaves every other empty scope
/// empty.
pub proof fn lemma_assign_keeps_empty(sv: ScopesView, g: EnvTable, s: Seq<Option<EnvTable>>, name: String, v: LuaValue)
    ensures
        spec_empty_kept(sv, spec_assign_scopes(sv, g, s, name, v), g.0),
{
    lemma_find_binds(sv, s, name@);
    match spec_local_find(sv, s, name@) {
        Some(t) => {
            if t.0 < sv.len() {
                lemma_find_last_range(sv[t.0 as int], name@);
            }
        },
        None => {},
    }
}

/// A scope with no entries binds nothing.
pub proof fn lemma_empty_scope_get(e: ScopeEntries, name: Seq<char>)
    requires
        e.len() == 0,
    ensures
        spec_scope_get(e, name) is None,
{
    lemma_find_last_range(e, name);
}

/// Every table of the stack `s` is one of the first `n` scopes.
pub open spec fn spec_stack_in(s: Seq<Option<EnvTable>>, n: nat) -> bool {
    forall|k: int| 0 <= k < s.len() ==> (#[trigger] s[k] matches Some(t) ==> t.0 < n)
}

/// Adding a scope at the end changes no read through a stack whose tables
/// were all there.
pub proof fn lemma_local_get_push_any(sv: ScopesView, s: Seq<Option<EnvTable>>, e: ScopeEntries, name: Seq<char>)
    requires
        spec_stack_in(s, sv.len()),
    ensures
        spec_local_get(sv.push(e), s, name) == spec_local_get(sv, s, name),
    decreases s.len(),
{
    if s.len() > 0 {
        assert(spec_stack_in(s.drop_last(), sv.len())) by {
            assert forall|k: int| 0 <= k < s.drop_last().len() implies (#[trigger] s.drop_last()[k] matches Some(t)
                ==> t.0 < sv.len()) by {
                assert(s.drop_last()[k] == s[k]);
            }
        }
        lemma_local_get_push_any(sv, s.drop_last(), e, name);
        assert(s[s.len() - 1] == s.last());
    }
}

/// A scope that does not bind `name`, and a boundary, on top of a stack
/// change no read of `name`.
pub proof fn lemma_local_get_unbound_top(sv: ScopesView, s: Seq<Option<EnvTable>>, t: EnvTable, name: Seq<char>)
    requires
        spec_get_scope(sv, t.0, name) is None,
    ensures
        spec_local_get(sv, s.push(Some(t)), name) == spec_local_get(sv, s, name),
        spec_local_get(sv, s.push(None).push(Some(t)), name) == spec_local_get(sv, s, name),
{
    assert(s.push(Some(t)).drop_last() =~= s);
    assert(s.push(None).push(Some(t)).drop_last() =~= s.push(None));
    assert(s.push(None).drop_last() =~= s);
    assert(spec_local_get(sv, s.push(None), name) == spec_local_get(sv, s, name));
    assert(spec_local_get(sv, s.push(None).push(Some(t)), name) == spec_local_get(sv, s.push(None), name));
}

/// Closing the scope of a loop's iteration (a boundary, the loop's table
/// and the table a block left) gives back the stack of the loop.
pub proof fn lemma_pop_iteration(s: Seq<Option<EnvTable>>, t: EnvTable, f: EnvTable)
    ensures
        spec_pop(s.push(None).push(Some(t)).push(Some(f))) == s,
{
    let a = s.push(None).push(Some(t)).push(Some(f));
    assert(a.drop_last() =~= s.push(None).push(Some(t)));
    assert(s.push(None).push(Some(t)).drop_last() =~= s.push(None));
    assert(s.push(None).drop_last() =~= s);
    assert(spec_pop(s.push(None)) == s);
    assert(spec_pop(s.push(None).push(Some(t))) == spec_pop(s.push(None)));
    assert(spec_pop(a) == spec_pop(s.push(None).push(Some(t))));
}

/// Adding an empty scope at the end changes no scope's bindings.
pub proof fn lemma_get_scope_push_empty(sv: ScopesView, t: usize, name: Seq<char>)
    ensures
        spec_get_scope(sv.push(Seq::empty()), t, name) == spec_get_scope(sv, t, name),
{
    if t == sv.len() {
        lemma_empty_scope_get(Seq::empty(), name);
    }
}

/// Adding an empty scope at the end changes no read.
pub proof fn lemma_local_get_push_empty(sv: ScopesView, s: Seq<Option<EnvTable>>, name: Seq<char>)
    ensures
        spec_local_get(sv.push(Seq::empty()), s, name) == spec_local_get(sv, s, name),
    decreases s.len(),
{
    if s.len() > 0 {
        lemma_local_get_push_empty(sv, s.drop_last(), name);
        if let Some(t) = s.last() {
            if t.0 == sv.len() {
                lemma_empty_scope_get(Seq::empty(), name);
            }
            assert(spec_get_scope(sv.push(Seq::empty()), t.0, name) == spec_get_scope(sv, t.0, name));
        }
    }
}

/// A scope that binds nothing, and a boundary, on top of a stack change no
/// read.
pub proof fn lemma_local_get_empty_top(sv: ScopesView, s: Seq<Option<EnvTable>>, t: EnvTable, name: Seq<char>)
    requires
        t.0 < sv.len() ==> sv[t.0 as int].len() == 0,
    ensures
        spec_local_get(sv, s.push(Some(t)), name) == spec_local_get(sv, s, name),
        spec_local_get(sv, s.push(None).push(Some(t)), name) == spec_local_get(sv, s, name),
{
    if t.0 < sv.len() {
        lemma_empty_scope_get(sv[t.0 as int], name);
    }
    assert(s.push(Some(t)).drop_last() =~= s);
    assert(s.push(None).push(Some(t)).drop_last() =~= s.push(None));
    assert(s.push(None).drop_last() =~= s);
    assert(spec_local_get(sv, s.push(None), name) == spec_local_get(sv, s, name));
    assert(spec_local_get(sv, s.push(None).push(Some(t)), name) == spec_local_get(sv, s.push(None), name));
}

proof fn lemma_find_binds(sv: ScopesView, s: Seq<Option<EnvTable>>, name: Seq<char>)
    ensures
        spec_local_find(sv, s, name) matches Some(t) ==> spec_get_scope(sv, t.0, name) is Some,
        (spec_local_find(sv, s, name) is Some) == (spec_local_get(sv, s, name) is Some),
    decreases s.len(),
{
    if s.len() > 0 {
        lemma_find_binds(sv, s.drop_last(), name);
    }
}

proof fn lemma_found_then_read(sv: ScopesView, s: Seq<Option<EnvTable>>, name: String, v: LuaValue, t: EnvTable)
    requires
        spec_local_find(sv, s, name@) == Some(t),
    ensures
        spec_local_get(spec_insert_scope(sv, t.0, name, v), s, name@) == Some(v),
    decreases s.len(),
{
    let sv2 = spec_insert_scope(sv, t.0, name, v);
    lemma_find_binds(sv, s, name@);
    if s.len() > 0 {
        match s.last() {
            Some(u) => {
                if spec_get_scope(sv, u.0, name@) is Some {
                    lemma_scope_insert_get(sv[t.0 as int], name, v, name@);
                } else {
                    lemma_find_binds(sv, s.drop_last(), name@);
                    assert(u.0 != t.0);
                    lemma_found_then_read(sv, s.drop_last(), name, v, t);
                }
            },
            None => {
                lemma_found_then_read(sv, s.drop_last(), name, v, t);
            },
        }
    }
}

proof fn lemma_not_found_then_read(sv: ScopesView, s: Seq<Option<EnvTable>>, name: String, v: LuaValue, g: usize)
    requires
        spec_local_find(sv, s, name@) is None,
        g < sv.len(),
    ensures
        ({
            let r = spec_local_get(spec_insert_scope(sv, g, name, v), s, name@);
            r is None || r == Some(v)
        }),
    decreases s.len(),
{
    let sv2 = spec_insert_scope(sv, g, name, v);
    if s.len() > 0 {
        match s.last() {
            Some(u) => {
                lemma_scope_insert_get(sv[g as int], name, v, name@);
                if u.0 != g {
                    lemma_not_found_then_read(sv, s.drop_last(), name, v, g);
                }
            },
            None => {
                lemma_not_found_then_read(sv, s.drop_last(), name, v, g);
            },
        }
    }
}

/// An assignment without `local` is read back: after `name = v`, `name`
/// reads `v`, whether it was bound in a local table or not.
pub proof fn law_assignment_read(
    sv: ScopesView,
    global: EnvTable,
    s: Seq<Option<EnvTable>>,
    name: String,
    v: LuaValue,
)
    requires
        global.0 < sv.len(),
    ensures
        spec_env_get(spec_assign_scopes(sv, global, s, name, v), global, s, name@) == Some(v),
{
    match spec_local_find(sv, s, name@) {
        Some(t) => {
            lemma_found_then_read(sv, s, name, v, t);
        },
        None => {
            lemma_not_found_then_read(sv, s, name, v, global.0);
            lemma_scope_insert_get(sv[global.0 as int], name, v, name@);
        },
    }
}

/// Binding `name` in one scope leaves what the stack reads for every other
/// name as it was.
proof fn lemma_local_get_insert_other(
    sv: ScopesView,
    t: usize,
    name: String,
    v: LuaValue,
    s: Seq<Option<EnvTable>>,
    n: Seq<char>,
)
    requires
        n != name@,
    ensures
        spec_local_get(spec_insert_scope(sv, t, name, v), s, n) == spec_local_get(sv, s, n),
    decreases s.len(),
{
    if s.len() > 0 {
        if t < sv.len() {
            lemma_scope_insert_get(sv[t as int], name, v, n);
        }
        lemma_local_get_insert_other(sv, t, name, v, s.drop_last(), n);
    }
}

/// Binding `name` in one scope leaves what every other name reads as it
/// was.
pub proof fn lemma_insert_scope_other(
    sv: ScopesView,
    t: usize,
    name: String,
    v: LuaValue,
    g: EnvTable,
    s: Seq<Option<EnvTable>>,
    n: Seq<char>,
)
    requires
        n != name@,
    ensures
        spec_env_get(spec_insert_scope(sv, t, name, v), g, s, n) == spec_env_get(sv, g, s, n),
{
    lemma_local_get_insert_other(sv, t, name, v, s, n);
    if t < sv.len() {
        lemma_scope_insert_get(sv[t as int], name, v, n);
    }
}

/// After assigning `v` to `name` (`local` or not, where the table it writes
/// to exists), `name` reads `v` and every other name reads as before.
pub proof fn law_assignment_frame(
    sv: ScopesView,
    global: EnvTable,
    s: Seq<Option<EnvTable>>,
    is_local: bool,
    name: String,
    v: LuaValue,
    x: Seq<char>,
)
    requires
        is_local ==> s.len() > 0 && s.last() is Some && s.last()->Some_0.0 < sv.len(),
        !is_local ==> global.0 < sv.len(),
    ensures
        ({
            let sv2 = if is_local {
                spec_local_assign_scopes(sv, s, name, v)
            } else {
                spec_assign_scopes(sv, global, s, name, v)
            };
            &&& x == name@ ==> spec_env_get(sv2, global, s, x) == Some(v)
            &&& x != name@ ==> spec_env_get(sv2, global, s, x) == spec_env_get(sv, global, s, x)
            &&& sv2.len() == sv.len()
        }),
{
    if is_local {
        law_local_binding_shadows(sv, s, global, name, v);
        if x != name@ {
            lemma_insert_scope_other(sv, s.last()->Some_0.0, name, v, global, s, x);
        }
    } else {
        law_assignment_read(sv, global, s, name, v);
        if x != name@ {
            match spec_local_find(sv, s, name@) {
                Some(t) => lemma_insert_scope_other(sv, t.0, name, v, global, s, x),
                None => lemma_insert_scope_other(sv, global.0, name, v, global, s, x),
            }
        }
    }
}

/// Whether a name has a local binding decides where an assignment goes.
pub proof fn lemma_local_get_find(sv: ScopesView, s: Seq<Option<EnvTable>>, name: Seq<char>)
    ensures
        (spec_local_find(sv, s, name) is Some) == (spec_local_get(sv, s, name) is Some),
{
    lemma_find_binds(sv, s, name);
}


/// `new` is `old` with more tables of the innermost scope on top, and no
/// new scope.
pub open spec fn spec_same_scope(old: Seq<Option<EnvTable>>, new: Seq<Option<EnvTable>>) -> bool {
    &&& old.len() <= new.len()
    &&& new.subrange(0, old.len() as int) == old
    &&& forall|i: int| old.len() <= i < new.len() ==> (#[trigger] new[i]) is Some
}

/// `new` is `old` with one more scope on top (which may hold several
/// tables).
pub open spec fn spec_opened_scope(old: Seq<Option<EnvTable>>, new: Seq<Option<EnvTable>>) -> bool {
    &&& old.len() < new.len()
    &&& new.subrange(0, old.len() as int) == old
    &&& new[old.len() as int] is None
    &&& forall|i: int| old.len() < i < new.len() ==> (#[trigger] new[i]) is Some
}

/// Closing the scope that was opened gives back the stack from before.
pub proof fn lemma_pop_opened(old: Seq<Option<EnvTable>>, new: Seq<Option<EnvTable>>)
    requires
        spec_opened_scope(old, new),
    ensures
        spec_pop(new) == old,
    decreases new.len(),
{
    let d = new.drop_last();
    if new.last() is None {
        assert(new.len() - 1 == old.len()) by {
            if new.len() - 1 > old.len() {
                assert(new[new.len() - 1] is Some);
            }
        }
        assert(d =~= new.subrange(0, old.len() as int));
    } else {
        assert(new.len() - 1 > old.len());
        assert(d.subrange(0, old.len() as int) =~= new.subrange(0, old.len() as int));
        assert forall|i: int| old.len() < i < d.len() implies (#[trigger] d[i]) is Some by {
            assert(d[i] == new[i]);
        }
        lemma_pop_opened(old, d);
    }
}

/// A scope opened on `old`, then more tables of that scope.
pub proof fn lemma_opened_then_same(
    old: Seq<Option<EnvTable>>,
    mid: Seq<Option<EnvTable>>,
    new: Seq<Option<EnvTable>>,
)
    requires
        spec_opened_scope(old, mid),
        spec_same_scope(mid, new),
    ensures
        spec_opened_scope(old, new),
{
    assert(new.subrange(0, old.len() as int) =~= mid.subrange(0, old.len() as int)) by {
        assert forall|i: int| 0 <= i < old.len() implies new[i] == mid[i] by {
            assert(new.subrange(0, mid.len() as int)[i] == new[i]);
        }
    }
    assert(new[old.len() as int] == mid[old.len() as int]) by {
        assert(new.subrange(0, mid.len() as int)[old.len() as int] == new[old.len() as int]);
    }
    assert forall|i: int| old.len() < i < new.len() implies (#[trigger] new[i]) is Some by {
        if i < mid.len() {
            assert(new.subrange(0, mid.len() as int)[i] == new[i]);
            assert(mid[i] is Some);
        }
    }
}

/// A stack is the same scope as itself.
pub proof fn lemma_same_scope_refl(a: Seq<Option<EnvTable>>)
    ensures
        spec_same_scope(a, a),
{
    assert(a.subrange(0, a.len() as int) =~= a);
}


/// Opening a scope: a marker and a fresh table.
pub proof fn lemma_open_scope(old: Seq<Option<EnvTable>>, t: EnvTable)
    ensures
        spec_opened_scope(old, old.push(None).push(Some(t))),
{
    let new = old.push(None).push(Some(t));
    assert(new.subrange(0, old.len() as int) =~= old);
}

/// More tables of the current scope on top of more tables of it are still
/// tables of the same scope.
pub proof fn lemma_same_scope_trans(
    a: Seq<Option<EnvTable>>,
    b: Seq<Option<EnvTable>>,
    c: Seq<Option<EnvTable>>,
)
    requires
        spec_same_scope(a, b),
        spec_same_scope(b, c),
    ensures
        spec_same_scope(a, c),
{
    assert forall|i: int| 0 <= i < a.len() implies c[i] == a[i] by {
        assert(c.subrange(0, b.len() as int)[i] == c[i]);
        assert(b.subrange(0, a.len() as int)[i] == b[i]);
    }
    assert(c.subrange(0, a.len() as int) =~= a);
    assert forall|i: int| a.len() <= i < c.len() implies (#[trigger] c[i]) is Some by {
        if i < b.len() {
            assert(c.subrange(0, b.len() as int)[i] == c[i]);
            assert(b[i] is Some);
        }
    }
}

/// Adding a table to the current scope.
pub proof fn lemma_push_table(old: Seq<Option<EnvTable>>, t: EnvTable)
    ensures
        spec_same_scope(old, old.push(Some(t))),
{
    let new = old.push(Some(t));
    assert(new.subrange(0, old.len() as int) =~= old);
}

/// Both environments have the same global table and the same stack.
pub open spec fn spec_env_same(e0: Env, e1: Env) -> bool {
    e1.global == e0.global && e1.local.0@ == e0.local.0@
}

/// The second environment has the same global table, and the stack of the
/// first with more tables of the current scope.
pub open spec fn spec_env_same_scope(e0: Env, e1: Env) -> bool {
    e1.global == e0.global && spec_same_scope(e0.local.0@, e1.local.0@)
}

/// The second environment has the same global table, and the stack of the
/// first with one more scope.
pub open spec fn spec_env_opened(e0: Env, e1: Env) -> bool {
    e1.global == e0.global && spec_opened_scope(e0.local.0@, e1.local.0@)
}


/// The entry of the stack is a table that binds `name`.
pub open spec fn spec_binds(sv: ScopesView, e: Option<EnvTable>, name: Seq<char>) -> bool {
    e matches Some(t) && spec_get_scope(sv, t.0, name) is Some
}

/// At most one table of the stack binds `name` (the same table may stand
/// in the stack more than once).
pub open spec fn spec_bound_once(sv: ScopesView, s: Seq<Option<EnvTable>>, name: Seq<char>) -> bool {
    forall|i: int, j: int|
        0 <= i < s.len() && 0 <= j < s.len() && spec_binds(sv, s[i], name) && spec_binds(
            sv,
            s[j],
            name,
        ) ==> #[trigger] s[i] == #[trigger] s[j]
}

proof fn lemma_read_the_binder(sv: ScopesView, s: Seq<Option<EnvTable>>, name: Seq<char>, i: int)
    requires
        0 <= i < s.len(),
        spec_binds(sv, s[i], name),
        spec_bound_once(sv, s, name),
    ensures
        spec_local_get(sv, s, name) == spec_get_scope(sv, s[i]->Some_0.0, name),
    decreases s.len(),
{
    let last = s.len() - 1;
    if spec_binds(sv, s[last], name) {
        assert(s[i] == s[last]);
    } else {
        let d = s.drop_last();
        assert(i < last);
        assert(d[i] == s[i]);
        assert forall|a: int, b: int|
            0 <= a < d.len() && 0 <= b < d.len() && spec_binds(sv, d[a], name) && spec_binds(
                sv,
                d[b],
                name,
            ) implies #[trigger] d[a] == #[trigger] d[b] by {
            assert(d[a] == s[a] && d[b] == s[b]);
        }
        lemma_read_the_binder(sv, d, name, i);
    }
}

proof fn lemma_no_binder(sv: ScopesView, s: Seq<Option<EnvTable>>, name: Seq<char>)
    requires
        forall|i: int| 0 <= i < s.len() ==> !spec_binds(sv, #[trigger] s[i], name),
    ensures
        spec_local_get(sv, s, name) is None,
    decreases s.len(),
{
    if s.len() > 0 {
        let d = s.drop_last();
        assert(!spec_binds(sv, s[s.len() - 1], name));
        assert forall|i: int| 0 <= i < d.len() implies !spec_binds(sv, #[trigger] d[i], name) by {
            assert(d[i] == s[i]);
        }
        lemma_no_binder(sv, d, name);
    }
}

/// A closure reads a captured variable as the scopes read it when it was
/// made, provided a single table of those scopes binds the name. (The
/// captured stack is searched from the outermost table, so where two tables
/// bind the same name the closure sees the outer one.)
pub proof fn law_capture_reads_captured(sv: ScopesView, s: Seq<Option<EnvTable>>, name: Seq<char>)
    requires
        spec_stack_in_heap(s, sv.len()),
        spec_bound_once(sv, s, name),
        sv.len() < usize::MAX,
    ensures
        spec_local_get(sv.push(Seq::empty()), spec_capture(s, sv.len() as usize), name)
            == spec_local_get(sv, s, name),
{
    let sv2 = sv.push(Seq::empty());
    let cap = spec_capture(s, sv.len() as usize);
    assert forall|k: int| 0 <= k < cap.len() implies spec_binds(sv2, #[trigger] cap[k], name)
        == (k >= 2 && spec_binds(sv, s[s.len() - 1 - (k - 2)], name)) by {
        if k >= 2 {
            assert(cap[k] == s.reverse()[k - 2]);
            let j = s.len() - 1 - (k - 2);
            assert(s.reverse()[k - 2] == s[j]);
            if s[j] is Some {
                assert(s[j]->Some_0.0 < sv.len());
            }
        } else if k == 1 {
            assert(sv2[sv.len() as int] == Seq::<(String, LuaValue)>::empty());
        }
    }
    if exists|i: int| 0 <= i < s.len() && spec_binds(sv, s[i], name) {
        let i = choose|i: int| 0 <= i < s.len() && spec_binds(sv, s[i], name);
        lemma_read_the_binder(sv, s, name, i);
        let k = 2 + (s.len() - 1 - i);
        assert(cap[k] == s[i]) by {
            assert(cap[k] == s.reverse()[k - 2]);
        }
        assert(spec_binds(sv2, cap[k], name));
        assert forall|a: int, b: int|
            0 <= a < cap.len() && 0 <= b < cap.len() && spec_binds(sv2, cap[a], name) && spec_binds(
                sv2,
                cap[b],
                name,
            ) implies #[trigger] cap[a] == #[trigger] cap[b] by {
            let ja = s.len() - 1 - (a - 2);
            let jb = s.len() - 1 - (b - 2);
            assert(cap[a] == s.reverse()[a - 2] && s.reverse()[a - 2] == s[ja]);
            assert(cap[b] == s.reverse()[b - 2] && s.reverse()[b - 2] == s[jb]);
        }
        lemma_read_the_binder(sv2, cap, name, k);
    } else {
        lemma_no_binder(sv, s, name);
        assert forall|k: int| 0 <= k < cap.len() implies !spec_binds(sv2, #[trigger] cap[k], name) by {
            if k >= 2 {
                let j = s.len() - 1 - (k - 2);
                assert(!spec_binds(sv, s[j], name));
            }
        }
        lemma_no_binder(sv2, cap, name);
    }
}

} // verus!
