//! Lexical environments: an arena of scopes, each with a table of bindings
//! and a link to the scope that encloses it.
//!
//! A scope is named by its index in the arena. A closure keeps the index of
//! the scope it was made in, so every call of the closure sees, and may
//! change, the same bindings. The scope made for a call is discarded when
//! the call ends, unless a closure may have captured it.

use crate::identity::{env_known, known, law_global_known, lemma_bind_known};
use crate::object::{same_text, share, Native, Object, ObjectKind, Value};
use std::rc::Rc;
use vstd::prelude::*;

verus! {

/// One name and the value bound to it.
struct Binding {
    name: String,
    value: Object,
}

/// One scope: its bindings, the scope that encloses it, if any, and the
/// count of closures at the time it was made.
struct Scope {
    parent: Option<usize>,
    born: Ghost<nat>,
    bindings: Vec<Binding>,
}

/// All scopes of one session, the scope that is current, and the number of
/// closures made so far.
pub struct Env {
    scopes: Vec<Scope>,
    current: usize,
    closures: usize,
}

/// The mathematical model of a scope. `born` is the count of closures at
/// the time the scope was made: a closure that captured the scope has an
/// identity that is no less.
pub struct ScopeView {
    pub parent: Option<nat>,
    pub born: nat,
    pub table: Map<Seq<char>, Value>,
}

/// The mathematical model of an environment.
pub struct EnvView {
    pub scopes: Seq<ScopeView>,
    pub current: nat,
    pub closures: nat,
}

impl EnvView {
    /// The current scope exists, and every scope's parent is an earlier scope.
    pub open spec fn wf(self) -> bool {
        &&& self.current < self.scopes.len()
        &&& forall|i: int|
            0 <= i < self.scopes.len() ==> match (#[trigger] self.scopes[i]).parent {
                Some(p) => p < i,
                None => true,
            }
    }

    /// One empty scope without a parent, which is current.
    pub open spec fn empty() -> EnvView {
        EnvView {
            scopes: seq![ScopeView { parent: None, born: 0, table: Map::empty() }],
            current: 0,
            closures: 0,
        }
    }

    /// The nearest scope that binds `name`, going outward from `scope`.
    pub open spec fn holder(self, scope: nat, name: Seq<char>) -> Option<nat>
        decreases scope,
    {
        if scope >= self.scopes.len() {
            None
        } else if self.scopes[scope as int].table.dom().contains(name) {
            Some(scope)
        } else {
            match self.scopes[scope as int].parent {
                Some(p) => if p < scope {
                    self.holder(p, name)
                } else {
                    None
                },
                None => None,
            }
        }
    }

    /// This environment with `name` bound to `value` in the scope `scope`.
    pub open spec fn bind_in(self, scope: nat, name: Seq<char>, value: Value) -> EnvView {
        EnvView {
            scopes: self.scopes.update(
                scope as int,
                ScopeView {
                    parent: self.scopes[scope as int].parent,
                    born: self.scopes[scope as int].born,
                    table: self.scopes[scope as int].table.insert(name, value),
                },
            ),
            current: self.current,
            closures: self.closures,
        }
    }

    /// The value of `name`: that of the nearest enclosing scope that binds it.
    pub open spec fn get(self, name: Seq<char>) -> Option<Value> {
        match self.holder(self.current, name) {
            Some(s) => Some(self.scopes[s as int].table[name]),
            None => None,
        }
    }

    /// Binds `name` in the current scope, whether or not it was bound there.
    pub open spec fn insert(self, name: Seq<char>, value: Value) -> EnvView {
        self.bind_in(self.current, name, value)
    }

    /// Rebinds `name` in the nearest enclosing scope that binds it; `None`
    /// where no scope does.
    pub open spec fn set(self, name: Seq<char>, value: Value) -> Option<EnvView> {
        match self.holder(self.current, name) {
            Some(s) => Some(self.bind_in(s, name, value)),
            None => None,
        }
    }

    /// This environment with one more scope, empty, enclosed by `parent`.
    /// A `parent` that names no scope leaves the new scope without one.
    pub open spec fn child_scope(self, parent: nat) -> EnvView {
        EnvView {
            scopes: self.scopes.push(
                ScopeView {
                    parent: if parent < self.scopes.len() {
                        Some(parent)
                    } else {
                        None
                    },
                    born: self.closures,
                    table: Map::empty(),
                },
            ),
            current: self.current,
            closures: self.closures,
        }
    }

    /// This environment with `scope` current, where that scope exists.
    pub open spec fn switch_to(self, scope: nat) -> EnvView {
        if scope < self.scopes.len() {
            EnvView { scopes: self.scopes, current: scope, closures: self.closures }
        } else {
            self
        }
    }

    /// This environment without the scope `scope`, where nothing can refer
    /// to that scope any more: it is the newest scope, it is not current,
    /// and no closure was made since the count of closures was `made`.
    /// Otherwise the environment as it is.
    pub open spec fn release(self, scope: nat, made: nat) -> EnvView {
        if self.scopes.len() == scope + 1 && self.current < scope && self.closures == made && made
            < usize::MAX {
            EnvView {
                scopes: self.scopes.drop_last(),
                current: self.current,
                closures: self.closures,
            }
        } else {
            self
        }
    }

    /// This environment after one more closure was made. The count stops at
    /// the largest `usize`.
    pub open spec fn count_closure(self) -> EnvView {
        EnvView {
            scopes: self.scopes,
            current: self.current,
            closures: if self.closures < usize::MAX {
                self.closures + 1
            } else {
                self.closures
            },
        }
    }

    /// This environment with the six native procedures bound in the current
    /// scope.
    pub open spec fn with_natives(self) -> EnvView {
        self.insert("+"@, Value::Func(Native::Plus)).insert(
            "atom?"@,
            Value::Func(Native::IsAtom),
        ).insert("cons"@, Value::Func(Native::Cons)).insert("car"@, Value::Func(Native::Car)).insert(
            "cdr"@,
            Value::Func(Native::Cdr),
        ).insert("equal"@, Value::Func(Native::Equal))
    }
}

/// The table that a sequence of bindings stands for. Where a name occurs
/// twice, the later binding counts.
spec fn table_of(bs: Seq<Binding>) -> Map<Seq<char>, Value>
    decreases bs.len(),
{
    if bs.len() == 0 {
        Map::empty()
    } else {
        table_of(bs.drop_last()).insert(bs.last().name@, bs.last().value@)
    }
}

spec fn scope_view(s: Scope) -> ScopeView {
    ScopeView {
        parent: match s.parent {
            Some(p) => Some(p as nat),
            None => None,
        },
        born: s.born@,
        table: table_of(s.bindings@),
    }
}

/// `j` is the last place in `bs` where `name` is bound.
spec fn last_at(bs: Seq<Binding>, name: Seq<char>, j: int) -> bool {
    &&& 0 <= j < bs.len()
    &&& bs[j].name@ == name
    &&& forall|k: int| j < k < bs.len() ==> (#[trigger] bs[k]).name@ != name
}

/// `name` is bound nowhere in `bs`.
spec fn absent(bs: Seq<Binding>, name: Seq<char>) -> bool {
    forall|k: int| 0 <= k < bs.len() ==> (#[trigger] bs[k]).name@ != name
}

proof fn lemma_table_absent(bs: Seq<Binding>, name: Seq<char>)
    requires
        absent(bs, name),
    ensures
        !table_of(bs).dom().contains(name),
    decreases bs.len(),
{
    if bs.len() > 0 {
        assert(bs.last() == bs[bs.len() - 1]);
        assert forall|k: int| 0 <= k < bs.drop_last().len() implies (#[trigger] bs.drop_last()[k]).name@
            != name by {
            assert(bs.drop_last()[k] == bs[k]);
        }
        lemma_table_absent(bs.drop_last(), name);
    }
}

proof fn lemma_table_last(bs: Seq<Binding>, name: Seq<char>, j: int)
    requires
        last_at(bs, name, j),
    ensures
        table_of(bs).dom().contains(name),
        table_of(bs)[name] == bs[j].value@,
    decreases bs.len(),
{
    assert(bs.last() == bs[bs.len() - 1]);
    if j < bs.len() - 1 {
        assert(bs.drop_last()[j] == bs[j]);
        assert forall|k: int| j < k < bs.drop_last().len() implies (#[trigger] bs.drop_last()[k]).name@
            != name by {
            assert(bs.drop_last()[k] == bs[k]);
        }
        lemma_table_last(bs.drop_last(), name, j);
    }
}

proof fn lemma_table_update(bs: Seq<Binding>, j: int, b: Binding)
    requires
        last_at(bs, b.name@, j),
    ensures
        table_of(bs.update(j, b)) == table_of(bs).insert(b.name@, b.value@),
    decreases bs.len(),
{
    let after = bs.update(j, b);
    assert(bs.last() == bs[bs.len() - 1]);
    assert(after.last() == after[after.len() - 1]);
    if j == bs.len() - 1 {
        assert(after.drop_last() =~= bs.drop_last());
        assert(table_of(after) =~= table_of(bs).insert(b.name@, b.value@));
    } else {
        assert(bs.drop_last()[j] == bs[j]);
        assert forall|k: int| j < k < bs.drop_last().len() implies (#[trigger] bs.drop_last()[k]).name@
            != b.name@ by {
            assert(bs.drop_last()[k] == bs[k]);
        }
        lemma_table_update(bs.drop_last(), j, b);
        assert(after.drop_last() =~= bs.drop_last().update(j, b));
        assert(after.last() == bs.last());
        assert(table_of(after) =~= table_of(bs).insert(b.name@, b.value@));
    }
}

proof fn lemma_table_push(bs: Seq<Binding>, b: Binding)
    ensures
        table_of(bs.push(b)) == table_of(bs).insert(b.name@, b.value@),
{
    assert(bs.push(b).drop_last() =~= bs);
}

/// The last place in `bs` where `name` is bound, if there is one.
fn find(bs: &Vec<Binding>, name: &str) -> (r: Option<usize>)
    ensures
        match r {
            Some(j) => last_at(bs@, name@, j as int),
            None => absent(bs@, name@),
        },
{
    let mut i: usize = bs.len();
    while i > 0
        invariant
            i <= bs.len(),
            forall|k: int| i <= k < bs.len() ==> (#[trigger] bs@[k]).name@ != name@,
        decreases i,
    {
        i = i - 1;
        if same_text(bs[i].name.as_str(), name) {
            return Some(i);
        }
    }
    None
}

impl View for Env {
    type V = EnvView;

    closed spec fn view(&self) -> EnvView {
        EnvView {
            scopes: Seq::new(self.scopes@.len(), |i: int| scope_view(self.scopes@[i])),
            current: self.current as nat,
            closures: self.closures as nat,
        }
    }
}

impl Env {
    /// The environment is well formed: see `EnvView::wf`.
    pub open spec fn wf(&self) -> bool {
        self@.wf()
    }

    /// An environment of one empty scope.
    pub fn new() -> (r: Env)
        ensures
            r@ == EnvView::empty(),
            r.wf(),
            env_known(r@),
    {
        let mut scopes: Vec<Scope> = Vec::new();
        scopes.push(Scope { parent: None, born: Ghost(0), bindings: Vec::new() });
        let r = Env { scopes, current: 0, closures: 0 };
        assert(r@.scopes =~= EnvView::empty().scopes);
        r
    }

    /// A new environment whose one scope binds the native procedures.
    pub fn global_env() -> (r: Env)
        ensures
            r@ == EnvView::empty().with_natives(),
            r.wf(),
            env_known(r@),
    {
        proof {
            law_global_known();
        }
        let mut env = Env::new();
        env.init();
        env
    }

    /// Binds the six native procedures in the current scope.
    pub fn init(&mut self)
        requires
            old(self).wf(),
        ensures
            final(self)@ == old(self)@.with_natives(),
            final(self).wf(),
    {
        self.insert("+", Rc::new(ObjectKind::Func(Native::Plus)));
        self.insert("atom?", Rc::new(ObjectKind::Func(Native::IsAtom)));
        self.insert("cons", Rc::new(ObjectKind::Func(Native::Cons)));
        self.insert("car", Rc::new(ObjectKind::Func(Native::Car)));
        self.insert("cdr", Rc::new(ObjectKind::Func(Native::Cdr)));
        self.insert("equal", Rc::new(ObjectKind::Func(Native::Equal)));
    }

    /// Stores `value` under `name` in the bindings of the scope `scope`.
    fn bind_in(&mut self, scope: usize, name: &str, value: Object)
        requires
            old(self).wf(),
            scope < old(self)@.scopes.len(),
        ensures
            final(self)@ == old(self)@.bind_in(scope as nat, name@, value@),
            final(self).wf(),
    {
        let b = Binding { name: name.to_owned(), value };
        let ghost before = self.scopes@[scope as int].bindings@;
        match find(&self.scopes[scope].bindings, name) {
            Some(j) => {
                proof {
                    lemma_table_update(before, j as int, b);
                }
                self.scopes[scope].bindings[j] = b;
            },
            None => {
                proof {
                    lemma_table_push(before, b);
                }
                self.scopes[scope].bindings.push(b);
            },
        }
        assert(self@.scopes =~= old(self)@.bind_in(scope as nat, name@, value@).scopes);
    }

    /// Binds `name` to `value` in the current scope, whether or not the
    /// scope bound it before. An environment that held all its closures
    /// holds them still, where it holds those of `value`.
    pub fn insert(&mut self, name: &str, value: Object)
        requires
            old(self).wf(),
        ensures
            final(self)@ == old(self)@.insert(name@, value@),
            final(self).wf(),
            env_known(old(self)@) && known(value@, old(self)@) ==> env_known(final(self)@),
    {
        proof {
            if env_known(self@) && known(value@, self@) {
                lemma_bind_known(self@, self@.current, name@, value@);
            }
        }
        let cur = self.current;
        self.bind_in(cur, name, value);
    }

    /// The nearest scope that binds `name`, going outward from the current
    /// scope, and the place of the binding in it.
    fn holder(&self, name: &str) -> (r: Option<(usize, usize)>)
        requires
            self.wf(),
        ensures
            match r {
                Some((s, j)) => self@.holder(self@.current, name@) == Some(s as nat) && s
                    < self.scopes@.len() && last_at(self.scopes@[s as int].bindings@, name@, j as int),
                None => self@.holder(self@.current, name@) is None,
            },
    {
        let mut scope = self.current;
        loop
            invariant
                self.wf(),
                scope < self.scopes@.len(),
                self@.holder(scope as nat, name@) == self@.holder(self@.current, name@),
            decreases scope,
        {
            let ghost bs = self.scopes@[scope as int].bindings@;
            assert(self@.scopes[scope as int] == scope_view(self.scopes@[scope as int]));
            match find(&self.scopes[scope].bindings, name) {
                Some(j) => {
                    proof {
                        lemma_table_last(bs, name@, j as int);
                    }
                    return Some((scope, j));
                },
                None => {
                    proof {
                        lemma_table_absent(bs, name@);
                    }
                    match self.scopes[scope].parent {
                        Some(p) => {
                            scope = p;
                        },
                        None => {
                            return None;
                        },
                    }
                },
            }
        }
    }

    /// Rebinds `name` to `value` in the nearest enclosing scope that binds
    /// it, and says whether there was one.
    pub fn set(&mut self, name: &str, value: Object) -> (r: bool)
        requires
            old(self).wf(),
        ensures
            match old(self)@.set(name@, value@) {
                Some(e) => r && final(self)@ == e,
                None => !r && final(self)@ == old(self)@,
            },
            final(self).wf(),
    {
        match self.holder(name) {
            Some((s, _)) => {
                self.bind_in(s, name, value);
                true
            },
            None => false,
        }
    }

    /// The value bound to `name` in the nearest enclosing scope that binds it.
    pub fn get(&self, name: &str) -> (r: Option<Object>)
        requires
            self.wf(),
        ensures
            match self@.get(name@) {
                Some(v) => r is Some && r->0@ == v,
                None => r is None,
            },
    {
        match self.holder(name) {
            Some((s, j)) => {
                proof {
                    assert(self@.scopes[s as int] == scope_view(self.scopes@[s as int]));
                    lemma_table_last(self.scopes@[s as int].bindings@, name@, j as int);
                }
                Some(share(&self.scopes[s].bindings[j].value))
            },
            None => None,
        }
    }

    /// The scope that is current.
    pub fn current(&self) -> (r: usize)
        requires
            self.wf(),
        ensures
            r == self@.current,
            r < self@.scopes.len(),
    {
        self.current
    }

    /// Adds an empty scope enclosed by `parent` and returns its index. A
    /// `parent` that names no scope leaves the new scope without one.
    pub fn child_scope(&mut self, parent: usize) -> (r: usize)
        requires
            old(self).wf(),
        ensures
            final(self)@ == old(self)@.child_scope(parent as nat),
            r == old(self)@.scopes.len(),
            final(self).wf(),
    {
        let n = self.scopes.len();
        let p = if parent < n {
            Some(parent)
        } else {
            None
        };
        let ghost made = self.closures as nat;
        self.scopes.push(Scope { parent: p, born: Ghost(made), bindings: Vec::new() });
        assert(self@.scopes =~= old(self)@.child_scope(parent as nat).scopes);
        n
    }

    /// Makes `scope` current, where that scope exists.
    pub fn switch_to(&mut self, scope: usize)
        requires
            old(self).wf(),
        ensures
            final(self)@ == old(self)@.switch_to(scope as nat),
            final(self).wf(),
    {
        if scope < self.scopes.len() {
            self.current = scope;
        }
    }

    /// Discards the scope `scope` where nothing can refer to it any more:
    /// it is the newest scope, it is not current, and no closure was made
    /// since the count of closures was `made`.
    pub(crate) fn release(&mut self, scope: usize, made: usize)
        requires
            old(self).wf(),
        ensures
            final(self)@ == old(self)@.release(scope as nat, made as nat),
            final(self).wf(),
    {
        let n = self.scopes.len();
        if scope < n && n - 1 == scope && self.current < scope && self.closures == made && made
            < usize::MAX {
            self.scopes.pop();
            assert(self@.scopes =~= old(self)@.scopes.drop_last());
        }
    }

    /// The number of scopes.
    pub fn scope_count(&self) -> (r: usize)
        ensures
            r == self@.scopes.len(),
    {
        self.scopes.len()
    }

    /// The number of closures made so far.
    pub fn closures(&self) -> (r: usize)
        ensures
            r == self@.closures,
    {
        self.closures
    }

    /// The serial number for the next closure. Numbers are given out in
    /// order; once the largest `usize` was given out, it is given out again.
    pub fn next_closure(&mut self) -> (r: usize)
        requires
            old(self).wf(),
        ensures
            r == old(self)@.closures,
            final(self)@ == old(self)@.count_closure(),
            final(self).wf(),
    {
        let id = self.closures;
        if id < usize::MAX {
            self.closures = id + 1;
        }
        id
    }
}

} // verus!
