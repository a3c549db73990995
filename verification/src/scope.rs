//! The scope tree.
//!
//! A scope is a node in two distinct trees: the lexical-parent tree used for
//! variable name resolution, and the dynamic calling-scope tree used to
//! propagate break/continue control signals. Scopes are shared: a closure's
//! child scope is reachable both from the closure and from every caller
//! walking the dynamic chain. Nodes therefore live in a `ScopeTree` arena and
//! are addressed by copyable `Scope` handles; both parent edges point at
//! earlier slots, so both chains are acyclic by construction.

use vstd::prelude::*;
use crate::errors::{CrushError, CrushResult};
use crate::value::{str_eq, Value, ValueType};

verus! {

/// A handle to one scope node in a `ScopeTree`.
#[derive(Clone, Copy, Debug)]
pub struct Scope {
    pub id: usize,
}

/// One scope node: local bindings, the two parent edges, imported scopes and
/// the loop/stopped/readonly flags.
pub struct ScopeData {
    /// The parent scope used to perform variable name resolution. If a
    /// variable lookup fails in the current scope, it proceeds to this scope.
    pub parent_scope: Option<Scope>,
    /// The scope in which the current scope was called. Since a closure can
    /// be called from inside any scope, it need not be the same as the parent
    /// scope. This is the chain used for break/continue loop control.
    pub calling_scope: Option<Scope>,
    /// Scopes imported into this scope: anything directly inside one of them
    /// is also considered part of this scope.
    pub uses: Vec<Scope>,
    /// The local bindings of this scope, keyed by distinct names.
    pub data: Vec<(String, Value)>,
    /// True if this scope is a loop frame.
    pub is_loop: bool,
    /// True if this scope should stop execution, i.e. if a break or continue
    /// signal has taken effect here.
    pub is_stopped: bool,
    /// True if every mutation of this scope is to be rejected.
    pub is_readonly: bool,
}

/// The state of one scope node, as contracts speak of it.
#[verifier::ext_equal]
pub struct ScopeModel {
    pub parent: Option<int>,
    pub caller: Option<int>,
    pub uses: Seq<int>,
    pub bindings: Seq<(Seq<char>, Value)>,
    pub is_loop: bool,
    pub is_stopped: bool,
    pub is_readonly: bool,
}

impl ScopeModel {
    /// The same node with its stopped flag raised.
    pub open spec fn stopped(self) -> ScopeModel {
        ScopeModel { is_stopped: true, ..self }
    }
}

impl View for ScopeData {
    type V = ScopeModel;

    open spec fn view(&self) -> ScopeModel {
        ScopeModel {
            parent: match self.parent_scope {
                Some(p) => Some(p.id as int),
                None => None,
            },
            caller: match self.calling_scope {
                Some(c) => Some(c.id as int),
                None => None,
            },
            uses: self.uses@.map_values(|s: Scope| s.id as int),
            bindings: self.data@.map_values(|b: (String, Value)| (b.0@, b.1)),
            is_loop: self.is_loop,
            is_stopped: self.is_stopped,
            is_readonly: self.is_readonly,
        }
    }
}

/// Position of the first entry named `k`, or -1 when no entry is.
pub open spec fn first_match<V>(bs: Seq<(Seq<char>, V)>, k: Seq<char>) -> int
    decreases bs.len(),
{
    if bs.len() == 0 {
        -1
    } else if bs[0].0 == k {
        0
    } else {
        let r = first_match(bs.drop_first(), k);
        if r == -1 {
            -1
        } else {
            r + 1
        }
    }
}

/// Whether some entry is named `k`.
pub open spec fn has_binding<V>(bs: Seq<(Seq<char>, V)>, k: Seq<char>) -> bool {
    first_match(bs, k) >= 0
}

/// The value bound to `k`, if any.
pub open spec fn lookup<V>(bs: Seq<(Seq<char>, V)>, k: Seq<char>) -> Option<V> {
    if has_binding(bs, k) {
        Some(bs[first_match(bs, k)].1)
    } else {
        None
    }
}

/// `first_match` indeed names the first position bound to `k`.
pub proof fn lemma_first_match<V>(bs: Seq<(Seq<char>, V)>, k: Seq<char>)
    ensures
        -1 <= first_match(bs, k) < bs.len(),
        first_match(bs, k) == -1 <==> (forall|i: int| 0 <= i < bs.len() ==> bs[i].0 != k),
        first_match(bs, k) >= 0 ==> {
            &&& first_match(bs, k) < bs.len()
            &&& bs[first_match(bs, k)].0 == k
            &&& forall|i: int| 0 <= i < first_match(bs, k) ==> bs[i].0 != k
        },
    decreases bs.len(),
{
    if bs.len() == 0 {
    } else if bs[0].0 == k {
    } else {
        let sub = bs.drop_first();
        lemma_first_match(sub, k);
        let r = first_match(sub, k);
        assert(sub.len() == bs.len() - 1);
        assert(forall|i: int| 1 <= i < bs.len() ==> bs[i] == sub[i - 1]);
        assert(first_match(bs, k) == if r == -1 { -1int } else { r + 1 });
        if r == -1 {
            assert forall|i: int| 0 <= i < bs.len() implies bs[i].0 != k by {
                if i >= 1 {
                    assert(sub[i - 1].0 != k);
                }
            }
        } else {
            assert(0 <= r < sub.len());
            assert(sub[r].0 == k);
            assert(bs[r + 1] == sub[r]);
            assert forall|i: int| 0 <= i < r + 1 implies bs[i].0 != k by {
                if i >= 1 {
                    assert(sub[i - 1].0 != k);
                }
            }
        }
    }
}

/// The nearest scope on the lexical parent chain of `s` that declares `k`.
pub open spec fn resolve(t: Seq<ScopeModel>, s: int, k: Seq<char>) -> Option<int>
    decreases s,
{
    if s < 0 || s >= t.len() {
        None
    } else if has_binding(t[s].bindings, k) {
        Some(s)
    } else {
        match t[s].parent {
            None => None,
            Some(p) => if 0 <= p < s {
                resolve(t, p, k)
            } else {
                None
            },
        }
    }
}

/// The loop frame on the dynamic caller chain of `s` that would absorb a
/// break or continue signal issued at `s`, if the signal takes effect at all.
/// A readonly frame on the way blocks the signal.
pub open spec fn signal_target(t: Seq<ScopeModel>, s: int) -> Option<int>
    decreases s,
{
    if s < 0 || s >= t.len() {
        None
    } else if t[s].is_readonly {
        None
    } else if t[s].is_loop {
        Some(s)
    } else {
        match t[s].caller {
            None => None,
            Some(c) => if 0 <= c < s {
                signal_target(t, c)
            } else {
                None
            },
        }
    }
}

/// Whether frame `i` is marked stopped by a successful break issued at `s`:
/// every frame from the origin up to and including the absorbing loop frame.
pub open spec fn break_marks(t: Seq<ScopeModel>, s: int, i: int) -> bool
    decreases s,
{
    if s < 0 || s >= t.len() {
        false
    } else if i == s {
        true
    } else if t[s].is_loop {
        false
    } else {
        match t[s].caller {
            None => false,
            Some(c) => if 0 <= c < s {
                break_marks(t, c, i)
            } else {
                false
            },
        }
    }
}

/// Whether frame `i` is marked stopped by a successful continue issued at
/// `s`: every frame from the origin up to but excluding the absorbing loop.
pub open spec fn continue_marks(t: Seq<ScopeModel>, s: int, i: int) -> bool
    decreases s,
{
    if s < 0 || s >= t.len() {
        false
    } else if t[s].is_loop {
        false
    } else if i == s {
        true
    } else {
        match t[s].caller {
            None => false,
            Some(c) => if 0 <= c < s {
                continue_marks(t, c, i)
            } else {
                false
            },
        }
    }
}

/// The arena of scope nodes.
pub struct ScopeTree {
    nodes: Vec<ScopeData>,
}

impl View for ScopeTree {
    type V = Seq<ScopeModel>;

    closed spec fn view(&self) -> Seq<ScopeModel> {
        self.nodes@.map_values(|n: ScopeData| n@)
    }
}

impl ScopeTree {
    /// Every edge of every node addresses an earlier slot (parents, callers)
    /// or at least an existing one (imports), and local names are distinct.
    pub open spec fn wf(self) -> bool {
        forall|i: int| 0 <= i < self@.len() ==> #[trigger] node_wf(self@, i)
    }

    /// A handle is valid when it addresses an existing node.
    pub open spec fn valid(self, s: int) -> bool {
        0 <= s < self@.len()
    }

    /// An empty scope tree.
    pub fn new() -> (t: ScopeTree)
        ensures
            t@ =~= Seq::<ScopeModel>::empty(),
            t.wf(),
    {
        ScopeTree { nodes: Vec::new() }
    }

    /// The number of nodes in the tree.
    pub fn len(&self) -> (n: usize)
        ensures
            n == self@.len(),
    {
        self.nodes.len()
    }

    /// Places a detached node in the arena and hands back its handle.
    pub fn attach(&mut self, node: ScopeData) -> (s: Scope)
        requires
            old(self).wf(),
            detached_node_wf(node@, old(self)@.len() as int),
        ensures
            final(self).wf(),
            s.id == old(self)@.len(),
            final(self)@ =~= old(self)@.push(node@),
    {
        let id = self.nodes.len();
        self.nodes.push(node);
        proof {
            assert(self@ =~= old(self)@.push(node@));
            assert forall|i: int| 0 <= i < self@.len() implies #[trigger] node_wf(self@, i) by {
                if i < old(self)@.len() {
                    assert(node_wf(old(self)@, i));
                }
            }
        }
        Scope { id }
    }

    /// Creates a child scope of `parent` whose dynamic caller is `caller`.
    pub fn create_child(&mut self, parent: Scope, caller: Scope, is_loop: bool) -> (s: Scope)
        requires
            old(self).wf(),
            old(self).valid(parent.id as int),
            old(self).valid(caller.id as int),
        ensures
            final(self).wf(),
            s.id == old(self)@.len(),
            final(self)@ =~= old(self)@.push(ScopeModel {
                parent: Some(parent.id as int),
                caller: Some(caller.id as int),
                uses: Seq::empty(),
                bindings: Seq::empty(),
                is_loop,
                is_stopped: false,
                is_readonly: false,
            }),
    {
        let node = ScopeData::new(Some(parent), Some(caller), is_loop);
        self.attach(node)
    }
}

/// Well-formedness of node `i` inside tree `t`.
pub open spec fn node_wf(t: Seq<ScopeModel>, i: int) -> bool {
    &&& match t[i].parent {
        Some(p) => 0 <= p < i,
        None => true,
    }
    &&& match t[i].caller {
        Some(c) => 0 <= c < i,
        None => true,
    }
    &&& forall|u: int| 0 <= u < t[i].uses.len() ==> 0 <= #[trigger] t[i].uses[u] < t.len()
    &&& distinct_keys(t[i].bindings)
}

/// Well-formedness of a node not yet in the arena, about to become slot `n`.
pub open spec fn detached_node_wf(m: ScopeModel, n: int) -> bool {
    &&& match m.parent {
        Some(p) => 0 <= p < n,
        None => true,
    }
    &&& match m.caller {
        Some(c) => 0 <= c < n,
        None => true,
    }
    &&& forall|u: int| 0 <= u < m.uses.len() ==> 0 <= #[trigger] m.uses[u] < n
    &&& distinct_keys(m.bindings)
}

/// Entry names are pairwise distinct.
pub open spec fn distinct_keys<V>(bs: Seq<(Seq<char>, V)>) -> bool {
    forall|i: int, j: int| 0 <= i < j < bs.len() ==> (#[trigger] bs[i]).0 != (#[trigger] bs[j]).0
}

impl ScopeData {
    /// A fresh node: no bindings, no imports, not stopped, not readonly.
    pub fn new(parent_scope: Option<Scope>, caller: Option<Scope>, is_loop: bool) -> (n: ScopeData)
        ensures
            n@ == (ScopeModel {
                parent: match parent_scope {
                    Some(p) => Some(p.id as int),
                    None => None,
                },
                caller: match caller {
                    Some(c) => Some(c.id as int),
                    None => None,
                },
                uses: Seq::<int>::empty(),
                bindings: Seq::<(Seq<char>, Value)>::empty(),
                is_loop,
                is_stopped: false,
                is_readonly: false,
            }),
    {
        let n = ScopeData {
            parent_scope,
            calling_scope: caller,
            is_loop,
            uses: Vec::new(),
            data: Vec::new(),
            is_stopped: false,
            is_readonly: false,
        };
        proof {
            assert(n@.uses =~= Seq::<int>::empty());
            assert(n@.bindings =~= Seq::<(Seq<char>, Value)>::empty());
        }
        n
    }

    /// Marks this scope non-mutable.
    pub fn readonly(&mut self)
        ensures
            final(self)@ == (ScopeModel { is_readonly: true, ..old(self)@ }),
    {
        self.is_readonly = true;
    }

    /// Whether this scope should stop execution.
    pub fn is_stopped(&self) -> (r: bool)
        ensures
            r == self@.is_stopped,
    {
        self.is_stopped
    }

    /// Registers another scope whose bindings are also visible here.
    pub fn uses(&mut self, other: &Scope)
        ensures
            final(self)@ == (ScopeModel {
                uses: old(self)@.uses.push(other.id as int),
                ..old(self)@
            }),
    {
        self.uses.push(Scope { id: other.id });
        proof {
            assert(self@.uses =~= old(self)@.uses.push(other.id as int));
        }
    }
}


impl ScopeTree {
    /// Reads the lexical parent handle of node `idx`.
    fn parent_of(&self, idx: usize) -> (r: Option<Scope>)
        requires
            self.valid(idx as int),
        ensures
            match r {
                Some(p) => self@[idx as int].parent == Some(p.id as int),
                None => self@[idx as int].parent is None,
            },
    {
        self.nodes[idx].parent_scope
    }

    /// Reads the dynamic caller handle of node `idx`.
    fn caller_of(&self, idx: usize) -> (r: Option<Scope>)
        requires
            self.valid(idx as int),
        ensures
            match r {
                Some(c) => self@[idx as int].caller == Some(c.id as int),
                None => self@[idx as int].caller is None,
            },
    {
        self.nodes[idx].calling_scope
    }

    /// Whether the scope behind `s` should stop execution.
    pub fn is_stopped(&self, s: Scope) -> (r: bool)
        requires
            self.valid(s.id as int),
        ensures
            r == self@[s.id as int].is_stopped,
    {
        self.nodes[s.id].is_stopped
    }

    /// Marks the scope behind `s` non-mutable.
    pub fn readonly(&mut self, s: Scope)
        requires
            old(self).wf(),
            old(self).valid(s.id as int),
        ensures
            final(self).wf(),
            final(self)@ == old(self)@.update(
                s.id as int,
                ScopeModel { is_readonly: true, ..old(self)@[s.id as int] },
            ),
    {
        let idx = s.id;
        let mut node = self.nodes.remove(idx);
        node.readonly();
        self.nodes.insert(idx, node);
        proof {
            assert(self@ =~~= old(self)@.update(
                idx as int,
                ScopeModel { is_readonly: true, ..old(self)@[idx as int] },
            ));
            lemma_flags_preserve_wf(old(self)@, self@);
        }
    }

    /// Registers `other` as a scope whose bindings are also visible in `s`.
    pub fn uses(&mut self, s: Scope, other: &Scope)
        requires
            old(self).wf(),
            old(self).valid(s.id as int),
            old(self).valid(other.id as int),
        ensures
            final(self).wf(),
            final(self)@ == old(self)@.update(
                s.id as int,
                ScopeModel {
                    uses: old(self)@[s.id as int].uses.push(other.id as int),
                    ..old(self)@[s.id as int]
                },
            ),
    {
        let idx = s.id;
        let mut node = self.nodes.remove(idx);
        node.uses(other);
        self.nodes.insert(idx, node);
        proof {
            assert(self@ =~~= old(self)@.update(
                idx as int,
                ScopeModel {
                    uses: old(self)@[idx as int].uses.push(other.id as int),
                    ..old(self)@[idx as int]
                },
            ));
            assert forall|i: int| 0 <= i < self@.len() implies #[trigger] node_wf(self@, i) by {
                assert(node_wf(old(self)@, i));
                assert(self@[i].bindings == old(self)@[i].bindings);
                if i == idx as int {
                    assert(forall|u: int| 0 <= u < self@[i].uses.len()
                        ==> 0 <= #[trigger] self@[i].uses[u] < self@.len());
                }
            }
        }
    }

    /// Raises the stopped flag of node `idx`, leaving all else unchanged.
    fn set_stopped(&mut self, idx: usize)
        requires
            old(self).wf(),
            old(self).valid(idx as int),
        ensures
            final(self).wf(),
            final(self)@ == old(self)@.update(idx as int, old(self)@[idx as int].stopped()),
    {
        let mut node = self.nodes.remove(idx);
        node.is_stopped = true;
        self.nodes.insert(idx, node);
        proof {
            assert(self@ =~~= old(self)@.update(idx as int, old(self)@[idx as int].stopped()));
            lemma_flags_preserve_wf(old(self)@, self@);
        }
    }

    /// Position of the local binding of `name` in scope `idx`, if any.
    fn find_local(&self, idx: usize, name: &str) -> (r: Option<usize>)
        requires
            self.valid(idx as int),
        ensures
            match r {
                Some(j) => {
                    &&& j as int == first_match(self@[idx as int].bindings, name@)
                    &&& j < self@[idx as int].bindings.len()
                    &&& self@[idx as int].bindings[j as int].0 == name@
                },
                None => first_match(self@[idx as int].bindings, name@) == -1,
            },
    {
        proof {
            lemma_first_match(self@[idx as int].bindings, name@);
        }
        let node = &self.nodes[idx];
        let n = node.data.len();
        let mut i: usize = 0;
        while i < n
            invariant
                n == node.data.len(),
                i <= n,
                self.valid(idx as int),
                node@ == self@[idx as int],
                forall|m: int| 0 <= m < i ==> (#[trigger] node@.bindings[m]).0 != name@,
                -1 <= first_match(node@.bindings, name@) < node@.bindings.len(),
                first_match(node@.bindings, name@) >= 0 ==> {
                    &&& node@.bindings[first_match(node@.bindings, name@)].0 == name@
                    &&& forall|m: int| 0 <= m < first_match(node@.bindings, name@)
                        ==> (#[trigger] node@.bindings[m]).0 != name@
                },
                first_match(node@.bindings, name@) == -1
                    ==> (forall|m: int| 0 <= m < node@.bindings.len()
                        ==> (#[trigger] node@.bindings[m]).0 != name@),
            decreases n - i,
        {
            if str_eq(node.data[i].0.as_str(), name) {
                proof {
                    assert(node@.bindings[i as int].0 == name@);
                }
                return Some(i);
            }
            i = i + 1;
        }
        None
    }

    /// Replaces the local binding at position `j` of scope `idx` by
    /// `name -> value`; only used where that position is already named `name`.
    fn set_local(&mut self, idx: usize, j: usize, name: &str, value: Value)
        requires
            old(self).wf(),
            old(self).valid(idx as int),
            j < old(self)@[idx as int].bindings.len(),
            old(self)@[idx as int].bindings[j as int].0 == name@,
        ensures
            final(self).wf(),
            final(self)@ == old(self)@.update(
                idx as int,
                ScopeModel {
                    bindings: old(self)@[idx as int].bindings.update(j as int, (name@, value)),
                    ..old(self)@[idx as int]
                },
            ),
    {
        let mut node = self.nodes.remove(idx);
        let _old_pair = node.data.remove(j);
        node.data.insert(j, (name.to_owned(), value));
        self.nodes.insert(idx, node);
        proof {
            assert(self@ =~~= old(self)@.update(
                idx as int,
                ScopeModel {
                    bindings: old(self)@[idx as int].bindings.update(j as int, (name@, value)),
                    ..old(self)@[idx as int]
                },
            ));
            assert forall|i: int| 0 <= i < self@.len() implies #[trigger] node_wf(self@, i) by {
                assert(node_wf(old(self)@, i));
                if i == idx as int {
                    let bs0 = old(self)@[i].bindings;
                    let bs1 = self@[i].bindings;
                    assert(forall|m: int| 0 <= m < bs1.len() && m != j as int
                        ==> (#[trigger] bs1[m]).0 == bs0[m].0);
                    assert(bs1[j as int].0 == bs0[j as int].0);
                    assert(distinct_keys(bs1));
                }
            }
        }
    }

    /// Assigns `value` to the variable `name`, resolving `name` along the
    /// lexical parent chain: the nearest declaring scope receives the new
    /// value. Fails with `UnknownVariable` when no scope in the chain
    /// declares `name`, with `ReadOnlyViolation` when the declaring scope is
    /// readonly, and with `TypeMismatch` when the new value's runtime type
    /// differs from the stored one; each failure leaves every scope
    /// unchanged.
    pub fn set(&mut self, s: Scope, name: &str, value: Value) -> (r: CrushResult<()>)
        requires
            old(self).wf(),
            old(self).valid(s.id as int),
        ensures
            final(self).wf(),
            match resolve(old(self)@, s.id as int, name@) {
                None => {
                    &&& r == Err::<(), CrushError>(CrushError::UnknownVariable)
                    &&& final(self)@ == old(self)@
                },
                Some(d) => {
                    if old(self)@[d].is_readonly {
                        &&& r == Err::<(), CrushError>(CrushError::ReadOnlyViolation)
                        &&& final(self)@ == old(self)@
                    } else if lookup(old(self)@[d].bindings, name@)->Some_0.typ() != value.typ() {
                        &&& r == Err::<(), CrushError>(CrushError::TypeMismatch)
                        &&& final(self)@ == old(self)@
                    } else {
                        &&& r == Ok::<(), CrushError>(())
                        &&& final(self)@ == old(self)@.update(
                            d,
                            ScopeModel {
                                bindings: old(self)@[d].bindings.update(
                                    first_match(old(self)@[d].bindings, name@),
                                    (name@, value),
                                ),
                                ..old(self)@[d]
                            },
                        )
                    }
                },
            },
        decreases s.id,
    {
        let idx = s.id;
        match self.find_local(idx, name) {
            None => {
                match self.parent_of(idx) {
                    Some(p) => {
                        proof {
                            assert(node_wf(self@, idx as int));
                        }
                        self.set(p, name, value)
                    },
                    None => Err(CrushError::UnknownVariable),
                }
            },
            Some(j) => {
                if self.nodes[idx].is_readonly {
                    Err(CrushError::ReadOnlyViolation)
                } else {
                    let same = {
                        let stored = &self.nodes[idx].data[j].1;
                        stored.value_type() == value.value_type()
                    };
                    if !same {
                        Err(CrushError::TypeMismatch)
                    } else {
                        self.set_local(idx, j, name, value);
                        Ok(())
                    }
                }
            },
        }
    }

    /// Removes the variable `name`, resolving it along the lexical parent
    /// chain, and returns the removed value; a readonly declaring scope and
    /// an undeclared name are both a no-op yielding nothing.
    pub fn remove(&mut self, s: Scope, name: &str) -> (r: Option<Value>)
        requires
            old(self).wf(),
            old(self).valid(s.id as int),
        ensures
            final(self).wf(),
            match resolve(old(self)@, s.id as int, name@) {
                None => {
                    &&& r is None
                    &&& final(self)@ == old(self)@
                },
                Some(d) => {
                    if old(self)@[d].is_readonly {
                        &&& r is None
                        &&& final(self)@ == old(self)@
                    } else {
                        &&& r == lookup(old(self)@[d].bindings, name@)
                        &&& final(self)@ == old(self)@.update(
                            d,
                            ScopeModel {
                                bindings: old(self)@[d].bindings.remove(
                                    first_match(old(self)@[d].bindings, name@),
                                ),
                                ..old(self)@[d]
                            },
                        )
                    }
                },
            },
        decreases s.id,
    {
        let idx = s.id;
        match self.find_local(idx, name) {
            None => {
                match self.parent_of(idx) {
                    Some(p) => {
                        proof {
                            assert(node_wf(self@, idx as int));
                        }
                        self.remove(p, name)
                    },
                    None => None,
                }
            },
            Some(j) => {
                if self.nodes[idx].is_readonly {
                    None
                } else {
                    let mut node = self.nodes.remove(idx);
                    let pair = node.data.remove(j);
                    self.nodes.insert(idx, node);
                    proof {
                        assert(self@ =~~= old(self)@.update(
                            idx as int,
                            ScopeModel {
                                bindings: old(self)@[idx as int].bindings.remove(j as int),
                                ..old(self)@[idx as int]
                            },
                        ));
                        let bs0 = old(self)@[idx as int].bindings;
                        let bs1 = self@[idx as int].bindings;
                        assert forall|i: int| 0 <= i < self@.len() implies #[trigger] node_wf(self@, i) by {
                            assert(node_wf(old(self)@, i));
                            if i == idx as int {
                                assert(forall|m: int| 0 <= m < bs1.len()
                                    ==> #[trigger] bs1[m] == (if m < j as int { bs0[m] } else { bs0[m + 1] }));
                                assert(distinct_keys(bs1));
                            }
                        }
                    }
                    Some(pair.1)
                }
            },
        }
    }

    /// Declares or overwrites the local binding `name -> value` in scope `s`
    /// itself, without consulting the parent chain.
    pub fn redeclare(&mut self, s: Scope, name: &str, value: Value)
        requires
            old(self).wf(),
            old(self).valid(s.id as int),
        ensures
            final(self).wf(),
            final(self)@ == old(self)@.update(
                s.id as int,
                ScopeModel {
                    bindings: if has_binding(old(self)@[s.id as int].bindings, name@) {
                        old(self)@[s.id as int].bindings.update(
                            first_match(old(self)@[s.id as int].bindings, name@),
                            (name@, value),
                        )
                    } else {
                        old(self)@[s.id as int].bindings.push((name@, value))
                    },
                    ..old(self)@[s.id as int]
                },
            ),
    {
        let idx = s.id;
        match self.find_local(idx, name) {
            Some(j) => {
                self.set_local(idx, j, name, value);
            },
            None => {
                proof {
                    lemma_first_match(self@[idx as int].bindings, name@);
                }
                let mut node = self.nodes.remove(idx);
                node.data.push((name.to_owned(), value));
                self.nodes.insert(idx, node);
                proof {
                    assert(self@ =~~= old(self)@.update(
                        idx as int,
                        ScopeModel {
                            bindings: old(self)@[idx as int].bindings.push((name@, value)),
                            ..old(self)@[idx as int]
                        },
                    ));
                    let bs0 = old(self)@[idx as int].bindings;
                    let bs1 = self@[idx as int].bindings;
                    assert forall|i: int| 0 <= i < self@.len() implies #[trigger] node_wf(self@, i) by {
                        assert(node_wf(old(self)@, i));
                        if i == idx as int {
                            assert(forall|m: int| 0 <= m < bs0.len() ==> #[trigger] bs1[m] == bs0[m]);
                            assert(forall|m: int| 0 <= m < bs0.len()
                                ==> (#[trigger] bs0[m]).0 != name@);
                            assert(distinct_keys(bs1));
                        }
                    }
                }
            },
        }
    }

    /// Issues a break signal at `s`. If `s` is itself a loop frame it is
    /// marked stopped; otherwise the signal is delegated up the dynamic
    /// caller chain, and only when an enclosing frame reports success is the
    /// current frame also marked stopped. A readonly frame blocks the
    /// signal. Returns whether the signal took effect; on failure no flag of
    /// any scope changes.
    pub fn do_break(&mut self, s: Scope) -> (r: bool)
        requires
            old(self).wf(),
            old(self).valid(s.id as int),
        ensures
            final(self).wf(),
            r == signal_target(old(self)@, s.id as int) is Some,
            !r ==> final(self)@ == old(self)@,
            r ==> {
                &&& final(self)@.len() == old(self)@.len()
                &&& forall|i: int| 0 <= i < old(self)@.len()
                    ==> final(self)@[i] == (if break_marks(old(self)@, s.id as int, i) {
                        (#[trigger] old(self)@[i]).stopped()
                    } else {
                        old(self)@[i]
                    })
            },
        decreases s.id,
    {
        let idx = s.id;
        if self.nodes[idx].is_readonly {
            false
        } else if self.nodes[idx].is_loop {
            self.set_stopped(idx);
            proof {
                lemma_break_marks_range(old(self)@, idx as int);
                assert forall|i: int| 0 <= i < old(self)@.len()
                    implies final(self)@[i] == (if break_marks(old(self)@, idx as int, i) {
                        (#[trigger] old(self)@[i]).stopped()
                    } else {
                        old(self)@[i]
                    }) by {
                    assert(break_marks(old(self)@, idx as int, i) == (i == idx as int));
                }
            }
            true
        } else {
            match self.caller_of(idx) {
                None => false,
                Some(c) => {
                    proof {
                        assert(node_wf(self@, idx as int));
                    }
                    let ok = self.do_break(c);
                    if ok {
                        proof {
                            lemma_break_marks_range(old(self)@, c.id as int);
                        }
                        self.set_stopped(idx);
                        proof {
                            assert forall|i: int| 0 <= i < old(self)@.len()
                                implies final(self)@[i] == (if break_marks(old(self)@, idx as int, i) {
                                    (#[trigger] old(self)@[i]).stopped()
                                } else {
                                    old(self)@[i]
                                }) by {
                                assert(break_marks(old(self)@, idx as int, i)
                                    == (i == idx as int || break_marks(old(self)@, c.id as int, i)));
                            }
                        }
                        true
                    } else {
                        false
                    }
                },
            }
        }
    }

    /// Issues a continue signal at `s`. A loop frame absorbs the signal
    /// without being marked; every intervening non-loop frame that passed the
    /// signal on is marked stopped. A readonly frame blocks the signal.
    /// Returns whether the signal took effect; on failure no flag changes.
    pub fn do_continue(&mut self, s: Scope) -> (r: bool)
        requires
            old(self).wf(),
            old(self).valid(s.id as int),
        ensures
            final(self).wf(),
            r == signal_target(old(self)@, s.id as int) is Some,
            !r ==> final(self)@ == old(self)@,
            r ==> {
                &&& final(self)@.len() == old(self)@.len()
                &&& forall|i: int| 0 <= i < old(self)@.len()
                    ==> final(self)@[i] == (if continue_marks(old(self)@, s.id as int, i) {
                        (#[trigger] old(self)@[i]).stopped()
                    } else {
                        old(self)@[i]
                    })
            },
        decreases s.id,
    {
        let idx = s.id;
        if self.nodes[idx].is_readonly {
            false
        } else if self.nodes[idx].is_loop {
            true
        } else {
            match self.caller_of(idx) {
                None => false,
                Some(c) => {
                    proof {
                        assert(node_wf(self@, idx as int));
                    }
                    let ok = self.do_continue(c);
                    if ok {
                        proof {
                            lemma_continue_marks_range(old(self)@, c.id as int);
                        }
                        self.set_stopped(idx);
                        proof {
                            assert forall|i: int| 0 <= i < old(self)@.len()
                                implies final(self)@[i] == (if continue_marks(old(self)@, idx as int, i) {
                                    (#[trigger] old(self)@[i]).stopped()
                                } else {
                                    old(self)@[i]
                                }) by {
                                assert(continue_marks(old(self)@, idx as int, i)
                                    == (i == idx as int || continue_marks(old(self)@, c.id as int, i)));
                            }
                        }
                        true
                    } else {
                        false
                    }
                },
            }
        }
    }
}

/// A node transformation that only touches flags keeps the tree well formed.
proof fn lemma_flags_preserve_wf(t0: Seq<ScopeModel>, t1: Seq<ScopeModel>)
    requires
        forall|i: int| 0 <= i < t0.len() ==> #[trigger] node_wf(t0, i),
        t1.len() == t0.len(),
        forall|i: int| 0 <= i < t1.len() ==> {
            &&& (#[trigger] t1[i]).parent == t0[i].parent
            &&& t1[i].caller == t0[i].caller
            &&& t1[i].uses == t0[i].uses
            &&& t1[i].bindings == t0[i].bindings
        },
    ensures
        forall|i: int| 0 <= i < t1.len() ==> #[trigger] node_wf(t1, i),
{
    assert forall|i: int| 0 <= i < t1.len() implies #[trigger] node_wf(t1, i) by {
        assert(node_wf(t0, i));
    }
}

/// A frame marked by a break signal lies between 0 and the origin.
proof fn lemma_break_marks_range(t: Seq<ScopeModel>, s: int)
    ensures
        forall|i: int| #[trigger] break_marks(t, s, i) ==> 0 <= i <= s && i < t.len(),
    decreases s,
{
    if 0 <= s < t.len() {
        match t[s].caller {
            Some(c) => {
                if 0 <= c < s {
                    lemma_break_marks_range(t, c);
                }
            },
            None => {},
        }
    }
    assert forall|i: int| #[trigger] break_marks(t, s, i) implies 0 <= i <= s && i < t.len() by {
        if 0 <= s < t.len() && i != s && !t[s].is_loop {
            match t[s].caller {
                Some(c) => {
                    if 0 <= c < s {
                        assert(break_marks(t, c, i));
                    }
                },
                None => {},
            }
        }
    }
}

/// A frame marked by a continue signal lies between 0 and the origin.
proof fn lemma_continue_marks_range(t: Seq<ScopeModel>, s: int)
    ensures
        forall|i: int| #[trigger] continue_marks(t, s, i) ==> 0 <= i <= s && i < t.len(),
    decreases s,
{
    if 0 <= s < t.len() {
        match t[s].caller {
            Some(c) => {
                if 0 <= c < s {
                    lemma_continue_marks_range(t, c);
                }
            },
            None => {},
        }
    }
    assert forall|i: int| #[trigger] continue_marks(t, s, i) implies 0 <= i <= s && i < t.len() by {
        if 0 <= s < t.len() && i != s && !t[s].is_loop {
            match t[s].caller {
                Some(c) => {
                    if 0 <= c < s {
                        assert(continue_marks(t, c, i));
                    }
                },
                None => {},
            }
        }
    }
}


/// An ordered name-to-type table, filled by `ScopeTree::dump`.
pub struct TypeDict {
    pub entries: Vec<(String, ValueType)>,
}

impl View for TypeDict {
    type V = Seq<(Seq<char>, ValueType)>;

    open spec fn view(&self) -> Seq<(Seq<char>, ValueType)> {
        self.entries@.map_values(|e: (String, ValueType)| (e.0@, e.1))
    }
}

/// Inserting into a type table: overwrite the entry in place when the name
/// is present, append otherwise.
pub open spec fn td_insert(
    d: Seq<(Seq<char>, ValueType)>,
    k: Seq<char>,
    vt: ValueType,
) -> Seq<(Seq<char>, ValueType)> {
    if first_match(d, k) >= 0 {
        d.update(first_match(d, k), (k, vt))
    } else {
        d.push((k, vt))
    }
}

/// Overlaying a type table with the types of a binding list, in order.
pub open spec fn overlay(
    d: Seq<(Seq<char>, ValueType)>,
    bs: Seq<(Seq<char>, Value)>,
) -> Seq<(Seq<char>, ValueType)>
    decreases bs.len(),
{
    if bs.len() == 0 {
        d
    } else {
        overlay(td_insert(d, bs[0].0, bs[0].1.typ()), bs.drop_first())
    }
}

/// The table produced by dumping scope `s` into `d`: the lexical ancestor
/// chain is recorded root first, then overlaid with the scope's own
/// declarations, so nearer declarations shadow farther ones.
pub open spec fn dump_spec(
    t: Seq<ScopeModel>,
    s: int,
    d: Seq<(Seq<char>, ValueType)>,
) -> Seq<(Seq<char>, ValueType)>
    decreases s,
{
    if s < 0 || s >= t.len() {
        d
    } else {
        let base = match t[s].parent {
            None => d,
            Some(p) => if 0 <= p < s {
                dump_spec(t, p, d)
            } else {
                d
            },
        };
        overlay(base, t[s].bindings)
    }
}

impl TypeDict {
    /// Names are pairwise distinct.
    pub open spec fn wf(self) -> bool {
        distinct_keys(self@)
    }

    /// An empty table.
    pub fn new() -> (d: TypeDict)
        ensures
            d@ =~= Seq::<(Seq<char>, ValueType)>::empty(),
            d.wf(),
    {
        TypeDict { entries: Vec::new() }
    }

    /// The number of entries.
    pub fn len(&self) -> (n: usize)
        ensures
            n == self@.len(),
    {
        self.entries.len()
    }

    /// Position of the entry named `name`, if any.
    fn find(&self, name: &str) -> (r: Option<usize>)
        ensures
            match r {
                Some(j) => {
                    &&& j as int == first_match(self@, name@)
                    &&& j < self@.len()
                    &&& self@[j as int].0 == name@
                },
                None => first_match(self@, name@) == -1,
            },
    {
        proof {
            lemma_first_match(self@, name@);
        }
        let n = self.entries.len();
        let mut i: usize = 0;
        while i < n
            invariant
                n == self@.len(),
                i <= n,
                forall|m: int| 0 <= m < i ==> (#[trigger] self@[m]).0 != name@,
                -1 <= first_match(self@, name@) < self@.len(),
                first_match(self@, name@) >= 0 ==> {
                    &&& self@[first_match(self@, name@)].0 == name@
                    &&& forall|m: int| 0 <= m < first_match(self@, name@)
                        ==> (#[trigger] self@[m]).0 != name@
                },
                first_match(self@, name@) == -1
                    ==> (forall|m: int| 0 <= m < self@.len() ==> (#[trigger] self@[m]).0 != name@),
            decreases n - i,
        {
            if str_eq(self.entries[i].0.as_str(), name) {
                proof {
                    assert(self@[i as int].0 == name@);
                }
                return Some(i);
            }
            i = i + 1;
        }
        None
    }

    /// The type recorded for `name`, if any.
    pub fn get(&self, name: &str) -> (r: Option<ValueType>)
        ensures
            r == lookup(self@, name@),
    {
        proof {
            lemma_first_match(self@, name@);
        }
        match self.find(name) {
            Some(j) => Some(self.entries[j].1),
            None => None,
        }
    }

    /// Records `name -> vt`, overwriting in place when `name` is present.
    pub fn insert(&mut self, name: &str, vt: ValueType)
        requires
            old(self).wf(),
        ensures
            final(self).wf(),
            final(self)@ == td_insert(old(self)@, name@, vt),
    {
        match self.find(name) {
            Some(j) => {
                let _old = self.entries.remove(j);
                self.entries.insert(j, (name.to_owned(), vt));
                proof {
                    assert(self@ =~~= old(self)@.update(j as int, (name@, vt)));
                    assert(forall|m: int| 0 <= m < self@.len() && m != j as int
                        ==> #[trigger] self@[m] == old(self)@[m]);
                    assert(distinct_keys(self@));
                }
            },
            None => {
                self.entries.push((name.to_owned(), vt));
                proof {
                    assert(self@ =~~= old(self)@.push((name@, vt)));
                    lemma_first_match(old(self)@, name@);
                    assert(forall|m: int| 0 <= m < old(self)@.len()
                        ==> #[trigger] self@[m] == old(self)@[m]);
                    assert(forall|m: int| 0 <= m < old(self)@.len()
                        ==> (#[trigger] old(self)@[m]).0 != name@);
                    assert(distinct_keys(self@));
                }
            },
        }
    }
}

impl ScopeTree {
    /// Walks the lexical ancestor chain root first and records each declared
    /// name's runtime type in `dict`, then overlays the current scope's own
    /// declarations, so nearer declarations shadow farther ones.
    pub fn dump(&self, s: Scope, dict: &mut TypeDict)
        requires
            self.wf(),
            self.valid(s.id as int),
            old(dict).wf(),
        ensures
            final(dict).wf(),
            final(dict)@ == dump_spec(self@, s.id as int, old(dict)@),
        decreases s.id,
    {
        let idx = s.id;
        match self.parent_of(idx) {
            Some(p) => {
                proof {
                    assert(node_wf(self@, idx as int));
                }
                self.dump(p, dict);
            },
            None => {},
        }
        let ghost base = dict@;
        let node = &self.nodes[idx];
        let n = node.data.len();
        let mut i: usize = 0;
        proof {
            assert(node@.bindings.skip(0) =~= node@.bindings);
        }
        while i < n
            invariant
                n == node@.bindings.len(),
                i <= n,
                self.valid(idx as int),
                node@ == self@[idx as int],
                dict.wf(),
                overlay(dict@, node@.bindings.skip(i as int)) == overlay(base, node@.bindings),
            decreases n - i,
        {
            let ghost before = dict@;
            let vt = node.data[i].1.value_type();
            dict.insert(node.data[i].0.as_str(), vt);
            proof {
                let bs = node@.bindings;
                assert(bs.skip(i as int)[0] == bs[i as int]);
                assert(bs.skip(i as int).drop_first() =~= bs.skip(i as int + 1));
                assert(overlay(before, bs.skip(i as int))
                    == overlay(td_insert(before, bs[i as int].0, bs[i as int].1.typ()), bs.skip(i as int + 1)));
            }
            i = i + 1;
        }
        proof {
            assert(node@.bindings.skip(n as int) =~= Seq::<(Seq<char>, Value)>::empty());
            assert(overlay(dict@, node@.bindings.skip(n as int)) == dict@);
        }
    }
}


/// Whether scope `i` lies on the dynamic caller chain that starts at `s`,
/// the origin itself included.
pub open spec fn on_caller_chain(t: Seq<ScopeModel>, s: int, i: int) -> bool
    decreases s,
{
    if s < 0 || s >= t.len() {
        false
    } else if i == s {
        true
    } else {
        match t[s].caller {
            None => false,
            Some(c) => if 0 <= c < s {
                on_caller_chain(t, c, i)
            } else {
                false
            },
        }
    }
}

/// A break or continue signal issued where no frame on the dynamic caller
/// chain is a loop finds no absorbing frame: `do_break` and `do_continue`
/// then return false and, by their contracts, leave every scope unchanged.
pub proof fn lemma_signal_without_loop(t: Seq<ScopeModel>, s: int)
    requires
        forall|i: int| on_caller_chain(t, s, i) ==> !(#[trigger] t[i]).is_loop,
    ensures
        signal_target(t, s) is None,
    decreases s,
{
    if 0 <= s < t.len() {
        assert(on_caller_chain(t, s, s));
        if !t[s].is_readonly {
            match t[s].caller {
                Some(c) => {
                    if 0 <= c < s {
                        assert forall|i: int| on_caller_chain(t, c, i)
                            implies !(#[trigger] t[i]).is_loop by {
                            assert(on_caller_chain(t, s, i));
                        }
                        lemma_signal_without_loop(t, c);
                    }
                },
                None => {},
            }
        }
    }
}

/// A break that takes effect is absorbed by a loop frame on the dynamic
/// caller chain, and it marks the frames from the origin up to and including
/// that loop frame: the origin and the absorbing frame are both marked, the
/// absorbing frame is a loop, and every marked frame lies on the chain.
/// `do_break`'s contract then sets the stopped flag on exactly those frames.
pub proof fn lemma_break_reaches_loop(t: Seq<ScopeModel>, s: int)
    ensures
        signal_target(t, s) matches Some(g) ==> {
            &&& 0 <= g < t.len()
            &&& t[g].is_loop
            &&& on_caller_chain(t, s, g)
            &&& break_marks(t, s, s)
            &&& break_marks(t, s, g)
            &&& forall|i: int| #[trigger] break_marks(t, s, i) ==> on_caller_chain(t, s, i)
        },
    decreases s,
{
    if 0 <= s < t.len() && !t[s].is_readonly && !t[s].is_loop {
        match t[s].caller {
            Some(c) => {
                if 0 <= c < s {
                    lemma_break_reaches_loop(t, c);
                    if signal_target(t, s) is Some {
                        assert forall|i: int| #[trigger] break_marks(t, s, i)
                            implies on_caller_chain(t, s, i) by {
                            if i != s {
                                assert(break_marks(t, c, i));
                            }
                        }
                    }
                }
            },
            None => {},
        }
    }
}

} // verus!
