//! Records ("struct" values): an ordered field table with shared mutable
//! backing and an optional parent record for prototype-style field
//! delegation.
//!
//! A record may be held by many owners at once, and the same parent may be
//! shared by several children. Record nodes therefore live in a `StructHeap`
//! arena and are addressed by copyable `Struct` handles. Delegation chains
//! are kept acyclic as an invariant of the heap: construction only links to
//! existing records, and re-targeting a parent explicitly rejects any edge
//! whose chain would lead back to the record itself.

use vstd::prelude::*;
use crate::errors::{CrushError, CrushResult, RecvTimeoutError};
use crate::value::{dup_values, str_eq, strs_eq, strs_model, val_eq, val_eq_spec, vals_model, ColumnType, Row, Value, ValueModel, ValueType};

verus! {

broadcast use vstd::std_specs::vec::axiom_vec_index_decreases;

/// A handle to one record in a `StructHeap`.
#[derive(Clone, Copy, Debug)]
pub struct Struct {
    pub id: usize,
}

/// One record node: field names in declaration order, the parallel cell
/// sequence, and the optional delegation parent.
pub struct StructData {
    /// The delegation parent, used for field lookup fallback.
    pub parent: Option<Struct>,
    /// Field names in declaration order; the field named `names[i]` has its
    /// value in `cells[i]`. Names are distinct.
    pub names: Vec<String>,
    /// The field values, in the same order.
    pub cells: Vec<Value>,
}

/// The state of one record, as contracts speak of it.
#[verifier::ext_equal]
pub struct StructModel {
    pub parent: Option<int>,
    pub names: Seq<Seq<char>>,
    pub cells: Seq<ValueModel>,
}

impl View for StructData {
    type V = StructModel;

    open spec fn view(&self) -> StructModel {
        StructModel {
            parent: match self.parent {
                Some(p) => Some(p.id as int),
                None => None,
            },
            names: strs_model(self.names),
            cells: vals_model(self.cells),
        }
    }
}

/// The arena of record nodes.
pub struct StructHeap {
    nodes: Vec<StructData>,
}

impl View for StructHeap {
    type V = Seq<StructModel>;

    closed spec fn view(&self) -> Seq<StructModel> {
        self.nodes@.map_values(|n: StructData| n@)
    }
}

/// Field names of a record are pairwise distinct.
pub open spec fn distinct_names(ns: Seq<Seq<char>>) -> bool {
    forall|i: int, j: int| 0 <= i < j < ns.len() ==> ns[i] != ns[j]
}

/// Well-formedness of record `i` inside heap `h`: the delegation edge
/// addresses an existing record, names are distinct, and names and cells
/// run parallel.
pub open spec fn record_wf(h: Seq<StructModel>, i: int) -> bool {
    &&& match h[i].parent {
        Some(p) => 0 <= p < h.len(),
        None => true,
    }
    &&& distinct_names(h[i].names)
    &&& h[i].names.len() == h[i].cells.len()
}

/// The delegation chain that starts at record `i` ends within `f` parent
/// steps.
pub open spec fn chain_ends(h: Seq<StructModel>, i: int, f: nat) -> bool
    decreases f,
{
    if i < 0 || i >= h.len() {
        true
    } else {
        match h[i].parent {
            None => true,
            Some(p) => f > 0 && chain_ends(h, p, (f - 1) as nat),
        }
    }
}

/// Whether record `target` lies on the delegation chain that starts at `i`
/// (`i` itself included), looking at most `f` parent steps ahead.
pub open spec fn chain_hits(h: Seq<StructModel>, i: int, target: int, f: nat) -> bool
    decreases f,
{
    if i < 0 || i >= h.len() {
        false
    } else if i == target {
        true
    } else {
        match h[i].parent {
            None => false,
            Some(p) => f > 0 && chain_hits(h, p, target, (f - 1) as nat),
        }
    }
}

/// Some number of steps suffices for the chain from `i` to end: the chain
/// is acyclic.
pub open spec fn chain_ends_some(h: Seq<StructModel>, i: int) -> bool {
    exists|f: nat| chain_ends(h, i, f)
}

/// A fuel on which the chain from `i` provably ends.
pub open spec fn chain_fuel(h: Seq<StructModel>, i: int) -> nat {
    choose|f: nat| chain_ends(h, i, f)
}

/// Whether the delegation chain that starts at `from` reaches `target`.
pub open spec fn reaches(h: Seq<StructModel>, from: int, target: int) -> bool {
    chain_hits(h, from, target, chain_fuel(h, from))
}

impl StructHeap {
    /// Every record of the heap is well formed and every delegation chain
    /// is acyclic.
    pub open spec fn wf(self) -> bool {
        &&& forall|i: int| 0 <= i < self@.len() ==> #[trigger] record_wf(self@, i)
        &&& forall|i: int| 0 <= i < self@.len() ==> #[trigger] chain_ends_some(self@, i)
    }

    /// A handle is valid when it addresses an existing record.
    pub open spec fn valid(self, s: int) -> bool {
        0 <= s < self@.len()
    }

    /// An empty heap.
    pub fn new() -> (h: StructHeap)
        ensures
            h@ =~= Seq::<StructModel>::empty(),
            h.wf(),
    {
        StructHeap { nodes: Vec::new() }
    }

    /// The number of records in the heap.
    pub fn len(&self) -> (n: usize)
        ensures
            n == self@.len(),
    {
        self.nodes.len()
    }
}


/// Position of `k` among the field names `ns`, or -1 when absent.
pub open spec fn name_index(ns: Seq<Seq<char>>, k: Seq<char>) -> int
    decreases ns.len(),
{
    if ns.len() == 0 {
        -1
    } else if ns[0] == k {
        0
    } else {
        let r = name_index(ns.drop_first(), k);
        if r == -1 {
            -1
        } else {
            r + 1
        }
    }
}

/// `name_index` indeed names the first position of `k`.
pub proof fn lemma_name_index(ns: Seq<Seq<char>>, k: Seq<char>)
    ensures
        -1 <= name_index(ns, k) < ns.len(),
        name_index(ns, k) == -1 <==> (forall|i: int| 0 <= i < ns.len() ==> ns[i] != k),
        name_index(ns, k) >= 0 ==> {
            &&& ns[name_index(ns, k)] == k
            &&& forall|i: int| 0 <= i < name_index(ns, k) ==> ns[i] != k
        },
    decreases ns.len(),
{
    if ns.len() == 0 {
    } else if ns[0] == k {
    } else {
        let sub = ns.drop_first();
        lemma_name_index(sub, k);
        let r = name_index(sub, k);
        assert(forall|i: int| 1 <= i < ns.len() ==> ns[i] == sub[i - 1]);
        if r == -1 {
            assert forall|i: int| 0 <= i < ns.len() implies ns[i] != k by {
                if i >= 1 {
                    assert(sub[i - 1] != k);
                }
            }
        } else {
            assert(ns[r + 1] == sub[r]);
            assert forall|i: int| 0 <= i < r + 1 implies ns[i] != k by {
                if i >= 1 {
                    assert(sub[i - 1] != k);
                }
            }
        }
    }
}

impl StructModel {
    /// This record's own fields as ordered name/value pairs.
    pub open spec fn own_pairs(self) -> Seq<(Seq<char>, ValueModel)> {
        Seq::new(self.names.len(), |i: int| (self.names[i], self.cells[i]))
    }

}

/// Field lookup with delegation, walking at most `f` parent steps: the
/// local field if present, otherwise the nearest ancestor's.
pub open spec fn rec_get_fuel(h: Seq<StructModel>, s: int, k: Seq<char>, f: nat) -> Option<ValueModel>
    decreases f,
{
    if s < 0 || s >= h.len() {
        None
    } else if name_index(h[s].names, k) >= 0 {
        Some(h[s].cells[name_index(h[s].names, k)])
    } else {
        match h[s].parent {
            None => None,
            Some(p) => if f > 0 {
                rec_get_fuel(h, p, k, (f - 1) as nat)
            } else {
                None
            },
        }
    }
}

/// Field lookup with delegation: the local field if present, otherwise the
/// nearest ancestor's. Nearer definitions always shadow farther ones.
pub open spec fn rec_get(h: Seq<StructModel>, s: int, k: Seq<char>) -> Option<ValueModel> {
    rec_get_fuel(h, s, k, chain_fuel(h, s))
}

/// The merged visible field map of record `s`, walking at most `f` parent
/// steps.
pub open spec fn merged_pairs_fuel(h: Seq<StructModel>, s: int, f: nat) -> Seq<(Seq<char>, ValueModel)>
    decreases f,
{
    if s < 0 || s >= h.len() {
        Seq::empty()
    } else {
        let inherited = match h[s].parent {
            None => Seq::<(Seq<char>, ValueModel)>::empty(),
            Some(p) => if f > 0 {
                merged_pairs_fuel(h, p, (f - 1) as nat)
            } else {
                Seq::empty()
            },
        };
        h[s].own_pairs() + inherited.filter(|pr: (Seq<char>, ValueModel)| name_index(h[s].names, pr.0) == -1)
    }
}

/// The fully merged visible field map of record `s`, ordered: the record's
/// own fields first, then each ancestor's fields that no nearer record
/// shadows.
pub open spec fn merged_pairs(h: Seq<StructModel>, s: int) -> Seq<(Seq<char>, ValueModel)> {
    merged_pairs_fuel(h, s, chain_fuel(h, s))
}

/// On a chain that ends, field lookup does not depend on which sufficient
/// fuel is used.
pub proof fn lemma_rec_get_irrel(h: Seq<StructModel>, s: int, k: Seq<char>, f1: nat, f2: nat)
    requires
        chain_ends(h, s, f1),
        chain_ends(h, s, f2),
    ensures
        rec_get_fuel(h, s, k, f1) == rec_get_fuel(h, s, k, f2),
    decreases f1,
{
    if 0 <= s < h.len() && name_index(h[s].names, k) < 0 {
        match h[s].parent {
            Some(p) => {
                lemma_rec_get_irrel(h, p, k, (f1 - 1) as nat, (f2 - 1) as nat);
            },
            None => {},
        }
    }
}

/// On a chain that ends, the merged field map does not depend on which
/// sufficient fuel is used.
pub proof fn lemma_merged_irrel(h: Seq<StructModel>, s: int, f1: nat, f2: nat)
    requires
        chain_ends(h, s, f1),
        chain_ends(h, s, f2),
    ensures
        merged_pairs_fuel(h, s, f1) == merged_pairs_fuel(h, s, f2),
    decreases f1,
{
    if 0 <= s < h.len() {
        match h[s].parent {
            Some(p) => {
                lemma_merged_irrel(h, p, (f1 - 1) as nat, (f2 - 1) as nat);
            },
            None => {},
        }
    }
}

/// An acyclic chain ends within its canonical fuel.
pub proof fn lemma_chain_fuel(h: Seq<StructModel>, i: int)
    requires
        chain_ends_some(h, i),
    ensures
        chain_ends(h, i, chain_fuel(h, i)),
{
    let f = choose|f: nat| chain_ends(h, i, f);
    assert(chain_ends(h, i, f));
}

/// Unfolds field lookup one delegation step on an acyclic chain.
pub proof fn lemma_rec_get_unfold(h: Seq<StructModel>, s: int, k: Seq<char>)
    requires
        0 <= s < h.len(),
        chain_ends_some(h, s),
    ensures
        name_index(h[s].names, k) >= 0
            ==> rec_get(h, s, k) == Some(h[s].cells[name_index(h[s].names, k)]),
        name_index(h[s].names, k) < 0 && h[s].parent is None
            ==> rec_get(h, s, k) is None,
        name_index(h[s].names, k) < 0 ==> match h[s].parent {
            Some(p) => chain_ends_some(h, p) && rec_get(h, s, k) == rec_get(h, p, k),
            None => true,
        },
{
    lemma_chain_fuel(h, s);
    let f = chain_fuel(h, s);
    if name_index(h[s].names, k) < 0 {
        match h[s].parent {
            Some(p) => {
                assert(chain_ends(h, p, (f - 1) as nat));
                lemma_chain_fuel(h, p);
                lemma_rec_get_irrel(h, p, k, (f - 1) as nat, chain_fuel(h, p));
            },
            None => {},
        }
    }
}

/// Unfolds the merged field map one delegation step on an acyclic chain.
pub proof fn lemma_merged_unfold(h: Seq<StructModel>, s: int)
    requires
        0 <= s < h.len(),
        chain_ends_some(h, s),
    ensures
        merged_pairs(h, s) == h[s].own_pairs() + (match h[s].parent {
            None => Seq::<(Seq<char>, ValueModel)>::empty(),
            Some(p) => merged_pairs(h, p),
        }).filter(|pr: (Seq<char>, ValueModel)| name_index(h[s].names, pr.0) == -1),
        match h[s].parent {
            Some(p) => chain_ends_some(h, p),
            None => true,
        },
{
    lemma_chain_fuel(h, s);
    let f = chain_fuel(h, s);
    match h[s].parent {
        Some(p) => {
            assert(chain_ends(h, p, (f - 1) as nat));
            lemma_chain_fuel(h, p);
            lemma_merged_irrel(h, p, (f - 1) as nat, chain_fuel(h, p));
        },
        None => {},
    }
}

/// Two heaps whose records all have the same delegation edges have the
/// same chains.
pub proof fn lemma_same_parents_chain(h1: Seq<StructModel>, h2: Seq<StructModel>, x: int, f: nat)
    requires
        h1.len() == h2.len(),
        forall|i: int| 0 <= i < h1.len() ==> (#[trigger] h2[i]).parent == h1[i].parent,
    ensures
        chain_ends(h1, x, f) == chain_ends(h2, x, f),
    decreases f,
{
    if 0 <= x < h1.len() {
        match h1[x].parent {
            Some(p) => {
                if f > 0 {
                    lemma_same_parents_chain(h1, h2, p, (f - 1) as nat);
                }
            },
            None => {},
        }
    }
}

/// Appending a record leaves the chains of the existing records unchanged.
pub proof fn lemma_push_chain(h: Seq<StructModel>, n: StructModel, x: int, f: nat)
    requires
        forall|i: int| 0 <= i < h.len() ==> #[trigger] record_wf(h, i),
        0 <= x < h.len(),
    ensures
        chain_ends(h, x, f) == chain_ends(h.push(n), x, f),
    decreases f,
{
    assert(record_wf(h, x));
    match h[x].parent {
        Some(p) => {
            if f > 0 {
                lemma_push_chain(h, n, p, (f - 1) as nat);
            }
        },
        None => {},
    }
}

/// Re-targeting one record's delegation edge to a chain that does not pass
/// through it does not disturb that chain.
proof fn lemma_retarget_chain_same(
    h1: Seq<StructModel>,
    h2: Seq<StructModel>,
    s: int,
    x: int,
    f: nat,
)
    requires
        h1.len() == h2.len(),
        forall|i: int| 0 <= i < h1.len() && i != s ==> (#[trigger] h2[i]).parent == h1[i].parent,
        chain_ends(h1, x, f),
        !chain_hits(h1, x, s, f),
    ensures
        chain_ends(h2, x, f),
        !chain_hits(h2, x, s, f),
    decreases f,
{
    if 0 <= x < h1.len() {
        match h1[x].parent {
            Some(p) => {
                lemma_retarget_chain_same(h1, h2, s, p, (f - 1) as nat);
            },
            None => {},
        }
    }
}

/// After an acyclic re-target of record `s`, every chain of the heap still
/// ends.
proof fn lemma_retarget_node_chain(
    h1: Seq<StructModel>,
    h2: Seq<StructModel>,
    s: int,
    x: int,
    f: nat,
)
    requires
        h1.len() == h2.len(),
        0 <= s < h1.len(),
        forall|i: int| 0 <= i < h1.len() && i != s ==> (#[trigger] h2[i]).parent == h1[i].parent,
        chain_ends_some(h2, s),
        chain_ends(h1, x, f),
    ensures
        chain_ends_some(h2, x),
    decreases f,
{
    if x < 0 || x >= h1.len() {
        assert(chain_ends(h2, x, 0));
    } else if x == s {
    } else {
        match h1[x].parent {
            Some(p) => {
                lemma_retarget_node_chain(h1, h2, s, p, (f - 1) as nat);
                lemma_chain_fuel(h2, p);
                assert(chain_ends(h2, x, chain_fuel(h2, p) + 1));
            },
            None => {
                assert(chain_ends(h2, x, 0));
            },
        }
    }
}

/// The models of a sequence of name/value pairs.
pub open spec fn entry_pairs_model(v: Seq<(String, Value)>) -> Seq<(Seq<char>, ValueModel)> {
    Seq::new(v.len(), |i: int| (v[i].0@, v[i].1.model()))
}

/// The field names carried by a sequence of name/value pairs.
pub open spec fn entry_names(v: Seq<(String, Value)>) -> Seq<Seq<char>> {
    Seq::new(v.len(), |i: int| v[i].0@)
}

/// The value models carried by a sequence of name/value pairs.
pub open spec fn entry_values_model(v: Seq<(String, Value)>) -> Seq<ValueModel> {
    Seq::new(v.len(), |i: int| v[i].1.model())
}

impl StructHeap {
    /// Position of `name` among the own fields of record `idx`, if any.
    fn find_field(&self, idx: usize, name: &str) -> (r: Option<usize>)
        requires
            self.valid(idx as int),
        ensures
            match r {
                Some(j) => {
                    &&& j as int == name_index(self@[idx as int].names, name@)
                    &&& j < self@[idx as int].names.len()
                    &&& self@[idx as int].names[j as int] == name@
                },
                None => name_index(self@[idx as int].names, name@) == -1,
            },
    {
        proof {
            lemma_name_index(self@[idx as int].names, name@);
        }
        let node = &self.nodes[idx];
        let n = node.names.len();
        let mut i: usize = 0;
        while i < n
            invariant
                n == node@.names.len(),
                i <= n,
                self.valid(idx as int),
                node@ == self@[idx as int],
                forall|m: int| 0 <= m < i ==> node@.names[m] != name@,
                -1 <= name_index(node@.names, name@) < node@.names.len(),
                name_index(node@.names, name@) >= 0 ==> {
                    &&& node@.names[name_index(node@.names, name@)] == name@
                    &&& forall|m: int| 0 <= m < name_index(node@.names, name@)
                        ==> node@.names[m] != name@
                },
                name_index(node@.names, name@) == -1
                    ==> (forall|m: int| 0 <= m < node@.names.len() ==> node@.names[m] != name@),
            decreases n - i,
        {
            if str_eq(node.names[i].as_str(), name) {
                proof {
                    assert(node@.names[i as int] == name@);
                }
                return Some(i);
            }
            i = i + 1;
        }
        None
    }

    /// Places a detached record in the arena and hands back its handle.
    fn attach(&mut self, node: StructData) -> (s: Struct)
        requires
            old(self).wf(),
            match node@.parent {
                Some(p) => 0 <= p < old(self)@.len(),
                None => true,
            },
            distinct_names(node@.names),
            node@.names.len() == node@.cells.len(),
        ensures
            final(self).wf(),
            s.id == old(self)@.len(),
            final(self)@ == old(self)@.push(node@),
    {
        let id = self.nodes.len();
        self.nodes.push(node);
        proof {
            assert(self@ =~~= old(self)@.push(node@));
            assert forall|i: int| 0 <= i < self@.len() implies #[trigger] record_wf(self@, i) by {
                if i < old(self)@.len() {
                    assert(record_wf(old(self)@, i));
                }
            }
            assert forall|i: int| 0 <= i < self@.len()
                implies #[trigger] chain_ends_some(self@, i) by {
                if i < old(self)@.len() {
                    assert(chain_ends_some(old(self)@, i));
                    lemma_chain_fuel(old(self)@, i);
                    lemma_push_chain(old(self)@, node@, i, chain_fuel(old(self)@, i));
                } else {
                    match node@.parent {
                        Some(p) => {
                            assert(chain_ends_some(old(self)@, p));
                            lemma_chain_fuel(old(self)@, p);
                            let fp = chain_fuel(old(self)@, p);
                            lemma_push_chain(old(self)@, node@, p, fp);
                            assert(chain_ends(self@, i, fp + 1));
                        },
                        None => {
                            assert(chain_ends(self@, i, 0));
                        },
                    }
                }
            }
        }
        Struct { id }
    }
}

impl Struct {
    /// A new record from an ordered list of name/value pairs, optionally
    /// delegating to `parent`. Field names must be distinct.
    pub fn new(vec: Vec<(String, Value)>, parent: Option<Struct>, heap: &mut StructHeap) -> (s: Struct)
        requires
            old(heap).wf(),
            distinct_names(entry_names(vec@)),
            match parent {
                Some(p) => old(heap).valid(p.id as int),
                None => true,
            },
        ensures
            final(heap).wf(),
            s.id == old(heap)@.len(),
            final(heap)@ == old(heap)@.push(StructModel {
                parent: match parent {
                    Some(p) => Some(p.id as int),
                    None => None,
                },
                names: entry_names(vec@),
                cells: entry_values_model(vec@),
            }),
    {
        let ghost orig = vec@;
        let mut work = vec;
        let mut names: Vec<String> = Vec::new();
        let mut cells: Vec<Value> = Vec::new();
        while work.len() > 0
            invariant
                names@.len() == cells@.len(),
                names@.len() + work@.len() == orig.len(),
                forall|m: int| 0 <= m < names@.len() ==> (#[trigger] names@[m])@ == orig[m].0@,
                forall|m: int| 0 <= m < cells@.len() ==> #[trigger] cells@[m] == orig[m].1,
                forall|m: int| 0 <= m < work@.len() ==> #[trigger] work@[m] == orig[names@.len() + m],
            decreases work@.len(),
        {
            let (n, v) = work.remove(0);
            names.push(n);
            cells.push(v);
        }
        proof {
            assert(strs_model(names) =~= entry_names(orig));
            assert forall|i: int| 0 <= i < orig.len()
                implies vals_model(cells)[i] == orig[i].1.model() by {
                assert(cells@[i] == orig[i].1);
            }
            assert(vals_model(cells) =~= entry_values_model(orig));
        }
        let node = StructData { parent, names, cells };
        proof {
            assert(node@ =~~= StructModel {
                parent: match parent {
                    Some(p) => Some(p.id as int),
                    None => None,
                },
                names: entry_names(orig),
                cells: entry_values_model(orig),
            });
        }
        heap.attach(node)
    }
}


/// The names of a column schema.
pub open spec fn col_names(ts: Seq<ColumnType>) -> Seq<Seq<char>> {
    Seq::new(ts.len(), |i: int| ts[i].name@)
}

impl Struct {
    /// A new record zipping `values` against a column schema; surplus values
    /// or columns beyond the shorter of the two are dropped. The record has
    /// no delegation parent.
    pub fn from_vec(values: Vec<Value>, types: Vec<ColumnType>, heap: &mut StructHeap) -> (s: Struct)
        requires
            old(heap).wf(),
            distinct_names(col_names(types@)),
        ensures
            final(heap).wf(),
            s.id == old(heap)@.len(),
            final(heap)@ == old(heap)@.push(StructModel {
                parent: None,
                names: col_names(types@).take(min_len(values@.len() as int, types@.len() as int)),
                cells: vals_model_of(values@).take(min_len(values@.len() as int, types@.len() as int)),
            }),
    {
        let n = if values.len() <= types.len() {
            values.len()
        } else {
            types.len()
        };
        let ghost origv = values@;
        let mut work = values;
        let mut names: Vec<String> = Vec::new();
        let mut cells: Vec<Value> = Vec::new();
        let mut i: usize = 0;
        while i < n
            invariant
                n <= types@.len(),
                n <= origv.len(),
                i <= n,
                names@.len() == i,
                cells@.len() == i,
                work@.len() == origv.len() - i,
                forall|m: int| 0 <= m < i ==> (#[trigger] names@[m])@ == types@[m].name@,
                forall|m: int| 0 <= m < i ==> #[trigger] cells@[m] == origv[m],
                forall|m: int| 0 <= m < work@.len() ==> #[trigger] work@[m] == origv[i + m],
            decreases n - i,
        {
            let v = work.remove(0);
            names.push(types[i].name.clone());
            cells.push(v);
            i = i + 1;
        }
        proof {
            assert(strs_model(names) =~= col_names(types@).take(n as int));
            assert forall|m: int| 0 <= m < n
                implies vals_model(cells)[m] == vals_model_of(origv)[m] by {
                assert(cells@[m] == origv[m]);
            }
            assert(vals_model(cells) =~= vals_model_of(origv).take(n as int));
            assert forall|j: int, m: int| 0 <= j < m < n
                implies strs_model(names)[j] != strs_model(names)[m] by {
                assert(col_names(types@)[j] != col_names(types@)[m]);
            }
            assert(distinct_names(strs_model(names)));
        }
        let node = StructData { parent: None, names, cells };
        proof {
            assert(node@ =~~= StructModel {
                parent: None,
                names: col_names(types@).take(min_len(origv.len() as int, types@.len() as int)),
                cells: vals_model_of(origv).take(min_len(origv.len() as int, types@.len() as int)),
            });
        }
        heap.attach(node)
    }

    /// Field lookup with delegation to the parent chain: a nearer (more
    /// local) definition always shadows a farther one.
    pub fn get(&self, heap: &StructHeap, name: &str) -> (r: Option<Value>)
        requires
            heap.wf(),
            heap.valid(self.id as int),
        ensures
            match r {
                Some(v) => rec_get(heap@, self.id as int, name@) == Some(v.model()),
                None => rec_get(heap@, self.id as int, name@) is None,
            },
    {
        proof {
            assert(chain_ends_some(heap@, self.id as int));
            lemma_chain_fuel(heap@, self.id as int);
        }
        self.get_walk(heap, name, Ghost(chain_fuel(heap@, self.id as int)))
    }

    /// Walks the delegation chain looking up `name`, spending one unit of
    /// chain fuel per delegation step.
    fn get_walk(&self, heap: &StructHeap, name: &str, Ghost(fuel): Ghost<nat>) -> (r: Option<Value>)
        requires
            heap.wf(),
            heap.valid(self.id as int),
            chain_ends(heap@, self.id as int, fuel),
        ensures
            match r {
                Some(v) => rec_get(heap@, self.id as int, name@) == Some(v.model()),
                None => rec_get(heap@, self.id as int, name@) is None,
            },
        decreases fuel,
    {
        let idx = self.id;
        proof {
            assert(record_wf(heap@, idx as int));
            assert(chain_ends_some(heap@, idx as int));
            lemma_rec_get_unfold(heap@, idx as int, name@);
        }
        match heap.find_field(idx, name) {
            Some(j) => Some(heap.nodes[idx].cells[j].dup()),
            None => {
                let parent = heap.nodes[idx].parent;
                match parent {
                    Some(p) => p.get_walk(heap, name, Ghost((fuel - 1) as nat)),
                    None => None,
                }
            },
        }
    }

    /// Sets field `name`: appends a new local field when absent, otherwise
    /// replaces the cell in place and returns the previous value. The parent
    /// record is never touched: assigning locally shadows an inherited field
    /// without mutating it.
    pub fn set(&self, heap: &mut StructHeap, name: &str, value: Value) -> (r: Option<Value>)
        requires
            old(heap).wf(),
            old(heap).valid(self.id as int),
        ensures
            final(heap).wf(),
            ({
                let m = old(heap)@[self.id as int];
                let ni = name_index(m.names, name@);
                if ni >= 0 {
                    &&& match r {
                        Some(v) => v.model() == m.cells[ni],
                        None => false,
                    }
                    &&& final(heap)@ == old(heap)@.update(
                        self.id as int,
                        StructModel { cells: m.cells.update(ni, value.model()), ..m },
                    )
                } else {
                    &&& r is None
                    &&& final(heap)@ == old(heap)@.update(
                        self.id as int,
                        StructModel {
                            names: m.names.push(name@),
                            cells: m.cells.push(value.model()),
                            ..m
                        },
                    )
                }
            }),
    {
        let idx = self.id;
        proof {
            assert(record_wf(old(heap)@, idx as int));
        }
        match heap.find_field(idx, name) {
            Some(j) => {
                let mut node = heap.nodes.remove(idx);
                let old_cell = node.cells.remove(j);
                node.cells.insert(j, value);
                heap.nodes.insert(idx, node);
                proof {
                    let m = old(heap)@[idx as int];
                    assert(vals_model(node.cells) =~= m.cells.update(j as int, value.model()));
                    assert(heap@ =~~= old(heap)@.update(
                        idx as int,
                        StructModel { cells: m.cells.update(j as int, value.model()), ..m },
                    ));
                    assert forall|i: int| 0 <= i < heap@.len() implies #[trigger] record_wf(heap@, i) by {
                        assert(record_wf(old(heap)@, i));
                    }
                    assert forall|i: int| 0 <= i < heap@.len()
                        implies #[trigger] chain_ends_some(heap@, i) by {
                        assert(chain_ends_some(old(heap)@, i));
                        lemma_chain_fuel(old(heap)@, i);
                        lemma_same_parents_chain(old(heap)@, heap@, i, chain_fuel(old(heap)@, i));
                    }
                }
                Some(old_cell)
            },
            None => {
                let mut node = heap.nodes.remove(idx);
                node.names.push(name.to_owned());
                node.cells.push(value);
                heap.nodes.insert(idx, node);
                proof {
                    let m = old(heap)@[idx as int];
                    assert(strs_model(node.names) =~= m.names.push(name@));
                    assert(vals_model(node.cells) =~= m.cells.push(value.model()));
                    assert(heap@ =~~= old(heap)@.update(
                        idx as int,
                        StructModel {
                            names: m.names.push(name@),
                            cells: m.cells.push(value.model()),
                            ..m
                        },
                    ));
                    lemma_name_index(m.names, name@);
                    assert forall|i: int| 0 <= i < heap@.len() implies #[trigger] record_wf(heap@, i) by {
                        assert(record_wf(old(heap)@, i));
                        if i == idx as int {
                            let ns1 = heap@[i].names;
                            assert(forall|a: int| 0 <= a < m.names.len() ==> #[trigger] ns1[a] == m.names[a]);
                            assert(forall|a: int| 0 <= a < m.names.len() ==> #[trigger] m.names[a] != name@);
                            assert(distinct_names(ns1));
                        }
                    }
                    assert forall|i: int| 0 <= i < heap@.len()
                        implies #[trigger] chain_ends_some(heap@, i) by {
                        assert(chain_ends_some(old(heap)@, i));
                        lemma_chain_fuel(old(heap)@, i);
                        lemma_same_parents_chain(old(heap)@, heap@, i, chain_fuel(old(heap)@, i));
                    }
                }
                None
            },
        }
    }

    /// This record's own fields as column descriptors, in declaration order.
    pub fn local_signature(&self, heap: &StructHeap) -> (r: Vec<ColumnType>)
        requires
            heap.wf(),
            heap.valid(self.id as int),
        ensures
            r@.len() == heap@[self.id as int].names.len(),
            forall|i: int| 0 <= i < r@.len() ==> {
                &&& (#[trigger] r@[i]).name@ == heap@[self.id as int].names[i]
                &&& r@[i].cell_type == heap@[self.id as int].cells[i].typ()
            },
    {
        proof {
            assert(record_wf(heap@, self.id as int));
        }
        let node = &self.nodes_of(heap);
        let n = node.names.len();
        let mut out: Vec<ColumnType> = Vec::new();
        let mut i: usize = 0;
        while i < n
            invariant
                n == node@.names.len(),
                node@.names.len() == node@.cells.len(),
                node@ == heap@[self.id as int],
                i <= n,
                out@.len() == i,
                forall|m: int| 0 <= m < i ==> {
                    &&& (#[trigger] out@[m]).name@ == node@.names[m]
                    &&& out@[m].cell_type == node@.cells[m].typ()
                },
            decreases n - i,
        {
            let t = node.cells[i].value_type();
            out.push(ColumnType { name: node.names[i].clone(), cell_type: t });
            i = i + 1;
        }
        out
    }

    /// This record's own fields as ordered name/value pairs.
    pub fn local_elements(&self, heap: &StructHeap) -> (r: Vec<(String, Value)>)
        requires
            heap.wf(),
            heap.valid(self.id as int),
        ensures
            entry_pairs_model(r@) == heap@[self.id as int].own_pairs(),
    {
        proof {
            assert(record_wf(heap@, self.id as int));
        }
        let node = &self.nodes_of(heap);
        let n = node.names.len();
        let mut out: Vec<(String, Value)> = Vec::new();
        let mut i: usize = 0;
        while i < n
            invariant
                n == node@.names.len(),
                node@.names.len() == node@.cells.len(),
                node@ == heap@[self.id as int],
                i <= n,
                out@.len() == i,
                forall|m: int| 0 <= m < i ==> {
                    &&& (#[trigger] out@[m]).0@ == node@.names[m]
                    &&& out@[m].1.model() == node@.cells[m]
                },
            decreases n - i,
        {
            let v = node.cells[i].dup();
            out.push((node.names[i].clone(), v));
            i = i + 1;
        }
        proof {
            assert(entry_pairs_model(out@) =~= heap@[self.id as int].own_pairs());
        }
        out
    }

    /// This record's own cells as a row, in declaration order.
    pub fn to_row(&self, heap: &StructHeap) -> (r: Row)
        requires
            heap.wf(),
            heap.valid(self.id as int),
        ensures
            vals_model(r.cells) == heap@[self.id as int].cells,
    {
        Row { cells: self.to_vec(heap) }
    }

    /// This record's own cells, in declaration order.
    pub fn to_vec(&self, heap: &StructHeap) -> (r: Vec<Value>)
        requires
            heap.wf(),
            heap.valid(self.id as int),
        ensures
            vals_model(r) == heap@[self.id as int].cells,
    {
        proof {
            assert(record_wf(heap@, self.id as int));
        }
        let node = &self.nodes_of(heap);
        let r = dup_values(&node.cells);
        proof {
            assert(vals_model(r) =~= heap@[self.id as int].cells);
        }
        r
    }

    /// The fully merged visible field map: this record's own fields first,
    /// then every ancestor's fields that no nearer record shadows, with
    /// local values taking precedence over same-named ancestor values.
    pub fn map(&self, heap: &StructHeap) -> (r: Vec<(String, Value)>)
        requires
            heap.wf(),
            heap.valid(self.id as int),
        ensures
            entry_pairs_model(r@) == merged_pairs(heap@, self.id as int),
    {
        proof {
            assert(chain_ends_some(heap@, self.id as int));
            lemma_chain_fuel(heap@, self.id as int);
        }
        self.map_walk(heap, Ghost(chain_fuel(heap@, self.id as int)))
    }

    /// Builds the merged visible field map, spending one unit of chain fuel
    /// per delegation step.
    fn map_walk(&self, heap: &StructHeap, Ghost(fuel): Ghost<nat>) -> (r: Vec<(String, Value)>)
        requires
            heap.wf(),
            heap.valid(self.id as int),
            chain_ends(heap@, self.id as int, fuel),
        ensures
            entry_pairs_model(r@) == merged_pairs(heap@, self.id as int),
        decreases fuel,
    {
        let idx = self.id;
        let mut out = self.local_elements(heap);
        proof {
            assert(record_wf(heap@, idx as int));
            assert(chain_ends_some(heap@, idx as int));
            lemma_merged_unfold(heap@, idx as int);
        }
        let parent = heap.nodes[idx].parent;
        match parent {
            Some(p) => {
                let mut rest = p.map_walk(heap, Ghost((fuel - 1) as nat));
                let ghost restm = entry_pairs_model(rest@);
                let ghost pred = |pr: (Seq<char>, ValueModel)| name_index(heap@[idx as int].names, pr.0) == -1;
                let n = rest.len();
                let mut k: usize = 0;
                proof {
                    assert(restm.take(0) =~= Seq::<(Seq<char>, ValueModel)>::empty());
                    reveal_with_fuel(Seq::<(Seq<char>, ValueModel)>::filter, 1);
                    assert(entry_pairs_model(out@) + restm.take(0).filter(pred)
                        =~= entry_pairs_model(out@));
                }
                while k < n
                    invariant
                        n == rest@.len(),
                        k <= n,
                        heap.wf(),
                        heap.valid(idx as int),
                        restm == entry_pairs_model(rest@),
                        pred == (|pr: (Seq<char>, ValueModel)| name_index(heap@[idx as int].names, pr.0) == -1),
                        entry_pairs_model(out@) == heap@[idx as int].own_pairs() + restm.take(k as int).filter(pred),
                    decreases n - k,
                {
                    let ghost before = entry_pairs_model(out@);
                    let keep = match heap.find_field(idx, rest[k].0.as_str()) {
                        Some(_) => false,
                        None => true,
                    };
                    if keep {
                        let v = rest[k].1.dup();
                        out.push((rest[k].0.clone(), v));
                        proof {
                            assert(entry_pairs_model(out@) =~= before.push(restm[k as int]));
                        }
                    }
                    proof {
                        reveal_with_fuel(Seq::<(Seq<char>, ValueModel)>::filter, 2);
                        assert(restm.take(k as int + 1).drop_last() =~= restm.take(k as int));
                        assert(restm.take(k as int + 1).last() == restm[k as int]);
                        assert(pred(restm[k as int]) == keep);
                        assert(restm.take(k as int + 1).filter(pred) == if pred(restm[k as int]) {
                            restm.take(k as int).filter(pred).push(restm[k as int])
                        } else {
                            restm.take(k as int).filter(pred)
                        });
                    }
                    k = k + 1;
                }
                proof {
                    assert(restm.take(n as int) =~= restm);
                    assert(merged_pairs(heap@, idx as int) == heap@[idx as int].own_pairs()
                        + restm.filter(pred));
                }
            },
            None => {
                proof {
                    reveal_with_fuel(Seq::<(Seq<char>, ValueModel)>::filter, 1);
                    assert(merged_pairs(heap@, idx as int) =~= heap@[idx as int].own_pairs()
                        + Seq::<(Seq<char>, ValueModel)>::empty().filter(
                            |pr: (Seq<char>, ValueModel)| name_index(heap@[idx as int].names, pr.0) == -1,
                        ));
                }
            },
        }
        out
    }

    /// The union of this record's and every ancestor's field names, without
    /// duplicates: the nearest declaration decides a name's position.
    pub fn keys(&self, heap: &StructHeap) -> (r: Vec<String>)
        requires
            heap.wf(),
            heap.valid(self.id as int),
        ensures
            strs_model(r) == merged_pairs(heap@, self.id as int).map_values(
                |pr: (Seq<char>, ValueModel)| pr.0,
            ),
    {
        let m = self.map(heap);
        let n = m.len();
        let mut out: Vec<String> = Vec::new();
        let mut i: usize = 0;
        while i < n
            invariant
                n == m@.len(),
                i <= n,
                out@.len() == i,
                forall|j: int| 0 <= j < i ==> (#[trigger] out@[j])@ == m@[j].0@,
            decreases n - i,
        {
            out.push(m[i].0.clone());
            i = i + 1;
        }
        proof {
            assert(strs_model(out) =~= entry_pairs_model(m@).map_values(
                |pr: (Seq<char>, ValueModel)| pr.0,
            ));
        }
        out
    }

    /// A deep copy of this record's own cells into a fresh record that keeps
    /// the same delegation parent; the parent itself is not copied.
    pub fn materialize(&self, heap: &mut StructHeap) -> (s: Struct)
        requires
            old(heap).wf(),
            old(heap).valid(self.id as int),
        ensures
            final(heap).wf(),
            s.id == old(heap)@.len(),
            final(heap)@ == old(heap)@.push(old(heap)@[self.id as int]),
    {
        let idx = self.id;
        proof {
            assert(record_wf(heap@, idx as int));
        }
        let parent = heap.nodes[idx].parent;
        let names = crate::value::dup_strings(&heap.nodes[idx].names);
        let cells = dup_values(&heap.nodes[idx].cells);
        let node = StructData { parent, names, cells };
        proof {
            assert(node@ =~~= old(heap)@[idx as int]);
        }
        heap.attach(node)
    }

    /// Re-targets the delegation parent. An edge that would make the
    /// delegation chain cyclic — one whose parent chain already passes
    /// through this record — is rejected and nothing changes; every other
    /// re-target, including one to a record created later, is applied.
    pub fn set_parent(&self, heap: &mut StructHeap, parent: Option<Struct>) -> (r: CrushResult<()>)
        requires
            old(heap).wf(),
            old(heap).valid(self.id as int),
            match parent {
                Some(p) => old(heap).valid(p.id as int),
                None => true,
            },
        ensures
            final(heap).wf(),
            match parent {
                None => {
                    &&& r == Ok::<(), CrushError>(())
                    &&& final(heap)@ == old(heap)@.update(
                        self.id as int,
                        StructModel { parent: None, ..old(heap)@[self.id as int] },
                    )
                },
                Some(p) => {
                    if reaches(old(heap)@, p.id as int, self.id as int) {
                        &&& r == Err::<(), CrushError>(CrushError::Generic)
                        &&& final(heap)@ == old(heap)@
                    } else {
                        &&& r == Ok::<(), CrushError>(())
                        &&& final(heap)@ == old(heap)@.update(
                            self.id as int,
                            StructModel { parent: Some(p.id as int), ..old(heap)@[self.id as int] },
                        )
                    }
                },
            },
    {
        let idx = self.id;
        if let Some(p) = parent {
            proof {
                assert(chain_ends_some(heap@, p.id as int));
                lemma_chain_fuel(heap@, p.id as int);
            }
            let hit = heap.chain_hits_walk(p, idx, Ghost(chain_fuel(heap@, p.id as int)));
            if hit {
                return Err(CrushError::Generic);
            }
        }
        let mut node = heap.nodes.remove(idx);
        node.parent = parent;
        heap.nodes.insert(idx, node);
        proof {
            let h1 = old(heap)@;
            let h2 = heap@;
            let m = h1[idx as int];
            assert(h2 =~~= h1.update(
                idx as int,
                StructModel {
                    parent: match parent {
                        Some(p) => Some(p.id as int),
                        None => None,
                    },
                    ..m
                },
            ));
            assert forall|i: int| 0 <= i < h2.len() implies #[trigger] record_wf(h2, i) by {
                assert(record_wf(h1, i));
            }
            assert(chain_ends_some(h2, idx as int)) by {
                match parent {
                    Some(p) => {
                        lemma_chain_fuel(h1, p.id as int);
                        let fp = chain_fuel(h1, p.id as int);
                        lemma_retarget_chain_same(h1, h2, idx as int, p.id as int, fp);
                        assert(chain_ends(h2, idx as int, fp + 1));
                    },
                    None => {
                        assert(chain_ends(h2, idx as int, 0));
                    },
                }
            }
            assert forall|i: int| 0 <= i < h2.len()
                implies #[trigger] chain_ends_some(h2, i) by {
                assert(chain_ends_some(h1, i));
                lemma_chain_fuel(h1, i);
                lemma_retarget_node_chain(h1, h2, idx as int, i, chain_fuel(h1, i));
            }
        }
        Ok(())
    }

    /// The record node behind this handle.
    fn nodes_of<'a>(&self, heap: &'a StructHeap) -> (r: &'a StructData)
        requires
            heap.valid(self.id as int),
        ensures
            r@ == heap@[self.id as int],
    {
        &heap.nodes[self.id]
    }
}

/// The smaller of two lengths.
pub open spec fn min_len(a: int, b: int) -> int {
    if a <= b {
        a
    } else {
        b
    }
}

/// The models of a sequence of values.
pub open spec fn vals_model_of(s: Seq<Value>) -> Seq<ValueModel> {
    Seq::new(s.len(), |i: int| s[i].model())
}


/// Relied-on outside type: `chrono::TimeDelta` (aliased `chrono::Duration`),
/// the duration type the timed stream read accepts. The core never inspects
/// it: a record-backed stream resolves immediately, so the timeout is
/// ignored.
#[verifier::external_type_specification]
#[verifier::external_body]
pub struct ExTimeDelta(chrono::TimeDelta);

/// The state of a record stream, as contracts speak of it.
#[verifier::ext_equal]
pub struct StructReaderModel {
    /// How many rows have been read.
    pub idx: int,
    /// The (name, value) rows, in order; a consumed slot is surrendered.
    pub rows: Seq<(Seq<char>, ValueModel)>,
}

/// A record as a stream: the fully merged visible field map, resolved once
/// at construction, exposed as an ordered, non-restartable stream of
/// two-column (name, value) rows.
pub struct StructReader {
    idx: usize,
    rows: Vec<(String, Value)>,
}

impl View for StructReader {
    type V = StructReaderModel;

    closed spec fn view(&self) -> StructReaderModel {
        StructReaderModel { idx: self.idx as int, rows: entry_pairs_model(self.rows@) }
    }
}

impl StructReader {
    /// A stream over the fully merged visible field map of `s`.
    pub fn new(s: Struct, heap: &StructHeap) -> (r: StructReader)
        requires
            heap.wf(),
            heap.valid(s.id as int),
        ensures
            r@.idx == 0,
            r@.rows == merged_pairs(heap@, s.id as int),
    {
        let rows = s.map(heap);
        StructReader { idx: 0, rows }
    }

    /// Reads the next (name, value) row, or fails with `EndOfStream` once
    /// every row has been read.
    pub fn read(&mut self) -> (r: Result<Row, CrushError>)
        ensures
            old(self)@.idx < old(self)@.rows.len() ==> {
                &&& match r {
                    Ok(row) => vals_model(row.cells) =~= seq![
                        ValueModel::String(old(self)@.rows[old(self)@.idx].0),
                        old(self)@.rows[old(self)@.idx].1,
                    ],
                    Err(_) => false,
                }
                &&& final(self)@.idx == old(self)@.idx + 1
                &&& final(self)@.rows == old(self)@.rows.update(
                    old(self)@.idx,
                    (Seq::<char>::empty(), ValueModel::Empty),
                )
            },
            old(self)@.idx >= old(self)@.rows.len() ==> {
                &&& r == Err::<Row, CrushError>(CrushError::EndOfStream)
                &&& final(self)@ == old(self)@
            },
    {
        if self.idx >= self.rows.len() {
            return Err(CrushError::EndOfStream);
        }
        let pos = self.idx;
        let (k, v) = self.rows.remove(pos);
        self.rows.insert(pos, (String::new(), Value::Empty));
        self.idx = pos + 1;
        let mut cells: Vec<Value> = Vec::new();
        cells.push(Value::String(k));
        cells.push(v);
        proof {
            assert(entry_pairs_model(self.rows@) =~= old(self)@.rows.update(
                pos as int,
                (Seq::<char>::empty(), ValueModel::Empty),
            ));
        }
        Ok(Row { cells })
    }

    /// A timed read: record-backed streams never wait, so the timeout is
    /// ignored and any failure is reported as a disconnected stream.
    pub fn read_timeout(&mut self, _timeout: chrono::Duration) -> (r: Result<Row, RecvTimeoutError>)
        ensures
            old(self)@.idx < old(self)@.rows.len() ==> {
                &&& match r {
                    Ok(row) => vals_model(row.cells) =~= seq![
                        ValueModel::String(old(self)@.rows[old(self)@.idx].0),
                        old(self)@.rows[old(self)@.idx].1,
                    ],
                    Err(_) => false,
                }
                &&& final(self)@.idx == old(self)@.idx + 1
                &&& final(self)@.rows == old(self)@.rows.update(
                    old(self)@.idx,
                    (Seq::<char>::empty(), ValueModel::Empty),
                )
            },
            old(self)@.idx >= old(self)@.rows.len() ==> {
                &&& r == Err::<Row, RecvTimeoutError>(RecvTimeoutError::Disconnected)
                &&& final(self)@ == old(self)@
            },
    {
        match self.read() {
            Ok(r) => Ok(r),
            Err(_) => Err(RecvTimeoutError::Disconnected),
        }
    }

    /// The column descriptors of this stream: a name column of strings and a
    /// value column accepting any type.
    pub fn types(&self) -> (r: Vec<ColumnType>)
        ensures
            r@.len() == 2,
            r@[0].name@ == "name"@,
            r@[0].cell_type == ValueType::String,
            r@[1].name@ == "value"@,
            r@[1].cell_type == ValueType::Any,
    {
        struct_stream_types()
    }
}


/// The column descriptors of every record stream: a name column of strings
/// and a value column accepting any type.
pub fn struct_stream_types() -> (r: Vec<ColumnType>)
    ensures
        r@.len() == 2,
        r@[0].name@ == "name"@,
        r@[0].cell_type == ValueType::String,
        r@[1].name@ == "value"@,
        r@[1].cell_type == ValueType::Any,
{
    let mut cols: Vec<ColumnType> = Vec::new();
    cols.push(ColumnType::new("name", ValueType::String));
    cols.push(ColumnType::new("value", ValueType::Any));
    cols
}


/// Record equality is shallow and local-only: the local cell sequences are
/// pairwise equal under value equality and the name-to-index maps agree on
/// every name's index; ancestor chains are not compared.
pub open spec fn struct_local_eq(ma: StructModel, mb: StructModel) -> bool {
    &&& ma.cells.len() == mb.cells.len()
    &&& ma.names == mb.names
    &&& forall|i: int| 0 <= i < ma.cells.len()
        ==> val_eq_spec(#[trigger] ma.cells[i], mb.cells[i])
}

impl Struct {
    /// Whether two records are equal: their local cells are pairwise equal
    /// and their field tables assign every name the same position. Parents
    /// play no part. A cell holding a record compares by handle identity,
    /// and a cell holding a command never compares equal.
    pub fn equals(&self, other: &Struct, heap: &StructHeap) -> (r: bool)
        requires
            heap.wf(),
            heap.valid(self.id as int),
            heap.valid(other.id as int),
        ensures
            r == struct_local_eq(heap@[self.id as int], heap@[other.id as int]),
    {
        proof {
            assert(record_wf(heap@, self.id as int));
            assert(record_wf(heap@, other.id as int));
        }
        let a = &heap.nodes[self.id];
        let b = &heap.nodes[other.id];
        if a.cells.len() != b.cells.len() {
            return false;
        }
        if !strs_eq(&a.names, &b.names) {
            return false;
        }
        let n = a.cells.len();
        let mut i: usize = 0;
        while i < n
            invariant
                n == a@.cells.len() == b@.cells.len(),
                i <= n,
                a@ == heap@[self.id as int],
                b@ == heap@[other.id as int],
                forall|m: int| 0 <= m < i
                    ==> val_eq_spec(#[trigger] a@.cells[m], b@.cells[m]),
            decreases n - i,
        {
            if !val_eq(&a.cells[i], &b.cells[i]) {
                proof {
                    assert(!val_eq_spec(a@.cells[i as int], b@.cells[i as int]));
                }
                return false;
            }
            i = i + 1;
        }
        true
    }
}


impl StructHeap {
    /// Walks the delegation chain from `from` and reports whether it passes
    /// through record `target`, spending one unit of chain fuel per step.
    fn chain_hits_walk(&self, from: Struct, target: usize, Ghost(fuel): Ghost<nat>) -> (r: bool)
        requires
            self.wf(),
            self.valid(from.id as int),
            chain_ends(self@, from.id as int, fuel),
        ensures
            r == chain_hits(self@, from.id as int, target as int, fuel),
        decreases fuel,
    {
        if from.id == target {
            return true;
        }
        proof {
            assert(record_wf(self@, from.id as int));
        }
        let parent = self.nodes[from.id].parent;
        match parent {
            Some(q) => self.chain_hits_walk(q, target, Ghost((fuel - 1) as nat)),
            None => false,
        }
    }
}


/// The content hash of record `s`, walking at most `f` parent steps: the
/// local cells' hashes folded together, mixed with a contribution derived
/// recursively from the parent.
pub open spec fn record_hash_fuel(h: Seq<StructModel>, s: int, f: nat) -> int
    decreases f,
{
    if s < 0 || s >= h.len() {
        23
    } else {
        let own = crate::value::vm_seq_hash(h[s].cells, 0);
        let par = match h[s].parent {
            None => 25,
            Some(p) => if f > 0 {
                record_hash_fuel(h, p, (f - 1) as nat)
            } else {
                25
            },
        };
        crate::value::hash_mix(own, par)
    }
}

/// The content hash of record `s`: local cell hashes plus the parent's,
/// recursively. Field names are deliberately not hashed, so the hash is
/// coarser than the equality relation (which compares names): two records
/// that differ only in field names collide. This keeps the established
/// behaviour of the hash rather than strengthening it.
pub open spec fn record_hash(h: Seq<StructModel>, s: int) -> int {
    record_hash_fuel(h, s, chain_fuel(h, s))
}

impl Struct {
    /// Computes the content hash of this record: the local cell values'
    /// hashes combined with a contribution recursively derived from the
    /// parent. Unlike equality, the hash does not factor in field names.
    pub fn hash_code(&self, heap: &StructHeap) -> (r: u64)
        requires
            heap.wf(),
            heap.valid(self.id as int),
        ensures
            r as int == record_hash(heap@, self.id as int),
    {
        proof {
            assert(chain_ends_some(heap@, self.id as int));
            lemma_chain_fuel(heap@, self.id as int);
        }
        self.hash_walk(heap, Ghost(chain_fuel(heap@, self.id as int)))
    }

    /// Walks the delegation chain computing the record hash, spending one
    /// unit of chain fuel per delegation step.
    fn hash_walk(&self, heap: &StructHeap, Ghost(fuel): Ghost<nat>) -> (r: u64)
        requires
            heap.wf(),
            heap.valid(self.id as int),
            chain_ends(heap@, self.id as int, fuel),
        ensures
            r as int == record_hash_fuel(heap@, self.id as int, fuel),
            r < 0x1_0000_0000,
        decreases fuel,
    {
        let idx = self.id;
        proof {
            assert(record_wf(heap@, idx as int));
        }
        let own = crate::value::values_hash(&heap.nodes[idx].cells);
        let parent = heap.nodes[idx].parent;
        let par: u64 = match parent {
            None => 25,
            Some(p) => p.hash_walk(heap, Ghost((fuel - 1) as nat)),
        };
        (own * 31 + par) % 0x1_0000_0000
    }
}

} // verus!
