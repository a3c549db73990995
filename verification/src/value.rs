//! The minimal value model the core needs: a tagged value, its runtime type
//! tag, and the row/column typing used when a value is iterated as rows.
//!
//! The full value system of the surrounding language is an external
//! collaborator; this core only needs type-tag equality and enough variants
//! to bind arguments, delegate record fields and drive pipelines.

use vstd::prelude::*;
use crate::command::CrushCommand;
use crate::record::Struct;

verus! {

broadcast use vstd::std_specs::vec::axiom_vec_index_decreases;

/// Runtime type tag of a `Value`.
#[derive(Clone, Copy, Debug, PartialEq, Eq, Structural)]
pub enum ValueType {
    String,
    Integer,
    Bool,
    Field,
    Command,
    Type,
    List,
    Dict,
    Struct,
    File,
    Empty,
    /// The wildcard column type: any value fits such a column.
    Any,
}

/// A value of the command language, reduced to what this core operates on.
///
/// A `Struct` cell holds a handle into a `StructHeap` arena, so distinct
/// values may share one mutable record backing, as the language requires.
pub enum Value {
    String(String),
    Integer(i128),
    Bool(bool),
    /// A field path, e.g. the dotted name a cell is addressed by.
    Field(Vec<String>),
    Command(CrushCommand),
    Type(ValueType),
    List(Vec<Value>),
    Dict(Vec<(Value, Value)>),
    Struct(Struct),
    File(String),
    Empty,
}

impl Value {
    /// The runtime type tag of this value.
    pub open spec fn typ(self) -> ValueType {
        match self {
            Value::String(_) => ValueType::String,
            Value::Integer(_) => ValueType::Integer,
            Value::Bool(_) => ValueType::Bool,
            Value::Field(_) => ValueType::Field,
            Value::Command(_) => ValueType::Command,
            Value::Type(_) => ValueType::Type,
            Value::List(_) => ValueType::List,
            Value::Dict(_) => ValueType::Dict,
            Value::Struct(_) => ValueType::Struct,
            Value::File(_) => ValueType::File,
            Value::Empty => ValueType::Empty,
        }
    }

    /// Returns the runtime type tag; reassignment in a scope is rejected when
    /// the tags of the old and the new value differ.
    pub fn value_type(&self) -> (t: ValueType)
        ensures
            t == self.typ(),
    {
        match self {
            Value::String(_) => ValueType::String,
            Value::Integer(_) => ValueType::Integer,
            Value::Bool(_) => ValueType::Bool,
            Value::Field(_) => ValueType::Field,
            Value::Command(_) => ValueType::Command,
            Value::Type(_) => ValueType::Type,
            Value::List(_) => ValueType::List,
            Value::Dict(_) => ValueType::Dict,
            Value::Struct(_) => ValueType::Struct,
            Value::File(_) => ValueType::File,
            Value::Empty => ValueType::Empty,
        }
    }
}

/// Compares two string slices by their character sequences.
pub fn str_eq(a: &str, b: &str) -> (r: bool)
    ensures
        r == (a@ == b@),
{
    let oa: String = a.to_owned();
    let ob: String = b.to_owned();
    oa == ob
}

/// The name and type of one column of a row stream.
pub struct ColumnType {
    pub name: String,
    pub cell_type: ValueType,
}

impl ColumnType {
    /// A column descriptor with the given name and cell type.
    pub fn new(name: &str, cell_type: ValueType) -> (c: ColumnType)
        ensures
            c.name@ == name@,
            c.cell_type == cell_type,
    {
        ColumnType { name: name.to_owned(), cell_type }
    }
}

/// One row of a stream: an ordered sequence of cells.
pub struct Row {
    pub cells: Vec<Value>,
}

impl Row {
    /// A row holding exactly the given cells.
    pub fn new(cells: Vec<Value>) -> (r: Row)
        ensures
            r.cells == cells,
    {
        Row { cells }
    }

    /// Surrenders the cells of this row.
    pub fn into_vec(self) -> (r: Vec<Value>)
        ensures
            r == self.cells,
    {
        self.cells
    }
}


/// The mathematical shape of a `Value`: strings as character sequences,
/// vectors as sequences, record handles as arena indexes. Two values with
/// the same model hold the same data.
pub enum ValueModel {
    String(Seq<char>),
    Integer(int),
    Bool(bool),
    Field(Seq<Seq<char>>),
    Command(crate::command::CommandModel),
    Type(ValueType),
    List(Seq<ValueModel>),
    Dict(Seq<(ValueModel, ValueModel)>),
    Struct(int),
    File(Seq<char>),
    Empty,
}

impl Value {
    /// The mathematical shape of this value.
    pub open spec fn model(self) -> ValueModel
        decreases self,
    {
        match self {
            Value::String(s) => ValueModel::String(s@),
            Value::Integer(i) => ValueModel::Integer(i as int),
            Value::Bool(b) => ValueModel::Bool(b),
            Value::Field(p) => ValueModel::Field(strs_model(p)),
            Value::Command(c) => ValueModel::Command(c.model()),
            Value::Type(t) => ValueModel::Type(t),
            Value::List(vs) => ValueModel::List(vals_model(vs)),
            Value::Dict(ps) => ValueModel::Dict(pairs_model(ps)),
            Value::Struct(s) => ValueModel::Struct(s.id as int),
            Value::File(f) => ValueModel::File(f@),
            Value::Empty => ValueModel::Empty,
        }
    }
}

/// The models of a vector of strings.
pub open spec fn strs_model(v: Vec<String>) -> Seq<Seq<char>> {
    Seq::new(v@.len(), |i: int| v@[i]@)
}

/// The models of a vector of values.
pub open spec fn vals_model(v: Vec<Value>) -> Seq<ValueModel>
    decreases v,
{
    Seq::new(v@.len(), |i: int| if 0 <= i < v@.len() {
        v@[i].model()
    } else {
        ValueModel::Empty
    })
}

/// The models of a vector of value pairs.
pub open spec fn pairs_model(v: Vec<(Value, Value)>) -> Seq<(ValueModel, ValueModel)>
    decreases v,
{
    Seq::new(v@.len(), |i: int| if 0 <= i < v@.len() {
        (v@[i].0.model(), v@[i].1.model())
    } else {
        (ValueModel::Empty, ValueModel::Empty)
    })
}

impl ValueModel {
    /// The runtime type tag a value with this model carries.
    pub open spec fn typ(self) -> ValueType {
        match self {
            ValueModel::String(_) => ValueType::String,
            ValueModel::Integer(_) => ValueType::Integer,
            ValueModel::Bool(_) => ValueType::Bool,
            ValueModel::Field(_) => ValueType::Field,
            ValueModel::Command(_) => ValueType::Command,
            ValueModel::Type(_) => ValueType::Type,
            ValueModel::List(_) => ValueType::List,
            ValueModel::Dict(_) => ValueType::Dict,
            ValueModel::Struct(_) => ValueType::Struct,
            ValueModel::File(_) => ValueType::File,
            ValueModel::Empty => ValueType::Empty,
        }
    }
}

/// Duplicates a vector of strings.
pub fn dup_strings(v: &Vec<String>) -> (r: Vec<String>)
    ensures
        strs_model(*v) == strs_model(r),
{
    let mut out: Vec<String> = Vec::new();
    let n = v.len();
    let mut i: usize = 0;
    while i < n
        invariant
            n == v@.len(),
            i <= n,
            out@.len() == i,
            forall|m: int| 0 <= m < i ==> (#[trigger] out@[m])@ == v@[m]@,
        decreases n - i,
    {
        out.push(v[i].clone());
        i = i + 1;
    }
    proof {
        assert(strs_model(*v) =~= strs_model(out));
    }
    out
}

/// Duplicates a vector of values.
pub fn dup_values(v: &Vec<Value>) -> (r: Vec<Value>)
    ensures
        vals_model(*v) == vals_model(r),
    decreases *v,
{
    let mut out: Vec<Value> = Vec::new();
    let n = v.len();
    let mut i: usize = 0;
    while i < n
        invariant
            n == v@.len(),
            i <= n,
            out@.len() == i,
            forall|m: int| 0 <= m < i ==> (#[trigger] out@[m]).model() == v@[m].model(),
        decreases n - i,
    {
        let e = v[i].dup();
        out.push(e);
        i = i + 1;
    }
    proof {
        assert(vals_model(*v) =~= vals_model(out));
    }
    out
}

/// Duplicates a vector of value pairs.
pub fn dup_value_pairs(v: &Vec<(Value, Value)>) -> (r: Vec<(Value, Value)>)
    ensures
        pairs_model(*v) == pairs_model(r),
    decreases *v,
{
    let mut out: Vec<(Value, Value)> = Vec::new();
    let n = v.len();
    let mut i: usize = 0;
    while i < n
        invariant
            n == v@.len(),
            i <= n,
            out@.len() == i,
            forall|m: int| 0 <= m < i ==> (#[trigger] out@[m]).0.model() == v@[m].0.model()
                && (#[trigger] out@[m]).1.model() == v@[m].1.model(),
        decreases n - i,
    {
        let k = v[i].0.dup();
        let val = v[i].1.dup();
        out.push((k, val));
        i = i + 1;
    }
    proof {
        assert(pairs_model(*v) =~= pairs_model(out));
    }
    out
}

impl Value {
    /// An independent deep copy: the duplicate holds the same data, and a
    /// record handle in it still shares the same record backing.
    pub fn dup(&self) -> (r: Value)
        ensures
            r.model() == self.model(),
        decreases self,
    {
        match self {
            Value::String(s) => Value::String(s.clone()),
            Value::Integer(i) => Value::Integer(*i),
            Value::Bool(b) => Value::Bool(*b),
            Value::Field(p) => Value::Field(dup_strings(p)),
            Value::Command(c) => Value::Command(c.dup()),
            Value::Type(t) => Value::Type(*t),
            Value::List(vs) => Value::List(dup_values(vs)),
            Value::Dict(ps) => Value::Dict(dup_value_pairs(ps)),
            Value::Struct(s) => Value::Struct(Struct { id: s.id }),
            Value::File(f) => Value::File(f.clone()),
            Value::Empty => Value::Empty,
        }
    }
}


/// Value equality, as the language compares cells: scalars and paths by
/// content, lists and mappings elementwise, record handles by identity (two
/// handles to one shared backing are equal; distinct backings are not
/// compared further), and command cells never compare equal.
pub open spec fn val_eq_spec(a: ValueModel, b: ValueModel) -> bool
    decreases a,
{
    match (a, b) {
        (ValueModel::String(x), ValueModel::String(y)) => x == y,
        (ValueModel::Integer(x), ValueModel::Integer(y)) => x == y,
        (ValueModel::Bool(x), ValueModel::Bool(y)) => x == y,
        (ValueModel::Field(x), ValueModel::Field(y)) => x == y,
        (ValueModel::Type(x), ValueModel::Type(y)) => x == y,
        (ValueModel::File(x), ValueModel::File(y)) => x == y,
        (ValueModel::Empty, ValueModel::Empty) => true,
        (ValueModel::Struct(x), ValueModel::Struct(y)) => x == y,
        (ValueModel::List(x), ValueModel::List(y)) => {
            &&& x.len() == y.len()
            &&& forall|i: int| 0 <= i < x.len() ==> val_eq_spec(#[trigger] x[i], y[i])
        },
        (ValueModel::Dict(x), ValueModel::Dict(y)) => {
            &&& x.len() == y.len()
            &&& forall|i: int| 0 <= i < x.len()
                ==> val_eq_spec((#[trigger] x[i]).0, y[i].0) && val_eq_spec(x[i].1, y[i].1)
        },
        _ => false,
    }
}

/// Compares two string vectors by their character sequences.
pub fn strs_eq(a: &Vec<String>, b: &Vec<String>) -> (r: bool)
    ensures
        r == (strs_model(*a) == strs_model(*b)),
{
    if a.len() != b.len() {
        proof {
            assert(strs_model(*a).len() != strs_model(*b).len());
        }
        return false;
    }
    let n = a.len();
    let mut i: usize = 0;
    while i < n
        invariant
            n == a@.len() == b@.len(),
            i <= n,
            forall|m: int| 0 <= m < i ==> (#[trigger] a@[m])@ == b@[m]@,
        decreases n - i,
    {
        if !str_eq(a[i].as_str(), b[i].as_str()) {
            proof {
                assert(strs_model(*a)[i as int] != strs_model(*b)[i as int]);
            }
            return false;
        }
        i = i + 1;
    }
    proof {
        assert(strs_model(*a) =~= strs_model(*b));
    }
    true
}

/// Compares two value vectors elementwise under `val_eq_spec`.
pub fn vals_eq(a: &Vec<Value>, b: &Vec<Value>) -> (r: bool)
    ensures
        r == (vals_model(*a).len() == vals_model(*b).len()
            && forall|i: int| 0 <= i < vals_model(*a).len()
                ==> val_eq_spec(#[trigger] vals_model(*a)[i], vals_model(*b)[i])),
    decreases *a,
{
    if a.len() != b.len() {
        return false;
    }
    let n = a.len();
    let mut i: usize = 0;
    while i < n
        invariant
            n == a@.len() == b@.len(),
            i <= n,
            forall|m: int| 0 <= m < i
                ==> val_eq_spec(#[trigger] vals_model(*a)[m], vals_model(*b)[m]),
        decreases n - i,
    {
        if !val_eq(&a[i], &b[i]) {
            proof {
                assert(!val_eq_spec(vals_model(*a)[i as int], vals_model(*b)[i as int]));
            }
            return false;
        }
        i = i + 1;
    }
    true
}

/// Compares two pair vectors elementwise under `val_eq_spec`.
pub fn pairs_eq(a: &Vec<(Value, Value)>, b: &Vec<(Value, Value)>) -> (r: bool)
    ensures
        r == (pairs_model(*a).len() == pairs_model(*b).len()
            && forall|i: int| 0 <= i < pairs_model(*a).len()
                ==> val_eq_spec((#[trigger] pairs_model(*a)[i]).0, pairs_model(*b)[i].0)
                    && val_eq_spec(pairs_model(*a)[i].1, pairs_model(*b)[i].1)),
    decreases *a,
{
    if a.len() != b.len() {
        return false;
    }
    let n = a.len();
    let mut i: usize = 0;
    while i < n
        invariant
            n == a@.len() == b@.len(),
            i <= n,
            forall|m: int| 0 <= m < i
                ==> val_eq_spec((#[trigger] pairs_model(*a)[m]).0, pairs_model(*b)[m].0)
                    && val_eq_spec(pairs_model(*a)[m].1, pairs_model(*b)[m].1),
        decreases n - i,
    {
        let keys_eq = val_eq(&a[i].0, &b[i].0);
        let values_equal = val_eq(&a[i].1, &b[i].1);
        if !keys_eq || !values_equal {
            proof {
                assert(!(val_eq_spec(pairs_model(*a)[i as int].0, pairs_model(*b)[i as int].0)
                    && val_eq_spec(pairs_model(*a)[i as int].1, pairs_model(*b)[i as int].1)));
            }
            return false;
        }
        i = i + 1;
    }
    true
}

/// Decides `val_eq_spec` on two values.
pub fn val_eq(a: &Value, b: &Value) -> (r: bool)
    ensures
        r == val_eq_spec(a.model(), b.model()),
    decreases a,
{
    match (a, b) {
        (Value::String(x), Value::String(y)) => str_eq(x.as_str(), y.as_str()),
        (Value::Integer(x), Value::Integer(y)) => *x == *y,
        (Value::Bool(x), Value::Bool(y)) => *x == *y,
        (Value::Field(x), Value::Field(y)) => strs_eq(x, y),
        (Value::Type(x), Value::Type(y)) => *x == *y,
        (Value::File(x), Value::File(y)) => str_eq(x.as_str(), y.as_str()),
        (Value::Empty, Value::Empty) => true,
        (Value::Struct(x), Value::Struct(y)) => x.id == y.id,
        (Value::List(x), Value::List(y)) => vals_eq(x, y),
        (Value::Dict(x), Value::Dict(y)) => pairs_eq(x, y),
        _ => false,
    }
}


/// One mixing step of the crate's content hash.
pub open spec fn hash_mix(a: int, b: int) -> int {
    (a * 31 + b) % 0x1_0000_0000
}

/// The hash contribution of an integer cell: a nonnegative residue that
/// depends on the integer alone.
pub open spec fn int_contrib(i: int) -> int {
    if i >= 0 {
        i % 65521
    } else {
        65520 - ((0 - (i + 1)) % 65521)
    }
}

/// The hash contribution of a type tag.
pub open spec fn type_contrib(t: ValueType) -> int {
    match t {
        ValueType::String => 1,
        ValueType::Integer => 2,
        ValueType::Bool => 3,
        ValueType::Field => 4,
        ValueType::Command => 5,
        ValueType::Type => 6,
        ValueType::List => 7,
        ValueType::Dict => 8,
        ValueType::Struct => 9,
        ValueType::File => 10,
        ValueType::Empty => 11,
        ValueType::Any => 12,
    }
}

/// The content hash of one value. Scalars contribute their content (an
/// integer its residue, a boolean its truth value, a type its tag), lists
/// and mappings fold over their elements, and a record cell contributes the
/// identity of its shared backing. Text cells contribute their variant tag
/// alone, and command cells a fixed tag: the hash is deliberately coarser
/// than value equality, which the equality relation permits.
pub open spec fn vm_hash(v: ValueModel) -> int
    decreases v, 0nat,
{
    match v {
        ValueModel::String(_) => 13,
        ValueModel::Integer(i) => hash_mix(2, int_contrib(i)),
        ValueModel::Bool(b) => hash_mix(3, if b { 1 } else { 0 }),
        ValueModel::Field(p) => hash_mix(4, p.len() as int % 0x1_0000_0000),
        ValueModel::Command(_) => 15,
        ValueModel::Type(t) => hash_mix(6, type_contrib(t)),
        ValueModel::List(xs) => hash_mix(7, vm_seq_hash(xs, 0)),
        ValueModel::Dict(ps) => hash_mix(8, vm_pairs_hash(ps, 0)),
        ValueModel::Struct(id) => hash_mix(9, id % 0x1_0000_0000),
        ValueModel::File(_) => 16,
        ValueModel::Empty => 17,
    }
}

/// Folds the content hash over the elements of a value sequence, from
/// position `i` on.
pub open spec fn vm_seq_hash(s: Seq<ValueModel>, i: int) -> int
    decreases s, s.len() - i,
{
    if i < 0 || i >= s.len() {
        19
    } else {
        hash_mix(vm_hash(s[i]), vm_seq_hash(s, i + 1))
    }
}

/// Folds the content hash over the entries of a pair sequence, from
/// position `i` on.
pub open spec fn vm_pairs_hash(s: Seq<(ValueModel, ValueModel)>, i: int) -> int
    decreases s, s.len() - i,
{
    if i < 0 || i >= s.len() {
        21
    } else {
        hash_mix(hash_mix(vm_hash(s[i].0), vm_hash(s[i].1)), vm_pairs_hash(s, i + 1))
    }
}

/// Computes `vm_hash` of one value.
pub fn value_hash(v: &Value) -> (r: u64)
    ensures
        r as int == vm_hash(v.model()),
    decreases v, 0nat,
{
    match v {
        Value::String(_) => 13,
        Value::Integer(i) => {
            let x = *i;
            let c: u64 = if x >= 0 {
                (x % 65521) as u64
            } else {
                65520 - ((0 - (x + 1)) % 65521) as u64
            };
            (2u64 * 31 + c) % 0x1_0000_0000
        },
        Value::Bool(b) => {
            let c: u64 = if *b { 1 } else { 0 };
            (3u64 * 31 + c) % 0x1_0000_0000
        },
        Value::Field(p) => {
            let c = (p.len() as u64) % 0x1_0000_0000;
            proof {
                assert(strs_model(*p).len() == p@.len());
            }
            (4u64 * 31 + c) % 0x1_0000_0000
        },
        Value::Command(_) => 15,
        Value::Type(t) => {
            let c: u64 = match t {
                ValueType::String => 1,
                ValueType::Integer => 2,
                ValueType::Bool => 3,
                ValueType::Field => 4,
                ValueType::Command => 5,
                ValueType::Type => 6,
                ValueType::List => 7,
                ValueType::Dict => 8,
                ValueType::Struct => 9,
                ValueType::File => 10,
                ValueType::Empty => 11,
                ValueType::Any => 12,
            };
            (6u64 * 31 + c) % 0x1_0000_0000
        },
        Value::List(xs) => {
            let c = values_hash(xs);
            (7u64 * 31 + c) % 0x1_0000_0000
        },
        Value::Dict(ps) => {
            let c = value_pairs_hash(ps);
            (8u64 * 31 + c) % 0x1_0000_0000
        },
        Value::Struct(st) => {
            let c = (st.id as u64) % 0x1_0000_0000;
            (9u64 * 31 + c) % 0x1_0000_0000
        },
        Value::File(_) => 16,
        Value::Empty => 17,
    }
}

/// Folds `vm_hash` over a value vector, back to front.
pub fn values_hash(v: &Vec<Value>) -> (r: u64)
    ensures
        r as int == vm_seq_hash(vals_model(*v), 0),
        r < 0x1_0000_0000,
    decreases *v, 1nat,
{
    let n = v.len();
    let mut acc: u64 = 19;
    let mut i: usize = n;
    while i > 0
        invariant
            n == v@.len(),
            i <= n,
            acc as int == vm_seq_hash(vals_model(*v), i as int),
            acc < 0x1_0000_0000,
        decreases i,
    {
        i = i - 1;
        let h = value_hash(&v[i]);
        proof {
            assert(vals_model(*v)[i as int] == v@[i as int].model());
        }
        acc = (h * 31 + acc) % 0x1_0000_0000;
    }
    acc
}

/// Folds `vm_hash` over a pair vector, back to front.
fn value_pairs_hash(v: &Vec<(Value, Value)>) -> (r: u64)
    ensures
        r as int == vm_pairs_hash(pairs_model(*v), 0),
        r < 0x1_0000_0000,
    decreases *v, 1nat,
{
    let n = v.len();
    let mut acc: u64 = 21;
    let mut i: usize = n;
    while i > 0
        invariant
            n == v@.len(),
            i <= n,
            acc as int == vm_pairs_hash(pairs_model(*v), i as int),
            acc < 0x1_0000_0000,
        decreases i,
    {
        i = i - 1;
        let hk = value_hash(&v[i].0);
        let hv = value_hash(&v[i].1);
        proof {
            assert(pairs_model(*v)[i as int] == (v@[i as int].0.model(), v@[i as int].1.model()));
        }
        let inner = (hk * 31 + hv) % 0x1_0000_0000;
        acc = (inner * 31 + acc) % 0x1_0000_0000;
    }
    acc
}

} // verus!
