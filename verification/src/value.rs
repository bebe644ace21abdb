//! The closed tagged value type that every boundary crossing goes through,
//! together with its spec-level model.

use vstd::prelude::*;

verus! {

/// The largest integer magnitude that the host's number type represents
/// without precision loss (2^53 - 1).
pub const MAX_SAFE_INTEGER: i64 = 9007199254740991;

/// A host-range number.
///
/// `SafeInt` carries a number that is mathematically integral and exactly
/// representable by the host's number type; everything else is carried as
/// `Float`, opaquely, as the raw bit pattern of the host's number
/// representation together with its decimal rendering (the only two things
/// the bridge ever reads of such a number).
pub enum Num {
    SafeInt(i64),
    Float { bits: u64, decimal: String },
}

impl Num {
    /// An equal copy of this number.
    pub fn duplicate(&self) -> (r: Num)
        ensures
            r@ == self@,
    {
        match self {
            Num::SafeInt(i) => Num::SafeInt(*i),
            Num::Float { bits, decimal } => Num::Float { bits: *bits, decimal: decimal.clone() },
        }
    }
}

/// Spec-level picture of [`Num`].
pub enum NumModel {
    SafeInt(int),
    Float { bits: u64, decimal: Seq<char> },
}

impl View for Num {
    type V = NumModel;

    open spec fn view(&self) -> NumModel {
        match self {
            Num::SafeInt(i) => NumModel::SafeInt(*i as int),
            Num::Float { bits, decimal } => NumModel::Float { bits: *bits, decimal: decimal@ },
        }
    }
}

/// A well-formed number keeps its integral form inside the safe range.
pub open spec fn num_wf(n: NumModel) -> bool {
    match n {
        NumModel::SafeInt(i) => -MAX_SAFE_INTEGER <= i <= MAX_SAFE_INTEGER,
        NumModel::Float { .. } => true,
    }
}

/// The value representation shared by both directions of the bridge.
///
/// `Composite` splits a source container into two separately ordered
/// sequences: `indexed` holds array-like entries under a zero-based host
/// index, `keyed` holds everything else under a key that is itself a
/// `Value` (re-expressed as `Text` or `Symbol` by the converters).
pub enum Value {
    Null,
    Undefined,
    Boolean(bool),
    Text(String),
    Double(Num),
    LargeInteger(i64),
    Composite { keyed: Vec<(Value, Value)>, indexed: Vec<(u32, Value)> },
    Error(String),
    Symbol { description: String, interned: bool },
}

/// Spec-level picture of [`Value`].
pub enum ValueModel {
    Null,
    Undefined,
    Boolean(bool),
    Text(Seq<char>),
    Double(NumModel),
    LargeInteger(int),
    Composite { keyed: Seq<(ValueModel, ValueModel)>, indexed: Seq<(u32, ValueModel)> },
    Error(Seq<char>),
    Symbol { description: Seq<char>, interned: bool },
}

/// The model of an exec [`Value`].
pub open spec fn value_model(v: Value) -> ValueModel
    decreases v,
{
    match v {
        Value::Null => ValueModel::Null,
        Value::Undefined => ValueModel::Undefined,
        Value::Boolean(b) => ValueModel::Boolean(b),
        Value::Text(s) => ValueModel::Text(s@),
        Value::Double(n) => ValueModel::Double(n@),
        Value::LargeInteger(i) => ValueModel::LargeInteger(i as int),
        Value::Composite { keyed, indexed } => ValueModel::Composite {
            keyed: keyed_models(keyed@),
            indexed: indexed_models(indexed@),
        },
        Value::Error(m) => ValueModel::Error(m@),
        Value::Symbol { description, interned } => ValueModel::Symbol {
            description: description@,
            interned,
        },
    }
}

/// The models of a sequence of keyed entries.
pub open spec fn keyed_models(s: Seq<(Value, Value)>) -> Seq<(ValueModel, ValueModel)>
    decreases s,
{
    if s.len() == 0 {
        Seq::empty()
    } else {
        keyed_models(s.drop_last()).push((value_model(s.last().0), value_model(s.last().1)))
    }
}

/// The models of a sequence of indexed entries.
pub open spec fn indexed_models(s: Seq<(u32, Value)>) -> Seq<(u32, ValueModel)>
    decreases s,
{
    if s.len() == 0 {
        Seq::empty()
    } else {
        indexed_models(s.drop_last()).push((s.last().0, value_model(s.last().1)))
    }
}

/// Entry models line up with entries, index by index.
pub proof fn lemma_keyed_models(s: Seq<(Value, Value)>)
    ensures
        keyed_models(s).len() == s.len(),
        forall|i: int|
            0 <= i < s.len() ==> #[trigger] keyed_models(s)[i] == (
                value_model(s[i].0),
                value_model(s[i].1),
            ),
    decreases s.len(),
{
    if s.len() > 0 {
        lemma_keyed_models(s.drop_last());
    }
}

/// Entry models line up with entries, index by index.
pub proof fn lemma_indexed_models(s: Seq<(u32, Value)>)
    ensures
        indexed_models(s).len() == s.len(),
        forall|i: int|
            0 <= i < s.len() ==> #[trigger] indexed_models(s)[i] == (
                s[i].0,
                value_model(s[i].1),
            ),
    decreases s.len(),
{
    if s.len() > 0 {
        lemma_indexed_models(s.drop_last());
    }
}

impl View for Value {
    type V = ValueModel;

    open spec fn view(&self) -> ValueModel {
        value_model(*self)
    }
}

/// A well-formed value keeps every number inside its declared range.
pub open spec fn value_wf(m: ValueModel) -> bool
    decreases m, 0int,
{
    match m {
        ValueModel::Double(n) => num_wf(n),
        ValueModel::Composite { keyed, indexed } => keyed_wf(keyed) && indexed_wf(indexed),
        _ => true,
    }
}

/// Every key and value of a keyed part is well formed.
pub open spec fn keyed_wf(kys: Seq<(ValueModel, ValueModel)>) -> bool
    decreases kys, 1int,
{
    kys.len() == 0 || (keyed_wf(kys.drop_last()) && value_wf(kys.last().0) && value_wf(
        kys.last().1,
    ))
}

/// Every value of an indexed part is well formed.
pub open spec fn indexed_wf(ixs: Seq<(u32, ValueModel)>) -> bool
    decreases ixs, 1int,
{
    ixs.len() == 0 || (indexed_wf(ixs.drop_last()) && value_wf(ixs.last().1))
}

impl Value {
    /// Wrap a run of values, such as the multiple results of one guest
    /// call, as an array-like composite: value `i` under index `i`, with
    /// no keyed entries.
    pub fn multi_into_array(values: Vec<Value>) -> (r: Value)
        requires
            values@.len() <= u32::MAX,
        ensures
            ({
                let ixs = spec_multi_indexed(values@);
                r@ == ValueModel::Composite { keyed: Seq::empty(), indexed: ixs }
            }),
    {
        let ghost orig = values@;
        let mut rest = values;
        let mut indexed: Vec<(u32, Value)> = Vec::new();
        let mut idx: usize = 0;
        proof {
            assert(indexed_models(indexed@) =~= Seq::<(u32, ValueModel)>::empty());
            assert(spec_multi_indexed(orig.subrange(0, 0)) =~= Seq::<(u32, ValueModel)>::empty());
        }
        while rest.len() > 0
            invariant
                idx + rest@.len() == orig.len() <= u32::MAX,
                rest@ == orig.subrange(idx as int, orig.len() as int),
                indexed_models(indexed@) == spec_multi_indexed(orig.subrange(0, idx as int)),
            decreases rest@.len(),
        {
            let v = rest.remove(0);
            proof {
                assert(orig.subrange(0, idx + 1).drop_last() =~= orig.subrange(0, idx as int));
                assert(orig.subrange(0, idx + 1).last() == orig[idx as int]);
                assert(indexed@.push(((idx as u32), v)).drop_last() =~= indexed@);
            }
            indexed.push((idx as u32, v));
            idx = idx + 1;
            proof {
                assert(rest@ =~= orig.subrange(idx as int, orig.len() as int));
            }
        }
        proof {
            assert(orig.subrange(0, idx as int) =~= orig);
            assert(keyed_models(Seq::<(Value, Value)>::empty()) =~= Seq::<
                (ValueModel, ValueModel),
            >::empty());
        }
        Value::Composite { keyed: Vec::new(), indexed }
    }
}

/// The indexed entries a run of values wraps into: value `i` under
/// index `i`.
pub open spec fn spec_multi_indexed(vs: Seq<Value>) -> Seq<(u32, ValueModel)>
    decreases vs,
{
    if vs.len() == 0 {
        Seq::empty()
    } else {
        spec_multi_indexed(vs.drop_last()).push(((vs.len() - 1) as u32, value_model(vs.last())))
    }
}

} // verus!
