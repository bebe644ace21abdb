//! A model of the concrete host values that enter the bridge, holding as
//! plain data exactly what the converters read of them.

use vstd::prelude::*;

use crate::value::{Num, NumModel};

verus! {

/// An own enumerable property key of a host object.
///
/// `Name` carries a string-valued key (the host reports every non-symbol key
/// as a string; whether it is numeric-looking is decided by the bridge).
/// `Symbol` carries a symbol-valued key by its description.
pub enum HostKey {
    Name(String),
    Symbol(String),
}

/// Spec-level picture of [`HostKey`].
pub enum HostKeyModel {
    Name(Seq<char>),
    Symbol(Seq<char>),
}

impl View for HostKey {
    type V = HostKeyModel;

    open spec fn view(&self) -> HostKeyModel {
        match self {
            HostKey::Name(s) => HostKeyModel::Name(s@),
            HostKey::Symbol(s) => HostKeyModel::Symbol(s@),
        }
    }
}

/// A host value as the converters see it.
///
/// `BigInt` carries the host's explicit large-integer type; a host large
/// integer beyond this range is refused at the edge before it reaches the
/// bridge. `Array` carries an indexed container in index order; `Object`
/// carries a keyed container as its own enumerable properties in the order
/// the host enumerates them. `Opaque` stands for a host value of any other
/// category, named.
pub enum HostValue {
    Null,
    Undefined,
    Boolean(bool),
    Number(Num),
    Text(String),
    BigInt(i64),
    Array(Vec<HostValue>),
    Object(Vec<(HostKey, HostValue)>),
    Function,
    Symbol(String),
    Opaque(String),
}

/// Spec-level picture of [`HostValue`].
pub enum HostModel {
    Null,
    Undefined,
    Boolean(bool),
    Number(NumModel),
    Text(Seq<char>),
    BigInt(int),
    Array(Seq<HostModel>),
    Object(Seq<(HostKeyModel, HostModel)>),
    Function,
    Symbol(Seq<char>),
    Opaque(Seq<char>),
}

/// The model of an exec [`HostValue`].
pub open spec fn host_model(h: HostValue) -> HostModel
    decreases h,
{
    match h {
        HostValue::Null => HostModel::Null,
        HostValue::Undefined => HostModel::Undefined,
        HostValue::Boolean(b) => HostModel::Boolean(b),
        HostValue::Number(n) => HostModel::Number(n@),
        HostValue::Text(s) => HostModel::Text(s@),
        HostValue::BigInt(i) => HostModel::BigInt(i as int),
        HostValue::Array(elems) => HostModel::Array(elem_models(elems@)),
        HostValue::Object(props) => HostModel::Object(prop_models(props@)),
        HostValue::Function => HostModel::Function,
        HostValue::Symbol(d) => HostModel::Symbol(d@),
        HostValue::Opaque(c) => HostModel::Opaque(c@),
    }
}

/// The models of a sequence of array elements.
pub open spec fn elem_models(s: Seq<HostValue>) -> Seq<HostModel>
    decreases s,
{
    if s.len() == 0 {
        Seq::empty()
    } else {
        elem_models(s.drop_last()).push(host_model(s.last()))
    }
}

/// The models of a sequence of object properties.
pub open spec fn prop_models(s: Seq<(HostKey, HostValue)>) -> Seq<(HostKeyModel, HostModel)>
    decreases s,
{
    if s.len() == 0 {
        Seq::empty()
    } else {
        prop_models(s.drop_last()).push((s.last().0@, host_model(s.last().1)))
    }
}

/// Element models line up with elements, index by index.
pub proof fn lemma_elem_models(s: Seq<HostValue>)
    ensures
        elem_models(s).len() == s.len(),
        forall|i: int| 0 <= i < s.len() ==> #[trigger] elem_models(s)[i] == host_model(s[i]),
    decreases s.len(),
{
    if s.len() > 0 {
        lemma_elem_models(s.drop_last());
    }
}

/// Property models line up with properties, index by index.
pub proof fn lemma_prop_models(s: Seq<(HostKey, HostValue)>)
    ensures
        prop_models(s).len() == s.len(),
        forall|i: int|
            0 <= i < s.len() ==> #[trigger] prop_models(s)[i] == (s[i].0@, host_model(s[i].1)),
    decreases s.len(),
{
    if s.len() > 0 {
        lemma_prop_models(s.drop_last());
    }
}

impl View for HostValue {
    type V = HostModel;

    open spec fn view(&self) -> HostModel {
        host_model(*self)
    }
}

} // verus!
