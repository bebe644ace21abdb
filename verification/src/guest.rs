//! A model of the values the embedded (guest) runtime hands across the
//! boundary, holding as plain data exactly what the converters read of them.

use vstd::prelude::*;
use vstd::string::StringExecFns;

use crate::value::{num_wf, Num, NumModel};

verus! {

/// A guest value as the converters see it.
///
/// A guest composite is a single container used indiscriminately for arrays,
/// maps, sets and records; it is carried here as its entry sequence in the
/// iteration order the guest runtime produced. `Function`, `Thread` and
/// `Opaque` stand for guest values the bridge never looks inside; `Opaque`
/// names the category of such a value (for instance a userdata handle).
pub enum GuestValue {
    Nil,
    Boolean(bool),
    Integer(i64),
    Number(Num),
    Text(String),
    Table(Vec<(GuestValue, GuestValue)>),
    Function,
    Thread,
    ErrorValue(String),
    Opaque(String),
}

/// Spec-level picture of [`GuestValue`].
pub enum GuestModel {
    Nil,
    Boolean(bool),
    Integer(int),
    Number(NumModel),
    Text(Seq<char>),
    Table(Seq<(GuestModel, GuestModel)>),
    Function,
    Thread,
    ErrorValue(Seq<char>),
    Opaque(Seq<char>),
}

/// The model of an exec [`GuestValue`].
pub open spec fn guest_model(g: GuestValue) -> GuestModel
    decreases g,
{
    match g {
        GuestValue::Nil => GuestModel::Nil,
        GuestValue::Boolean(b) => GuestModel::Boolean(b),
        GuestValue::Integer(i) => GuestModel::Integer(i as int),
        GuestValue::Number(n) => GuestModel::Number(n@),
        GuestValue::Text(s) => GuestModel::Text(s@),
        GuestValue::Table(entries) => GuestModel::Table(entry_models(entries@)),
        GuestValue::Function => GuestModel::Function,
        GuestValue::Thread => GuestModel::Thread,
        GuestValue::ErrorValue(m) => GuestModel::ErrorValue(m@),
        GuestValue::Opaque(c) => GuestModel::Opaque(c@),
    }
}

/// The models of a sequence of table entries.
pub open spec fn entry_models(s: Seq<(GuestValue, GuestValue)>) -> Seq<(GuestModel, GuestModel)>
    decreases s,
{
    if s.len() == 0 {
        Seq::empty()
    } else {
        entry_models(s.drop_last()).push((guest_model(s.last().0), guest_model(s.last().1)))
    }
}

/// Entry models line up with entries, index by index.
pub proof fn lemma_entry_models(s: Seq<(GuestValue, GuestValue)>)
    ensures
        entry_models(s).len() == s.len(),
        forall|i: int|
            0 <= i < s.len() ==> #[trigger] entry_models(s)[i] == (
                guest_model(s[i].0),
                guest_model(s[i].1),
            ),
    decreases s.len(),
{
    if s.len() > 0 {
        lemma_entry_models(s.drop_last());
    }
}

/// Entry models distribute over concatenation.
pub proof fn lemma_entry_models_concat(a: Seq<(GuestValue, GuestValue)>, b: Seq<
    (GuestValue, GuestValue),
>)
    ensures
        entry_models(a + b) == entry_models(a) + entry_models(b),
    decreases b.len(),
{
    if b.len() == 0 {
        assert(a + b =~= a);
        assert(entry_models(a) + entry_models(b) =~= entry_models(a));
    } else {
        assert((a + b).drop_last() =~= a + b.drop_last());
        assert((a + b).last() == b.last());
        lemma_entry_models_concat(a, b.drop_last());
        assert(entry_models(a + b) =~= entry_models(a) + entry_models(b));
    }
}

/// A well-formed guest value keeps every number inside its declared
/// range.
pub open spec fn guest_wf(g: GuestModel) -> bool
    decreases g, 0int,
{
    match g {
        GuestModel::Number(n) => num_wf(n),
        GuestModel::Table(es) => guest_entries_wf(es),
        _ => true,
    }
}

/// Every key and value of a table entry run is well formed.
pub open spec fn guest_entries_wf(es: Seq<(GuestModel, GuestModel)>) -> bool
    decreases es, 1int,
{
    es.len() == 0 || (guest_entries_wf(es.drop_last()) && guest_wf(es.last().0) && guest_wf(
        es.last().1,
    ))
}

impl View for GuestValue {
    type V = GuestModel;

    open spec fn view(&self) -> GuestModel {
        guest_model(*self)
    }
}

/// The category name of a guest value, as error messages report it.
pub open spec fn guest_kind_name(g: GuestModel) -> Seq<char> {
    match g {
        GuestModel::Nil => "nil"@,
        GuestModel::Boolean(_) => "boolean"@,
        GuestModel::Integer(_) => "integer"@,
        GuestModel::Number(_) => "number"@,
        GuestModel::Text(_) => "string"@,
        GuestModel::Table(_) => "table"@,
        GuestModel::Function => "function"@,
        GuestModel::Thread => "thread"@,
        GuestModel::ErrorValue(_) => "error"@,
        GuestModel::Opaque(c) => c,
    }
}

impl GuestValue {
    /// The category name of a guest value, as error messages report it.
    pub fn kind_name(&self) -> (r: String)
        ensures
            r@ == guest_kind_name(self@),
    {
        match self {
            GuestValue::Nil => String::from_str("nil"),
            GuestValue::Boolean(_) => String::from_str("boolean"),
            GuestValue::Integer(_) => String::from_str("integer"),
            GuestValue::Number(_) => String::from_str("number"),
            GuestValue::Text(_) => String::from_str("string"),
            GuestValue::Table(_) => String::from_str("table"),
            GuestValue::Function => String::from_str("function"),
            GuestValue::Thread => String::from_str("thread"),
            GuestValue::ErrorValue(_) => String::from_str("error"),
            GuestValue::Opaque(c) => c.clone(),
        }
    }
}

} // verus!
