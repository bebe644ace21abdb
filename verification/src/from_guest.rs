//! The Embedded→Host converter: turns a guest scalar or composite into a
//! [`Value`], deterministically.
//!
//! Scalars map directly; guest integers are split at the safe-integer
//! boundary; each composite entry is classified once, in iteration order,
//! as array-like or keyed. Guest function and coroutine values convert to
//! non-callable placeholder text rather than failing, since they may sit in
//! a composite without ever being invoked.

use vstd::prelude::*;
use vstd::string::StringExecFns;

use crate::digits::{
    i64_to_decimal, lemma_parse_i64_range, parse_i64, spec_i64_decimal, spec_parse_i64,
};
use crate::error::{ConversionKind, ConversionKindModel, Error, ErrorModel};
use crate::guest::{
    entry_models, guest_kind_name, guest_model, lemma_entry_models, GuestModel, GuestValue,
};
use crate::value::{
    indexed_models, keyed_models, Num, NumModel, Value, ValueModel, MAX_SAFE_INTEGER,
};

verus! {

/// Where one guest key goes: into the array-like part under a zero-based
/// host index, or into the keyed part under a re-expressed key.
pub enum KeyClass {
    ArrayIndex(u32),
    Keyed(Value),
}

/// Spec-level picture of [`KeyClass`].
pub enum KeyClassModel {
    ArrayIndex(u32),
    Keyed(ValueModel),
}

impl View for KeyClass {
    type V = KeyClassModel;

    open spec fn view(&self) -> KeyClassModel {
        match self {
            KeyClass::ArrayIndex(i) => KeyClassModel::ArrayIndex(*i),
            KeyClass::Keyed(v) => KeyClassModel::Keyed(v@),
        }
    }
}

/// The interned marker key that stands for the guest's integer key zero,
/// which would otherwise collide with a real string key "0".
pub open spec fn spec_zero_marker() -> ValueModel {
    ValueModel::Symbol { description: "zero-collision-marker"@, interned: true }
}

/// One past the largest guest integer key that still maps into the host's
/// index range.
pub const MAX_INDEX_KEY: i64 = 4294967296;

/// How one guest key is classified:
/// - an integer from 1 up to the host index range becomes the zero-based
///   index one below it;
/// - the integer zero becomes the interned zero-collision marker symbol;
/// - any other integer is rendered in decimal and treated as keyed;
/// - a non-integer number is keyed under its decimal rendering;
/// - a string that reads as a signed integer is wrapped in single quotes
///   (around the canonical decimal form), so it can never collide with a
///   rendered integer key; any other string passes through;
/// - every other key category is refused, named.
pub open spec fn spec_classify_guest_key(k: GuestModel) -> Result<KeyClassModel, ErrorModel> {
    match k {
        GuestModel::Integer(n) => if 1 <= n <= MAX_INDEX_KEY {
            Ok(KeyClassModel::ArrayIndex((n - 1) as u32))
        } else if n == 0 {
            Ok(KeyClassModel::Keyed(spec_zero_marker()))
        } else {
            Ok(KeyClassModel::Keyed(ValueModel::Text(spec_i64_decimal(n))))
        },
        GuestModel::Number(NumModel::SafeInt(i)) => Ok(
            KeyClassModel::Keyed(ValueModel::Text(spec_i64_decimal(i))),
        ),
        GuestModel::Number(NumModel::Float { decimal, .. }) => Ok(
            KeyClassModel::Keyed(ValueModel::Text(decimal)),
        ),
        GuestModel::Text(s) => match spec_parse_i64(s) {
            Some(v) => Ok(
                KeyClassModel::Keyed(
                    ValueModel::Text(seq!['\''] + spec_i64_decimal(v) + seq!['\'']),
                ),
            ),
            None => Ok(KeyClassModel::Keyed(ValueModel::Text(s))),
        },
        _ => Err(
            ErrorModel::Conversion(ConversionKindModel::UnsupportedKeyKind(guest_kind_name(k))),
        ),
    }
}

/// The model of a classification outcome.
pub open spec fn key_result_model(r: Result<KeyClass, Error>) -> Result<
    KeyClassModel,
    ErrorModel,
> {
    match r {
        Ok(c) => Ok(c@),
        Err(e) => Err(e@),
    }
}

/// The model of a conversion outcome.
pub open spec fn value_result_model(r: Result<Value, Error>) -> Result<ValueModel, ErrorModel> {
    match r {
        Ok(v) => Ok(v@),
        Err(e) => Err(e@),
    }
}

/// Classify one guest key (see [`spec_classify_guest_key`]).
pub fn classify_guest_key(k: &GuestValue) -> (r: Result<KeyClass, Error>)
    ensures
        key_result_model(r) == spec_classify_guest_key(k@),
{
    match k {
        GuestValue::Integer(n) => {
            let n = *n;
            if 1 <= n && n <= MAX_INDEX_KEY {
                Ok(KeyClass::ArrayIndex((n - 1) as u32))
            } else if n == 0 {
                let r = KeyClass::Keyed(
                    Value::Symbol {
                        description: String::from_str("zero-collision-marker"),
                        interned: true,
                    },
                );
                Ok(r)
            } else {
                Ok(KeyClass::Keyed(Value::Text(i64_to_decimal(n))))
            }
        },
        GuestValue::Number(num) => match num {
            Num::SafeInt(i) => Ok(KeyClass::Keyed(Value::Text(i64_to_decimal(*i)))),
            Num::Float { decimal, .. } => Ok(KeyClass::Keyed(Value::Text(decimal.clone()))),
        },
        GuestValue::Text(s) => match parse_i64(s.as_str()) {
            Some(v) => {
                proof {
                    lemma_parse_i64_range(s@);
                }
                let mut q = String::from_str("'");
                let dec = i64_to_decimal(v);
                q.append(dec.as_str());
                q.append("'");
                proof {
                    reveal_strlit("'");
                    assert(q@ =~= seq!['\''] + spec_i64_decimal(v as int) + seq!['\'']);
                }
                Ok(KeyClass::Keyed(Value::Text(q)))
            },
            None => Ok(KeyClass::Keyed(Value::Text(s.clone()))),
        },
        _ => Err(Error::Conversion(ConversionKind::UnsupportedKeyKind(k.kind_name()))),
    }
}

/// What a run of composite entries converts to: both parts in entry order,
/// or the first failure.
pub open spec fn spec_convert_entries(es: Seq<(GuestModel, GuestModel)>) -> Result<
    (Seq<(ValueModel, ValueModel)>, Seq<(u32, ValueModel)>),
    ErrorModel,
>
    decreases es,
{
    if es.len() == 0 {
        Ok((Seq::empty(), Seq::empty()))
    } else {
        match spec_convert_entries(es.drop_last()) {
            Err(e) => Err(e),
            Ok((keyed, indexed)) => {
                let (k, v) = es.last();
                match spec_guest_to_value(v) {
                    Err(e) => Err(e),
                    Ok(cv) => match spec_classify_guest_key(k) {
                        Err(e) => Err(e),
                        Ok(KeyClassModel::Keyed(ck)) => Ok((keyed.push((ck, cv)), indexed)),
                        Ok(KeyClassModel::ArrayIndex(i)) => Ok((keyed, indexed.push((i, cv)))),
                    },
                }
            },
        }
    }
}

/// What one guest value converts to (see the module doc), or the first
/// failure met while walking it.
pub open spec fn spec_guest_to_value(g: GuestModel) -> Result<ValueModel, ErrorModel>
    decreases g,
{
    match g {
        GuestModel::Nil => Ok(ValueModel::Null),
        GuestModel::Boolean(b) => Ok(ValueModel::Boolean(b)),
        GuestModel::Integer(i) => if -MAX_SAFE_INTEGER <= i <= MAX_SAFE_INTEGER {
            Ok(ValueModel::Double(NumModel::SafeInt(i)))
        } else {
            Ok(ValueModel::LargeInteger(i))
        },
        GuestModel::Number(n) => Ok(ValueModel::Double(n)),
        GuestModel::Text(s) => Ok(ValueModel::Text(s)),
        GuestModel::Table(es) => match spec_convert_entries(es) {
            Ok((keyed, indexed)) => Ok(ValueModel::Composite { keyed, indexed }),
            Err(e) => Err(e),
        },
        GuestModel::Function => Ok(ValueModel::Text("[LuaFunction]"@)),
        GuestModel::Thread => Ok(ValueModel::Text("[LuaThread]"@)),
        GuestModel::ErrorValue(m) => Ok(ValueModel::Error(m)),
        GuestModel::Opaque(c) => Err(
            ErrorModel::Conversion(ConversionKindModel::UnsupportedValueKind(c)),
        ),
    }
}

/// A failure in a prefix of the entries decides the whole run.
proof fn lemma_convert_entries_err_extends(es: Seq<(GuestModel, GuestModel)>, k: int)
    requires
        0 <= k <= es.len(),
        spec_convert_entries(es.subrange(0, k)) is Err,
    ensures
        spec_convert_entries(es) == spec_convert_entries(es.subrange(0, k)),
    decreases es.len() - k,
{
    if k == es.len() {
        assert(es.subrange(0, k) =~= es);
    } else {
        assert(es.drop_last().subrange(0, k) =~= es.subrange(0, k));
        lemma_convert_entries_err_extends(es.drop_last(), k);
    }
}

/// Convert one guest value into a [`Value`] (see [`spec_guest_to_value`]).
#[verifier::loop_isolation(false)]
pub fn guest_to_value(g: &GuestValue) -> (r: Result<Value, Error>)
    ensures
        value_result_model(r) == spec_guest_to_value(g@),
    decreases *g,
{
    match g {
        GuestValue::Nil => Ok(Value::Null),
        GuestValue::Boolean(b) => Ok(Value::Boolean(*b)),
        GuestValue::Integer(i) => {
            let i = *i;
            if -MAX_SAFE_INTEGER <= i && i <= MAX_SAFE_INTEGER {
                Ok(Value::Double(Num::SafeInt(i)))
            } else {
                Ok(Value::LargeInteger(i))
            }
        },
        GuestValue::Number(n) => Ok(Value::Double(n.duplicate())),
        GuestValue::Text(s) => Ok(Value::Text(s.clone())),
        GuestValue::Function => Ok(Value::Text(String::from_str("[LuaFunction]"))),
        GuestValue::Thread => Ok(Value::Text(String::from_str("[LuaThread]"))),
        GuestValue::ErrorValue(m) => Ok(Value::Error(m.clone())),
        GuestValue::Opaque(c) => Err(
            Error::Conversion(ConversionKind::UnsupportedValueKind(c.clone())),
        ),
        GuestValue::Table(entries) => {
            let ghost ems = entry_models(entries@);
            proof {
                lemma_entry_models(entries@);
            }
            let mut keyed: Vec<(Value, Value)> = Vec::new();
            let mut indexed: Vec<(u32, Value)> = Vec::new();
            let n = entries.len();
            let mut idx: usize = 0;
            proof {
                assert(ems.subrange(0, 0) =~= Seq::<(GuestModel, GuestModel)>::empty());
            }
            while idx < n
                invariant
                    idx <= n == entries@.len(),
                    ems == entry_models(entries@),
                    ems.len() == n,
                    forall|j: int|
                        0 <= j < n ==> #[trigger] ems[j] == (
                            guest_model(entries@[j].0),
                            guest_model(entries@[j].1),
                        ),
                    spec_convert_entries(ems.subrange(0, idx as int)) == Ok::<
                        _,
                        ErrorModel,
                    >((keyed_models(keyed@), indexed_models(indexed@))),
                decreases n - idx,
            {
                let entry = &entries[idx];
                proof {
                    assert(decreases_to!(*g => entry.1));
                }
                let cv = match guest_to_value(&entry.1) {
                    Ok(cv) => cv,
                    Err(e) => {
                        proof {
                            assert(ems.subrange(0, idx + 1).drop_last() =~= ems.subrange(
                                0,
                                idx as int,
                            ));
                            assert(ems.subrange(0, idx + 1).last() == ems[idx as int]);
                            assert(spec_convert_entries(ems.subrange(0, idx + 1)) == Err::<
                                (Seq<(ValueModel, ValueModel)>, Seq<(u32, ValueModel)>),
                                _,
                            >(e@));
                            lemma_convert_entries_err_extends(ems, idx + 1);
                        }
                        return Err(e);
                    },
                };
                let cls = match classify_guest_key(&entry.0) {
                    Ok(c) => c,
                    Err(e) => {
                        proof {
                            assert(ems.subrange(0, idx + 1).drop_last() =~= ems.subrange(
                                0,
                                idx as int,
                            ));
                            assert(ems.subrange(0, idx + 1).last() == ems[idx as int]);
                            assert(spec_convert_entries(ems.subrange(0, idx + 1)) == Err::<
                                (Seq<(ValueModel, ValueModel)>, Seq<(u32, ValueModel)>),
                                _,
                            >(e@));
                            lemma_convert_entries_err_extends(ems, idx + 1);
                        }
                        return Err(e);
                    },
                };
                proof {
                    assert(ems.subrange(0, idx + 1).drop_last() =~= ems.subrange(0, idx as int));
                    assert(ems.subrange(0, idx + 1).last() == ems[idx as int]);
                }
                match cls {
                    KeyClass::ArrayIndex(i) => {
                        proof {
                            assert(indexed@.push((i, cv)).drop_last() =~= indexed@);
                        }
                        indexed.push((i, cv));
                    },
                    KeyClass::Keyed(ck) => {
                        proof {
                            assert(keyed@.push((ck, cv)).drop_last() =~= keyed@);
                        }
                        keyed.push((ck, cv));
                    },
                }
                idx = idx + 1;
            }
            proof {
                assert(ems.subrange(0, n as int) =~= ems);
            }
            Ok(Value::Composite { keyed, indexed })
        },
    }
}

} // verus!
