//! The Host→Embedded converter: turns a concrete host value, or a
//! [`Value`], into the guest runtime's native representation.
//!
//! Host arrays become composites with contiguous one-based integer keys;
//! host objects map their own enumerable keys, numeric-looking names
//! becoming offset integer keys and other names passing through. Symbol
//! keys are unsupported in this direction and fail typed — never silently
//! dropped — and so does a raw host function passed as data, which belongs
//! on the callback-registration surface instead. A host large integer
//! converts to the guest's native integer type losslessly; a number that is
//! mathematically integral and exactly representable converts to the
//! guest's integer type as well, which round-trips to an equal value.

use vstd::prelude::*;
use vstd::string::StringExecFns;

use crate::digits::{lemma_canonical_u32_range, parse_index, spec_canonical_u32};
use crate::error::{ConversionKind, ConversionKindModel, Error, ErrorModel};
use crate::guest::{entry_models, guest_model, lemma_entry_models_concat, GuestModel, GuestValue};
use crate::host::{
    elem_models, lemma_elem_models, lemma_prop_models, prop_models, HostKey, HostKeyModel,
    HostModel, HostValue,
};
use crate::value::{
    indexed_models, keyed_models, lemma_indexed_models, lemma_keyed_models, Num, NumModel, Value,
    ValueModel,
};

verus! {

/// The model of a conversion into the guest.
pub open spec fn guest_result_model(r: Result<GuestValue, Error>) -> Result<
    GuestModel,
    ErrorModel,
> {
    match r {
        Ok(g) => Ok(g@),
        Err(e) => Err(e@),
    }
}

/// What one keyed `Value` key becomes in the guest:
/// - the interned zero-collision marker turns back into the integer key
///   zero it stood for, closing the round trip;
/// - any other symbol key is unsupported in this direction;
/// - a nothing-valued or error-valued key cannot name a guest entry;
/// - every other key converts as a value does.
pub open spec fn spec_key_to_guest(k: ValueModel) -> Result<GuestModel, ErrorModel>
    decreases k, 1int,
{
    match k {
        ValueModel::Symbol { description, interned } => if interned && description
            == "zero-collision-marker"@ {
            Ok(GuestModel::Integer(0))
        } else {
            Err(ErrorModel::Conversion(ConversionKindModel::UnsupportedKeyKind("symbol"@)))
        },
        ValueModel::Null => Err(
            ErrorModel::Conversion(ConversionKindModel::UnsupportedKeyKind("null"@)),
        ),
        ValueModel::Undefined => Err(
            ErrorModel::Conversion(ConversionKindModel::UnsupportedKeyKind("undefined"@)),
        ),
        ValueModel::Error(_) => Err(
            ErrorModel::Conversion(ConversionKindModel::UnsupportedKeyKind("error"@)),
        ),
        _ => spec_value_to_guest(k),
    }
}

/// The guest entries of the array-like part: host index `i` becomes guest
/// key `i + 1`, in index order.
pub open spec fn spec_indexed_part(ixs: Seq<(u32, ValueModel)>) -> Result<
    Seq<(GuestModel, GuestModel)>,
    ErrorModel,
>
    decreases ixs, 0int,
{
    if ixs.len() == 0 {
        Ok(Seq::empty())
    } else {
        match spec_indexed_part(ixs.drop_last()) {
            Err(e) => Err(e),
            Ok(list) => match spec_value_to_guest(ixs.last().1) {
                Err(e) => Err(e),
                Ok(gv) => Ok(list.push((GuestModel::Integer(ixs.last().0 + 1), gv))),
            },
        }
    }
}

/// The guest entries of the keyed part, in entry order, key before value.
pub open spec fn spec_keyed_part(kys: Seq<(ValueModel, ValueModel)>) -> Result<
    Seq<(GuestModel, GuestModel)>,
    ErrorModel,
>
    decreases kys, 0int,
{
    if kys.len() == 0 {
        Ok(Seq::empty())
    } else {
        match spec_keyed_part(kys.drop_last()) {
            Err(e) => Err(e),
            Ok(list) => match spec_key_to_guest(kys.last().0) {
                Err(e) => Err(e),
                Ok(gk) => match spec_value_to_guest(kys.last().1) {
                    Err(e) => Err(e),
                    Ok(gv) => Ok(list.push((gk, gv))),
                },
            },
        }
    }
}

/// What one `Value` converts to in the guest (see the module doc): both
/// nothing states collapse to the guest's nil; a composite becomes one
/// table holding its array-like entries first, then its keyed entries; a
/// non-interned symbol value becomes a one-entry table carrying its
/// description; an interned symbol value and an error value cannot cross.
pub open spec fn spec_value_to_guest(v: ValueModel) -> Result<GuestModel, ErrorModel>
    decreases v, 0int,
{
    match v {
        ValueModel::Null => Ok(GuestModel::Nil),
        ValueModel::Undefined => Ok(GuestModel::Nil),
        ValueModel::Boolean(b) => Ok(GuestModel::Boolean(b)),
        ValueModel::Text(s) => Ok(GuestModel::Text(s)),
        ValueModel::Double(n) => match n {
            NumModel::SafeInt(i) => Ok(GuestModel::Integer(i)),
            NumModel::Float { bits, decimal } => Ok(
                GuestModel::Number(NumModel::Float { bits, decimal }),
            ),
        },
        ValueModel::LargeInteger(i) => Ok(GuestModel::Integer(i)),
        ValueModel::Composite { keyed, indexed } => match spec_indexed_part(indexed) {
            Err(e) => Err(e),
            Ok(a) => match spec_keyed_part(keyed) {
                Err(e) => Err(e),
                Ok(b) => Ok(GuestModel::Table(a + b)),
            },
        },
        ValueModel::Error(_) => Err(
            ErrorModel::Conversion(ConversionKindModel::UnsupportedValueKind("error"@)),
        ),
        ValueModel::Symbol { description, interned } => if interned {
            Err(ErrorModel::Conversion(ConversionKindModel::UnsupportedValueKind("symbol"@)))
        } else {
            Ok(
                GuestModel::Table(
                    seq![(GuestModel::Text("description"@), GuestModel::Text(description))],
                ),
            )
        },
    }
}

proof fn lemma_indexed_part_err_extends(ixs: Seq<(u32, ValueModel)>, k: int)
    requires
        0 <= k <= ixs.len(),
        spec_indexed_part(ixs.subrange(0, k)) is Err,
    ensures
        spec_indexed_part(ixs) == spec_indexed_part(ixs.subrange(0, k)),
    decreases ixs.len() - k,
{
    if k == ixs.len() {
        assert(ixs.subrange(0, k) =~= ixs);
    } else {
        assert(ixs.drop_last().subrange(0, k) =~= ixs.subrange(0, k));
        lemma_indexed_part_err_extends(ixs.drop_last(), k);
    }
}

proof fn lemma_keyed_part_err_extends(kys: Seq<(ValueModel, ValueModel)>, k: int)
    requires
        0 <= k <= kys.len(),
        spec_keyed_part(kys.subrange(0, k)) is Err,
    ensures
        spec_keyed_part(kys) == spec_keyed_part(kys.subrange(0, k)),
    decreases kys.len() - k,
{
    if k == kys.len() {
        assert(kys.subrange(0, k) =~= kys);
    } else {
        assert(kys.drop_last().subrange(0, k) =~= kys.subrange(0, k));
        lemma_keyed_part_err_extends(kys.drop_last(), k);
    }
}

/// Convert one [`Value`] into the guest's native representation (see
/// [`spec_value_to_guest`]).
#[verifier::loop_isolation(false)]
pub fn value_to_guest(v: &Value) -> (r: Result<GuestValue, Error>)
    ensures
        guest_result_model(r) == spec_value_to_guest(v@),
    decreases *v,
{
    match v {
        Value::Null => Ok(GuestValue::Nil),
        Value::Undefined => Ok(GuestValue::Nil),
        Value::Boolean(b) => Ok(GuestValue::Boolean(*b)),
        Value::Text(s) => Ok(GuestValue::Text(s.clone())),
        Value::Double(n) => match n {
            Num::SafeInt(i) => Ok(GuestValue::Integer(*i)),
            Num::Float { .. } => Ok(GuestValue::Number(n.duplicate())),
        },
        Value::LargeInteger(i) => Ok(GuestValue::Integer(*i)),
        Value::Error(_) => Err(
            Error::Conversion(ConversionKind::UnsupportedValueKind(String::from_str("error"))),
        ),
        Value::Symbol { description, interned } => if *interned {
            Err(Error::Conversion(ConversionKind::UnsupportedValueKind(String::from_str("symbol"))))
        } else {
            let mut entries: Vec<(GuestValue, GuestValue)> = Vec::new();
            entries.push(
                (
                    GuestValue::Text(String::from_str("description")),
                    GuestValue::Text(description.clone()),
                ),
            );
            proof {
                reveal_with_fuel(entry_models, 3);
                assert(entry_models(entries@) =~= seq![
                    (
                        GuestModel::Text("description"@),
                        GuestModel::Text(description@),
                    ),
                ]);
            }
            Ok(GuestValue::Table(entries))
        },
        Value::Composite { keyed, indexed } => {
            let ghost ixms = indexed_models(indexed@);
            let ghost kyms = keyed_models(keyed@);
            proof {
                lemma_indexed_models(indexed@);
                lemma_keyed_models(keyed@);
            }
            let mut entries: Vec<(GuestValue, GuestValue)> = Vec::new();
            let n_ix = indexed.len();
            let mut idx: usize = 0;
            proof {
                assert(ixms.subrange(0, 0) =~= Seq::<(u32, ValueModel)>::empty());
                assert(entry_models(entries@) =~= Seq::<(GuestModel, GuestModel)>::empty());
            }
            while idx < n_ix
                invariant
                    idx <= n_ix,
                    spec_indexed_part(ixms.subrange(0, idx as int)) == Ok::<_, ErrorModel>(
                        entry_models(entries@),
                    ),
                decreases n_ix - idx,
            {
                let pair = &indexed[idx];
                proof {
                    assert(decreases_to!(*v => pair.1));
                }
                let gv = match value_to_guest(&pair.1) {
                    Ok(gv) => gv,
                    Err(e) => {
                        proof {
                            assert(ixms.subrange(0, idx + 1).drop_last() =~= ixms.subrange(
                                0,
                                idx as int,
                            ));
                            assert(ixms.subrange(0, idx + 1).last() == ixms[idx as int]);
                            lemma_indexed_part_err_extends(ixms, idx + 1);
                        }
                        return Err(e);
                    },
                };
                let key: i64 = (pair.0 as i64) + 1;
                proof {
                    assert(ixms.subrange(0, idx + 1).drop_last() =~= ixms.subrange(0, idx as int));
                    assert(ixms.subrange(0, idx + 1).last() == ixms[idx as int]);
                    assert(guest_model(GuestValue::Integer(key)) == GuestModel::Integer(
                        key as int,
                    ));
                    assert(entries@.push((GuestValue::Integer(key), gv)).drop_last() =~= entries@);
                }
                entries.push((GuestValue::Integer(key), gv));
                idx = idx + 1;
            }
            proof {
                assert(ixms.subrange(0, n_ix as int) =~= ixms);
            }
            let mut kentries: Vec<(GuestValue, GuestValue)> = Vec::new();
            let n_ky = keyed.len();
            let mut kdx: usize = 0;
            proof {
                assert(kyms.subrange(0, 0) =~= Seq::<(ValueModel, ValueModel)>::empty());
                assert(entry_models(kentries@) =~= Seq::<(GuestModel, GuestModel)>::empty());
            }
            while kdx < n_ky
                invariant
                    kdx <= n_ky,
                    spec_keyed_part(kyms.subrange(0, kdx as int)) == Ok::<_, ErrorModel>(
                        entry_models(kentries@),
                    ),
                decreases n_ky - kdx,
            {
                let pair = &keyed[kdx];
                let gk: GuestValue = match &pair.0 {
                    Value::Symbol { description, interned } => {
                        let marker = String::from_str("zero-collision-marker");
                        if *interned && *description == marker {
                            proof {
                                assert(guest_model(GuestValue::Integer(0)) == GuestModel::Integer(
                                    0,
                                ));
                                assert(spec_key_to_guest(kyms[kdx as int].0) == Ok::<
                                    _,
                                    ErrorModel,
                                >(GuestModel::Integer(0)));
                            }
                            GuestValue::Integer(0)
                        } else {
                            proof {
                                assert(kyms.subrange(0, kdx + 1).drop_last() =~= kyms.subrange(
                                    0,
                                    kdx as int,
                                ));
                                assert(kyms.subrange(0, kdx + 1).last() == kyms[kdx as int]);
                                assert(spec_key_to_guest(kyms[kdx as int].0) == Err::<
                                    GuestModel,
                                    ErrorModel,
                                >(
                                    ErrorModel::Conversion(
                                        ConversionKindModel::UnsupportedKeyKind("symbol"@),
                                    ),
                                ));
                                lemma_keyed_part_err_extends(kyms, kdx + 1);
                            }
                            return Err(
                                Error::Conversion(
                                    ConversionKind::UnsupportedKeyKind(String::from_str("symbol")),
                                ),
                            );
                        }
                    },
                    Value::Null => {
                        proof {
                            assert(kyms.subrange(0, kdx + 1).drop_last() =~= kyms.subrange(
                                0,
                                kdx as int,
                            ));
                            assert(kyms.subrange(0, kdx + 1).last() == kyms[kdx as int]);
                            assert(spec_key_to_guest(kyms[kdx as int].0) == Err::<
                                GuestModel,
                                ErrorModel,
                            >(
                                ErrorModel::Conversion(
                                    ConversionKindModel::UnsupportedKeyKind("null"@),
                                ),
                            ));
                            lemma_keyed_part_err_extends(kyms, kdx + 1);
                        }
                        return Err(
                            Error::Conversion(
                                ConversionKind::UnsupportedKeyKind(String::from_str("null")),
                            ),
                        );
                    },
                    Value::Undefined => {
                        proof {
                            assert(kyms.subrange(0, kdx + 1).drop_last() =~= kyms.subrange(
                                0,
                                kdx as int,
                            ));
                            assert(kyms.subrange(0, kdx + 1).last() == kyms[kdx as int]);
                            assert(spec_key_to_guest(kyms[kdx as int].0) == Err::<
                                GuestModel,
                                ErrorModel,
                            >(
                                ErrorModel::Conversion(
                                    ConversionKindModel::UnsupportedKeyKind("undefined"@),
                                ),
                            ));
                            lemma_keyed_part_err_extends(kyms, kdx + 1);
                        }
                        return Err(
                            Error::Conversion(
                                ConversionKind::UnsupportedKeyKind(String::from_str("undefined")),
                            ),
                        );
                    },
                    Value::Error(_) => {
                        proof {
                            assert(kyms.subrange(0, kdx + 1).drop_last() =~= kyms.subrange(
                                0,
                                kdx as int,
                            ));
                            assert(kyms.subrange(0, kdx + 1).last() == kyms[kdx as int]);
                            assert(spec_key_to_guest(kyms[kdx as int].0) == Err::<
                                GuestModel,
                                ErrorModel,
                            >(
                                ErrorModel::Conversion(
                                    ConversionKindModel::UnsupportedKeyKind("error"@),
                                ),
                            ));
                            lemma_keyed_part_err_extends(kyms, kdx + 1);
                        }
                        return Err(
                            Error::Conversion(
                                ConversionKind::UnsupportedKeyKind(String::from_str("error")),
                            ),
                        );
                    },
                    other => {
                        proof {
                            assert(decreases_to!(*v => *other));
                        }
                        match value_to_guest(other) {
                            Ok(gk) => {
                                proof {
                                    assert(spec_key_to_guest(kyms[kdx as int].0) == Ok::<
                                        _,
                                        ErrorModel,
                                    >(gk@));
                                }
                                gk
                            },
                            Err(e) => {
                                proof {
                                    assert(kyms.subrange(0, kdx + 1).drop_last() =~= kyms.subrange(
                                        0,
                                        kdx as int,
                                    ));
                                    assert(kyms.subrange(0, kdx + 1).last() == kyms[kdx as int]);
                                    assert(spec_key_to_guest(kyms[kdx as int].0) == Err::<
                                        GuestModel,
                                        ErrorModel,
                                    >(e@));
                                    lemma_keyed_part_err_extends(kyms, kdx + 1);
                                }
                                return Err(e);
                            },
                        }
                    },
                };
                proof {
                    assert(decreases_to!(*v => pair.1));
                }
                let gv = match value_to_guest(&pair.1) {
                    Ok(gv) => gv,
                    Err(e) => {
                        proof {
                            assert(kyms.subrange(0, kdx + 1).drop_last() =~= kyms.subrange(
                                0,
                                kdx as int,
                            ));
                            assert(kyms.subrange(0, kdx + 1).last() == kyms[kdx as int]);
                            lemma_keyed_part_err_extends(kyms, kdx + 1);
                        }
                        return Err(e);
                    },
                };
                proof {
                    assert(kyms.subrange(0, kdx + 1).drop_last() =~= kyms.subrange(0, kdx as int));
                    assert(kyms.subrange(0, kdx + 1).last() == kyms[kdx as int]);
                    assert(kentries@.push((gk, gv)).drop_last() =~= kentries@);
                }
                kentries.push((gk, gv));
                kdx = kdx + 1;
            }
            proof {
                assert(kyms.subrange(0, n_ky as int) =~= kyms);
                lemma_entry_models_concat(entries@, kentries@);
            }
            entries.append(&mut kentries);
            Ok(GuestValue::Table(entries))
        },
    }
}


/// The guest key a host object property name becomes: a numeric-looking
/// name turns into the integer key one above its index, any other name
/// passes through.
pub open spec fn spec_host_entry_key(s: Seq<char>) -> GuestModel {
    match spec_canonical_u32(s) {
        Some(n) => GuestModel::Integer(n + 1),
        None => GuestModel::Text(s),
    }
}

/// The guest entries of a host array: element `i` under guest key `i + 1`,
/// in index order.
pub open spec fn spec_host_array_entries(es: Seq<HostModel>) -> Result<
    Seq<(GuestModel, GuestModel)>,
    ErrorModel,
>
    decreases es,
{
    if es.len() == 0 {
        Ok(Seq::empty())
    } else {
        match spec_host_array_entries(es.drop_last()) {
            Err(e) => Err(e),
            Ok(list) => match spec_host_to_guest(es.last()) {
                Err(e) => Err(e),
                Ok(gv) => Ok(list.push((GuestModel::Integer(es.len() as int), gv))),
            },
        }
    }
}

/// The guest entries of a host object, own enumerable properties in order.
pub open spec fn spec_host_object_entries(ps: Seq<(HostKeyModel, HostModel)>) -> Result<
    Seq<(GuestModel, GuestModel)>,
    ErrorModel,
>
    decreases ps,
{
    if ps.len() == 0 {
        Ok(Seq::empty())
    } else {
        match spec_host_object_entries(ps.drop_last()) {
            Err(e) => Err(e),
            Ok(list) => match ps.last().0 {
                HostKeyModel::Symbol(_) => Err(
                    ErrorModel::Conversion(ConversionKindModel::UnsupportedKeyKind("symbol"@)),
                ),
                HostKeyModel::Name(s) => match spec_host_to_guest(ps.last().1) {
                    Err(e) => Err(e),
                    Ok(gv) => Ok(list.push((spec_host_entry_key(s), gv))),
                },
            },
        }
    }
}

/// What one concrete host value converts to in the guest (see the module
/// doc), or the first failure met while walking it.
pub open spec fn spec_host_to_guest(h: HostModel) -> Result<GuestModel, ErrorModel>
    decreases h,
{
    match h {
        HostModel::Null => Ok(GuestModel::Nil),
        HostModel::Undefined => Ok(GuestModel::Nil),
        HostModel::Boolean(b) => Ok(GuestModel::Boolean(b)),
        HostModel::Number(n) => match n {
            NumModel::SafeInt(i) => Ok(GuestModel::Integer(i)),
            NumModel::Float { bits, decimal } => Ok(
                GuestModel::Number(NumModel::Float { bits, decimal }),
            ),
        },
        HostModel::Text(s) => Ok(GuestModel::Text(s)),
        HostModel::BigInt(i) => Ok(GuestModel::Integer(i)),
        HostModel::Array(es) => if es.len() > u32::MAX {
            Err(ErrorModel::HostBoundary("array length exceeds index range"@))
        } else {
            match spec_host_array_entries(es) {
                Err(e) => Err(e),
                Ok(list) => Ok(GuestModel::Table(list)),
            }
        },
        HostModel::Object(ps) => match spec_host_object_entries(ps) {
            Err(e) => Err(e),
            Ok(list) => Ok(GuestModel::Table(list)),
        },
        HostModel::Function => Err(
            ErrorModel::Conversion(ConversionKindModel::UnsupportedValueKind("function"@)),
        ),
        HostModel::Symbol(_) => Err(
            ErrorModel::Conversion(ConversionKindModel::UnsupportedKeyKind("symbol"@)),
        ),
        HostModel::Opaque(c) => Err(
            ErrorModel::Conversion(ConversionKindModel::UnsupportedValueKind(c)),
        ),
    }
}

proof fn lemma_host_array_err_extends(es: Seq<HostModel>, k: int)
    requires
        0 <= k <= es.len(),
        spec_host_array_entries(es.subrange(0, k)) is Err,
    ensures
        spec_host_array_entries(es) == spec_host_array_entries(es.subrange(0, k)),
    decreases es.len() - k,
{
    if k == es.len() {
        assert(es.subrange(0, k) =~= es);
    } else {
        assert(es.drop_last().subrange(0, k) =~= es.subrange(0, k));
        lemma_host_array_err_extends(es.drop_last(), k);
    }
}

proof fn lemma_host_object_err_extends(ps: Seq<(HostKeyModel, HostModel)>, k: int)
    requires
        0 <= k <= ps.len(),
        spec_host_object_entries(ps.subrange(0, k)) is Err,
    ensures
        spec_host_object_entries(ps) == spec_host_object_entries(ps.subrange(0, k)),
    decreases ps.len() - k,
{
    if k == ps.len() {
        assert(ps.subrange(0, k) =~= ps);
    } else {
        assert(ps.drop_last().subrange(0, k) =~= ps.subrange(0, k));
        lemma_host_object_err_extends(ps.drop_last(), k);
    }
}

/// Convert one concrete host value into the guest's native representation
/// (see [`spec_host_to_guest`]).
#[verifier::loop_isolation(false)]
pub fn host_to_guest(h: &HostValue) -> (r: Result<GuestValue, Error>)
    ensures
        guest_result_model(r) == spec_host_to_guest(h@),
    decreases *h,
{
    match h {
        HostValue::Null => Ok(GuestValue::Nil),
        HostValue::Undefined => Ok(GuestValue::Nil),
        HostValue::Boolean(b) => Ok(GuestValue::Boolean(*b)),
        HostValue::Number(n) => match n {
            Num::SafeInt(i) => Ok(GuestValue::Integer(*i)),
            Num::Float { .. } => Ok(GuestValue::Number(n.duplicate())),
        },
        HostValue::Text(s) => Ok(GuestValue::Text(s.clone())),
        HostValue::BigInt(i) => Ok(GuestValue::Integer(*i)),
        HostValue::Function => Err(
            Error::Conversion(ConversionKind::UnsupportedValueKind(String::from_str("function"))),
        ),
        HostValue::Symbol(_) => Err(
            Error::Conversion(ConversionKind::UnsupportedKeyKind(String::from_str("symbol"))),
        ),
        HostValue::Opaque(c) => Err(
            Error::Conversion(ConversionKind::UnsupportedValueKind(c.clone())),
        ),
        HostValue::Array(elems) => {
            let ghost ems = elem_models(elems@);
            proof {
                lemma_elem_models(elems@);
            }
            if elems.len() > 4294967295 {
                return Err(
                    Error::HostBoundary(String::from_str("array length exceeds index range")),
                );
            }
            let mut entries: Vec<(GuestValue, GuestValue)> = Vec::new();
            let n = elems.len();
            let mut idx: usize = 0;
            proof {
                assert(ems.subrange(0, 0) =~= Seq::<HostModel>::empty());
                assert(entry_models(entries@) =~= Seq::<(GuestModel, GuestModel)>::empty());
            }
            while idx < n
                invariant
                    idx <= n,
                    spec_host_array_entries(ems.subrange(0, idx as int)) == Ok::<_, ErrorModel>(
                        entry_models(entries@),
                    ),
                decreases n - idx,
            {
                let elem = &elems[idx];
                proof {
                    assert(decreases_to!(*h => *elem));
                }
                let gv = match host_to_guest(elem) {
                    Ok(gv) => gv,
                    Err(e) => {
                        proof {
                            assert(ems.subrange(0, idx + 1).drop_last() =~= ems.subrange(
                                0,
                                idx as int,
                            ));
                            assert(ems.subrange(0, idx + 1).last() == ems[idx as int]);
                            lemma_host_array_err_extends(ems, idx + 1);
                        }
                        return Err(e);
                    },
                };
                let key: i64 = (idx as i64) + 1;
                proof {
                    assert(ems.subrange(0, idx + 1).drop_last() =~= ems.subrange(0, idx as int));
                    assert(ems.subrange(0, idx + 1).last() == ems[idx as int]);
                    assert(guest_model(GuestValue::Integer(key)) == GuestModel::Integer(
                        key as int,
                    ));
                    assert(entries@.push((GuestValue::Integer(key), gv)).drop_last() =~= entries@);
                }
                entries.push((GuestValue::Integer(key), gv));
                idx = idx + 1;
            }
            proof {
                assert(ems.subrange(0, n as int) =~= ems);
            }
            Ok(GuestValue::Table(entries))
        },
        HostValue::Object(props) => {
            let ghost pms = prop_models(props@);
            proof {
                lemma_prop_models(props@);
            }
            let mut entries: Vec<(GuestValue, GuestValue)> = Vec::new();
            let n = props.len();
            let mut idx: usize = 0;
            proof {
                assert(pms.subrange(0, 0) =~= Seq::<(HostKeyModel, HostModel)>::empty());
                assert(entry_models(entries@) =~= Seq::<(GuestModel, GuestModel)>::empty());
            }
            while idx < n
                invariant
                    idx <= n,
                    spec_host_object_entries(pms.subrange(0, idx as int)) == Ok::<_, ErrorModel>(
                        entry_models(entries@),
                    ),
                decreases n - idx,
            {
                let prop = &props[idx];
                let name = match &prop.0 {
                    HostKey::Name(s) => s,
                    HostKey::Symbol(_) => {
                        proof {
                            assert(pms.subrange(0, idx + 1).drop_last() =~= pms.subrange(
                                0,
                                idx as int,
                            ));
                            assert(pms.subrange(0, idx + 1).last() == pms[idx as int]);
                            lemma_host_object_err_extends(pms, idx + 1);
                        }
                        return Err(
                            Error::Conversion(
                                ConversionKind::UnsupportedKeyKind(String::from_str("symbol")),
                            ),
                        );
                    },
                };
                proof {
                    assert(decreases_to!(*h => prop.1));
                }
                let gv = match host_to_guest(&prop.1) {
                    Ok(gv) => gv,
                    Err(e) => {
                        proof {
                            assert(pms.subrange(0, idx + 1).drop_last() =~= pms.subrange(
                                0,
                                idx as int,
                            ));
                            assert(pms.subrange(0, idx + 1).last() == pms[idx as int]);
                            lemma_host_object_err_extends(pms, idx + 1);
                        }
                        return Err(e);
                    },
                };
                let gk = match parse_index(name.as_str()) {
                    Some(ix) => {
                        proof {
                            lemma_canonical_u32_range(name@);
                        }
                        GuestValue::Integer((ix as i64) + 1)
                    },
                    None => GuestValue::Text(name.clone()),
                };
                proof {
                    assert(pms.subrange(0, idx + 1).drop_last() =~= pms.subrange(0, idx as int));
                    assert(pms.subrange(0, idx + 1).last() == pms[idx as int]);
                    assert(guest_model(gk) == spec_host_entry_key(name@));
                    assert(entries@.push((gk, gv)).drop_last() =~= entries@);
                }
                entries.push((gk, gv));
                idx = idx + 1;
            }
            proof {
                assert(pms.subrange(0, n as int) =~= pms);
            }
            Ok(GuestValue::Table(entries))
        },
    }
}

} // verus!
