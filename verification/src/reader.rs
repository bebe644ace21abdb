//! The Host Reader: turns a concrete host value into a [`Value`],
//! deterministically.
//!
//! Host arrays map directly to the indexed part under zero-based indices —
//! the host type already disambiguates. Host objects iterate their own
//! enumerable keys in order: numeric-looking names go to the indexed part,
//! every other name to the keyed part under `Text`. Nested values convert
//! recursively and synchronously. A host function value reads as a
//! non-callable placeholder text; a symbol-keyed entry and a symbol or
//! otherwise opaque value cannot be read into a `Value` and fail typed.

use vstd::prelude::*;
use vstd::string::StringExecFns;

use crate::digits::{lemma_canonical_u32_range, parse_index, spec_canonical_u32};
use crate::error::{ConversionKind, ConversionKindModel, Error, ErrorModel};
use crate::from_guest::value_result_model;
use crate::host::{
    elem_models, lemma_elem_models, lemma_prop_models, prop_models, HostKey, HostKeyModel,
    HostModel, HostValue,
};
use crate::value::{indexed_models, keyed_models, value_model, Value, ValueModel};

verus! {

/// The indexed entries read from a host array: element `i` under index `i`.
pub open spec fn spec_read_elems(es: Seq<HostModel>) -> Result<Seq<(u32, ValueModel)>, ErrorModel>
    decreases es,
{
    if es.len() == 0 {
        Ok(Seq::empty())
    } else {
        match spec_read_elems(es.drop_last()) {
            Err(e) => Err(e),
            Ok(list) => match spec_read_host(es.last()) {
                Err(e) => Err(e),
                Ok(v) => Ok(list.push(((es.len() - 1) as u32, v))),
            },
        }
    }
}

/// The two parts read from a host object's own enumerable properties, in
/// order: numeric-looking names indexed, other names keyed.
pub open spec fn spec_read_props(ps: Seq<(HostKeyModel, HostModel)>) -> Result<
    (Seq<(ValueModel, ValueModel)>, Seq<(u32, ValueModel)>),
    ErrorModel,
>
    decreases ps,
{
    if ps.len() == 0 {
        Ok((Seq::empty(), Seq::empty()))
    } else {
        match spec_read_props(ps.drop_last()) {
            Err(e) => Err(e),
            Ok((keyed, indexed)) => match ps.last().0 {
                HostKeyModel::Symbol(_) => Err(
                    ErrorModel::Conversion(ConversionKindModel::UnsupportedKeyKind("symbol"@)),
                ),
                HostKeyModel::Name(s) => match spec_read_host(ps.last().1) {
                    Err(e) => Err(e),
                    Ok(v) => match spec_canonical_u32(s) {
                        Some(n) => Ok((keyed, indexed.push((n as u32, v)))),
                        None => Ok((keyed.push((ValueModel::Text(s), v)), indexed)),
                    },
                },
            },
        }
    }
}

/// What one concrete host value reads as (see the module doc): both host
/// nothing states read as `Null`, numbers as `Double`, the host's large
/// integers as `LargeInteger`, containers recursively.
pub open spec fn spec_read_host(h: HostModel) -> Result<ValueModel, ErrorModel>
    decreases h,
{
    match h {
        HostModel::Null => Ok(ValueModel::Null),
        HostModel::Undefined => Ok(ValueModel::Null),
        HostModel::Boolean(b) => Ok(ValueModel::Boolean(b)),
        HostModel::Number(n) => Ok(ValueModel::Double(n)),
        HostModel::Text(s) => Ok(ValueModel::Text(s)),
        HostModel::BigInt(i) => Ok(ValueModel::LargeInteger(i)),
        HostModel::Array(es) => if es.len() > u32::MAX {
            Err(ErrorModel::HostBoundary("array length exceeds index range"@))
        } else {
            match spec_read_elems(es) {
                Err(e) => Err(e),
                Ok(indexed) => Ok(ValueModel::Composite { keyed: Seq::empty(), indexed }),
            }
        },
        HostModel::Object(ps) => match spec_read_props(ps) {
            Err(e) => Err(e),
            Ok((keyed, indexed)) => Ok(ValueModel::Composite { keyed, indexed }),
        },
        HostModel::Function => Ok(ValueModel::Text("[JsFunction]"@)),
        HostModel::Symbol(_) => Err(
            ErrorModel::Conversion(ConversionKindModel::UnsupportedValueKind("symbol"@)),
        ),
        HostModel::Opaque(c) => Err(
            ErrorModel::Conversion(ConversionKindModel::UnsupportedValueKind(c)),
        ),
    }
}

proof fn lemma_read_elems_err_extends(es: Seq<HostModel>, k: int)
    requires
        0 <= k <= es.len(),
        spec_read_elems(es.subrange(0, k)) is Err,
    ensures
        spec_read_elems(es) == spec_read_elems(es.subrange(0, k)),
    decreases es.len() - k,
{
    if k == es.len() {
        assert(es.subrange(0, k) =~= es);
    } else {
        assert(es.drop_last().subrange(0, k) =~= es.subrange(0, k));
        lemma_read_elems_err_extends(es.drop_last(), k);
    }
}

proof fn lemma_read_props_err_extends(ps: Seq<(HostKeyModel, HostModel)>, k: int)
    requires
        0 <= k <= ps.len(),
        spec_read_props(ps.subrange(0, k)) is Err,
    ensures
        spec_read_props(ps) == spec_read_props(ps.subrange(0, k)),
    decreases ps.len() - k,
{
    if k == ps.len() {
        assert(ps.subrange(0, k) =~= ps);
    } else {
        assert(ps.drop_last().subrange(0, k) =~= ps.subrange(0, k));
        lemma_read_props_err_extends(ps.drop_last(), k);
    }
}

/// Read one concrete host value into a [`Value`] (see [`spec_read_host`]).
#[verifier::loop_isolation(false)]
pub fn read_host(h: &HostValue) -> (r: Result<Value, Error>)
    ensures
        value_result_model(r) == spec_read_host(h@),
    decreases *h,
{
    match h {
        HostValue::Null => Ok(Value::Null),
        HostValue::Undefined => Ok(Value::Null),
        HostValue::Boolean(b) => Ok(Value::Boolean(*b)),
        HostValue::Number(n) => Ok(Value::Double(n.duplicate())),
        HostValue::Text(s) => Ok(Value::Text(s.clone())),
        HostValue::BigInt(i) => Ok(Value::LargeInteger(*i)),
        HostValue::Function => Ok(Value::Text(String::from_str("[JsFunction]"))),
        HostValue::Symbol(_) => Err(
            Error::Conversion(ConversionKind::UnsupportedValueKind(String::from_str("symbol"))),
        ),
        HostValue::Opaque(c) => Err(
            Error::Conversion(ConversionKind::UnsupportedValueKind(c.clone())),
        ),
        HostValue::Array(elems) => {
            let ghost ems = elem_models(elems@);
            proof {
                lemma_elem_models(elems@);
            }
            if elems.len() > 4294967295 {
                return Err(
                    Error::HostBoundary(String::from_str("array length exceeds index range")),
                );
            }
            let mut indexed: Vec<(u32, Value)> = Vec::new();
            let n = elems.len();
            let mut idx: usize = 0;
            proof {
                assert(ems.subrange(0, 0) =~= Seq::<HostModel>::empty());
                assert(indexed_models(indexed@) =~= Seq::<(u32, ValueModel)>::empty());
            }
            while idx < n
                invariant
                    idx <= n,
                    spec_read_elems(ems.subrange(0, idx as int)) == Ok::<_, ErrorModel>(
                        indexed_models(indexed@),
                    ),
                decreases n - idx,
            {
                let elem = &elems[idx];
                proof {
                    assert(decreases_to!(*h => *elem));
                }
                let v = match read_host(elem) {
                    Ok(v) => v,
                    Err(e) => {
                        proof {
                            assert(ems.subrange(0, idx + 1).drop_last() =~= ems.subrange(
                                0,
                                idx as int,
                            ));
                            assert(ems.subrange(0, idx + 1).last() == ems[idx as int]);
                            lemma_read_elems_err_extends(ems, idx + 1);
                        }
                        return Err(e);
                    },
                };
                proof {
                    assert(ems.subrange(0, idx + 1).drop_last() =~= ems.subrange(0, idx as int));
                    assert(ems.subrange(0, idx + 1).last() == ems[idx as int]);
                    assert(indexed@.push(((idx as u32), v)).drop_last() =~= indexed@);
                }
                indexed.push((idx as u32, v));
                idx = idx + 1;
            }
            proof {
                assert(ems.subrange(0, n as int) =~= ems);
                assert(keyed_models(Seq::<(Value, Value)>::empty()) =~= Seq::<
                    (ValueModel, ValueModel),
                >::empty());
            }
            Ok(Value::Composite { keyed: Vec::new(), indexed })
        },
        HostValue::Object(props) => {
            let ghost pms = prop_models(props@);
            proof {
                lemma_prop_models(props@);
            }
            let mut keyed: Vec<(Value, Value)> = Vec::new();
            let mut indexed: Vec<(u32, Value)> = Vec::new();
            let n = props.len();
            let mut idx: usize = 0;
            proof {
                assert(pms.subrange(0, 0) =~= Seq::<(HostKeyModel, HostModel)>::empty());
                assert(keyed_models(keyed@) =~= Seq::<(ValueModel, ValueModel)>::empty());
                assert(indexed_models(indexed@) =~= Seq::<(u32, ValueModel)>::empty());
            }
            while idx < n
                invariant
                    idx <= n,
                    spec_read_props(pms.subrange(0, idx as int)) == Ok::<_, ErrorModel>(
                        (keyed_models(keyed@), indexed_models(indexed@)),
                    ),
                decreases n - idx,
            {
                let prop = &props[idx];
                let name = match &prop.0 {
                    HostKey::Name(s) => s,
                    HostKey::Symbol(_) => {
                        proof {
                            assert(pms.subrange(0, idx + 1).drop_last() =~= pms.subrange(
                                0,
                                idx as int,
                            ));
                            assert(pms.subrange(0, idx + 1).last() == pms[idx as int]);
                            lemma_read_props_err_extends(pms, idx + 1);
                        }
                        return Err(
                            Error::Conversion(
                                ConversionKind::UnsupportedKeyKind(String::from_str("symbol")),
                            ),
                        );
                    },
                };
                proof {
                    assert(decreases_to!(*h => prop.1));
                }
                let v = match read_host(&prop.1) {
                    Ok(v) => v,
                    Err(e) => {
                        proof {
                            assert(pms.subrange(0, idx + 1).drop_last() =~= pms.subrange(
                                0,
                                idx as int,
                            ));
                            assert(pms.subrange(0, idx + 1).last() == pms[idx as int]);
                            lemma_read_props_err_extends(pms, idx + 1);
                        }
                        return Err(e);
                    },
                };
                proof {
                    assert(pms.subrange(0, idx + 1).drop_last() =~= pms.subrange(0, idx as int));
                    assert(pms.subrange(0, idx + 1).last() == pms[idx as int]);
                }
                match parse_index(name.as_str()) {
                    Some(ix) => {
                        proof {
                            lemma_canonical_u32_range(name@);
                            assert(indexed@.push((ix, v)).drop_last() =~= indexed@);
                        }
                        indexed.push((ix, v));
                    },
                    None => {
                        let key = Value::Text(name.clone());
                        proof {
                            assert(value_model(key) == ValueModel::Text(name@));
                            assert(keyed@.push((key, v)).drop_last() =~= keyed@);
                        }
                        keyed.push((key, v));
                    },
                }
                idx = idx + 1;
            }
            proof {
                assert(pms.subrange(0, n as int) =~= pms);
            }
            Ok(Value::Composite { keyed, indexed })
        },
    }
}

} // verus!
