//! The Host Materializer: turns a [`Value`] into concrete host-side
//! values, allocating symbol identities through a shared registry.
//!
//! A composite with a non-empty indexed part becomes an array-like host
//! container, otherwise a plain-object-like one; its indexed entries are
//! written before its keyed entries, so a keyed entry whose derived name
//! collides with an index-derived one overrides it — last write wins,
//! matching how the guest composite itself would resolve the same
//! ambiguity. An interned symbol resolves through the registry keyed by
//! description, so repeated materializations of the same description yield
//! identical identity; a non-interned symbol is freshly allocated each
//! time. An error value becomes a typed failure carrying the guest error
//! message, never a plain value.

use vstd::prelude::*;
use vstd::string::StringExecFns;

use crate::digits::{i64_to_decimal, spec_i64_decimal};
use crate::error::{ConversionKind, ConversionKindModel, Error, ErrorModel};
use crate::value::{
    indexed_models, keyed_models, lemma_indexed_models, lemma_keyed_models, Num, NumModel, Value,
    ValueModel,
};

verus! {

/// One property write against a host container: under an index, a name,
/// or a symbol identity.
pub enum HostProp {
    Index(u32),
    Name(String),
    Symbol { description: String, id: u64, interned: bool },
}

/// Spec-level picture of [`HostProp`].
pub enum HostPropModel {
    Index(u32),
    Name(Seq<char>),
    Symbol { description: Seq<char>, id: u64, interned: bool },
}

impl View for HostProp {
    type V = HostPropModel;

    open spec fn view(&self) -> HostPropModel {
        match self {
            HostProp::Index(i) => HostPropModel::Index(*i),
            HostProp::Name(s) => HostPropModel::Name(s@),
            HostProp::Symbol { description, id, interned } => HostPropModel::Symbol {
                description: description@,
                id: *id,
                interned: *interned,
            },
        }
    }
}

/// A materialized host value. Scalars carry their value; a symbol carries
/// its description and the identity the registry gave it; a container
/// carries its kind and the ordered writes that build it.
pub enum HostOut {
    Null,
    Undefined,
    Boolean(bool),
    Number(Num),
    Text(String),
    BigInt(i64),
    Symbol { description: String, id: u64, interned: bool },
    Container { array_like: bool, writes: Vec<(HostProp, HostOut)> },
}

/// Spec-level picture of [`HostOut`].
pub enum HostOutModel {
    Null,
    Undefined,
    Boolean(bool),
    Number(NumModel),
    Text(Seq<char>),
    BigInt(int),
    Symbol { description: Seq<char>, id: u64, interned: bool },
    Container { array_like: bool, writes: Seq<(HostPropModel, HostOutModel)> },
}

/// The model of an exec [`HostOut`].
pub open spec fn host_out_model(h: HostOut) -> HostOutModel
    decreases h,
{
    match h {
        HostOut::Null => HostOutModel::Null,
        HostOut::Undefined => HostOutModel::Undefined,
        HostOut::Boolean(b) => HostOutModel::Boolean(b),
        HostOut::Number(n) => HostOutModel::Number(n@),
        HostOut::Text(s) => HostOutModel::Text(s@),
        HostOut::BigInt(i) => HostOutModel::BigInt(i as int),
        HostOut::Symbol { description, id, interned } => HostOutModel::Symbol {
            description: description@,
            id,
            interned,
        },
        HostOut::Container { array_like, writes } => HostOutModel::Container {
            array_like,
            writes: write_models(writes@),
        },
    }
}

/// The models of a sequence of property writes.
pub open spec fn write_models(s: Seq<(HostProp, HostOut)>) -> Seq<(HostPropModel, HostOutModel)>
    decreases s,
{
    if s.len() == 0 {
        Seq::empty()
    } else {
        write_models(s.drop_last()).push((s.last().0@, host_out_model(s.last().1)))
    }
}

impl View for HostOut {
    type V = HostOutModel;

    open spec fn view(&self) -> HostOutModel {
        host_out_model(*self)
    }
}

/// The shared lookup/creation registry for symbol identities. Interned
/// descriptions map to a stable identity; every allocation, interned or
/// fresh, takes the next identity in order.
pub struct SymbolRegistry {
    pub entries: Vec<(String, u64)>,
    pub next_id: u64,
}

/// Spec-level picture of [`SymbolRegistry`]: the interned descriptions
/// with their identities, and the next identity to hand out.
pub struct RegistryModel {
    pub map: Map<Seq<char>, u64>,
    pub next_id: u64,
}

/// The map an entry sequence denotes.
pub open spec fn entries_map(s: Seq<(String, u64)>) -> Map<Seq<char>, u64>
    decreases s,
{
    if s.len() == 0 {
        Map::empty()
    } else {
        entries_map(s.drop_last()).insert(s.last().0@, s.last().1)
    }
}

impl View for SymbolRegistry {
    type V = RegistryModel;

    open spec fn view(&self) -> RegistryModel {
        RegistryModel { map: entries_map(self.entries@), next_id: self.next_id }
    }
}

proof fn lemma_entries_map_absent(s: Seq<(String, u64)>, d: Seq<char>)
    requires
        forall|i: int| 0 <= i < s.len() ==> s[i].0@ != d,
    ensures
        !entries_map(s).contains_key(d),
    decreases s.len(),
{
    if s.len() > 0 {
        lemma_entries_map_absent(s.drop_last(), d);
    }
}

proof fn lemma_entries_map_found(s: Seq<(String, u64)>, i: int)
    requires
        0 <= i < s.len(),
        forall|j: int| i < j < s.len() ==> s[j].0@ != s[i].0@,
    ensures
        entries_map(s).contains_key(s[i].0@),
        entries_map(s)[s[i].0@] == s[i].1,
    decreases s.len(),
{
    if i + 1 < s.len() {
        lemma_entries_map_found(s.drop_last(), i);
    }
}

/// What interning a description does: an already-interned description
/// keeps its identity and the registry is unchanged; otherwise the next
/// identity is recorded for it, unless the identity space is exhausted.
pub open spec fn spec_intern(m: RegistryModel, d: Seq<char>) -> Result<
    (u64, RegistryModel),
    ErrorModel,
> {
    if m.map.contains_key(d) {
        Ok((m.map[d], m))
    } else if m.next_id < u64::MAX {
        Ok(
            (
                m.next_id,
                RegistryModel { map: m.map.insert(d, m.next_id), next_id: (m.next_id + 1) as u64 },
            ),
        )
    } else {
        Err(ErrorModel::HostBoundary("symbol registry exhausted"@))
    }
}

/// What a fresh allocation does: the next identity is handed out and never
/// recorded, unless the identity space is exhausted.
pub open spec fn spec_fresh(m: RegistryModel) -> Result<(u64, RegistryModel), ErrorModel> {
    if m.next_id < u64::MAX {
        Ok((m.next_id, RegistryModel { map: m.map, next_id: (m.next_id + 1) as u64 }))
    } else {
        Err(ErrorModel::HostBoundary("symbol registry exhausted"@))
    }
}

impl SymbolRegistry {
    /// The registry's internal invariant: descriptions are recorded at
    /// most once, and every recorded identity is below the next one.
    pub open spec fn wf(self) -> bool {
        &&& forall|i: int, j: int|
            0 <= i < j < self.entries@.len() ==> self.entries@[i].0@ != self.entries@[j].0@
        &&& forall|i: int| 0 <= i < self.entries@.len() ==> #[trigger] self.entries@[i].1
            < self.next_id
    }

    /// An empty registry.
    pub fn new() -> (r: SymbolRegistry)
        ensures
            r.wf(),
            r@.map == Map::<Seq<char>, u64>::empty(),
            r@.next_id == 0,
    {
        let r = SymbolRegistry { entries: Vec::new(), next_id: 0 };
        proof {
            assert(entries_map(r.entries@) =~= Map::<Seq<char>, u64>::empty());
        }
        r
    }

    /// Resolve a description through the registry (see [`spec_intern`]).
    #[verifier::loop_isolation(false)]
    pub fn intern(&mut self, d: &String) -> (r: Result<u64, Error>)
        requires
            old(self).wf(),
        ensures
            final(self).wf(),
            match spec_intern(old(self)@, d@) {
                Ok(p) => r matches Ok(id) && id == p.0 && final(self)@ == p.1,
                Err(em) => (r matches Err(e) && e@ == em) && final(self)@ == old(self)@,
            },
    {
        let n = self.entries.len();
        let mut i: usize = 0;
        while i < n
            invariant
                i <= n == self.entries@.len(),
                forall|j: int| 0 <= j < i ==> self.entries@[j].0@ != d@,
                *self == *old(self),
            decreases n - i,
        {
            let entry = &self.entries[i];
            if entry.0 == *d {
                proof {
                    lemma_entries_map_found(self.entries@, i as int);
                }
                return Ok(entry.1);
            }
            i = i + 1;
        }
        proof {
            lemma_entries_map_absent(self.entries@, d@);
        }
        if self.next_id == u64::MAX {
            return Err(Error::HostBoundary(String::from_str("symbol registry exhausted")));
        }
        let id = self.next_id;
        let ghost old_entries = self.entries@;
        self.entries.push((d.clone(), id));
        self.next_id = id + 1;
        proof {
            assert(self.entries@.drop_last() =~= old_entries);
            assert(self.entries@.last().0@ == d@);
            assert(entries_map(self.entries@) == entries_map(old_entries).insert(d@, id));
        }
        Ok(id)
    }

    /// Allocate a fresh identity (see [`spec_fresh`]).
    pub fn fresh(&mut self) -> (r: Result<u64, Error>)
        requires
            old(self).wf(),
        ensures
            final(self).wf(),
            match spec_fresh(old(self)@) {
                Ok(p) => r matches Ok(id) && id == p.0 && final(self)@ == p.1,
                Err(em) => (r matches Err(e) && e@ == em) && final(self)@ == old(self)@,
            },
    {
        if self.next_id == u64::MAX {
            return Err(Error::HostBoundary(String::from_str("symbol registry exhausted")));
        }
        let id = self.next_id;
        self.next_id = id + 1;
        Ok(id)
    }
}


/// Write models distribute over concatenation.
pub proof fn lemma_write_models_concat(a: Seq<(HostProp, HostOut)>, b: Seq<(HostProp, HostOut)>)
    ensures
        write_models(a + b) == write_models(a) + write_models(b),
    decreases b.len(),
{
    if b.len() == 0 {
        assert(a + b =~= a);
        assert(write_models(a) + write_models(b) =~= write_models(a));
    } else {
        assert((a + b).drop_last() =~= a + b.drop_last());
        assert((a + b).last() == b.last());
        lemma_write_models_concat(a, b.drop_last());
        assert(write_models(a + b) =~= write_models(a) + write_models(b));
    }
}

/// The property a keyed `Value` key is written under, as the host itself
/// would derive it: text passes through; a symbol resolves to an identity
/// through the registry; numbers, booleans and the two nothing states are
/// written under their canonical text; an error key fails with the guest
/// error message; a composite key cannot name a property.
pub open spec fn spec_prop_of_key(k: ValueModel, m: RegistryModel) -> (
    Result<HostPropModel, ErrorModel>,
    RegistryModel,
) {
    match k {
        ValueModel::Text(s) => (Ok(HostPropModel::Name(s)), m),
        ValueModel::Symbol { description, interned } => {
            let alloc = if interned {
                spec_intern(m, description)
            } else {
                spec_fresh(m)
            };
            match alloc {
                Ok(p) => (Ok(HostPropModel::Symbol { description, id: p.0, interned }), p.1),
                Err(e) => (Err(e), m),
            }
        },
        ValueModel::Double(n) => match n {
            NumModel::SafeInt(i) => (Ok(HostPropModel::Name(spec_i64_decimal(i))), m),
            NumModel::Float { decimal, .. } => (Ok(HostPropModel::Name(decimal)), m),
        },
        ValueModel::LargeInteger(i) => (Ok(HostPropModel::Name(spec_i64_decimal(i))), m),
        ValueModel::Boolean(b) => (
            Ok(HostPropModel::Name(if b { "true"@ } else { "false"@ })),
            m,
        ),
        ValueModel::Null => (Ok(HostPropModel::Name("null"@)), m),
        ValueModel::Undefined => (Ok(HostPropModel::Name("undefined"@)), m),
        ValueModel::Error(msg) => (Err(ErrorModel::HostBoundary(msg)), m),
        ValueModel::Composite { .. } => (
            Err(ErrorModel::Conversion(ConversionKindModel::UnsupportedKeyKind("composite"@))),
            m,
        ),
    }
}

/// The writes for the indexed entries, in order, threading the registry.
pub open spec fn spec_mat_indexed(ixs: Seq<(u32, ValueModel)>, m: RegistryModel) -> (
    Result<Seq<(HostPropModel, HostOutModel)>, ErrorModel>,
    RegistryModel,
)
    decreases ixs,
{
    if ixs.len() == 0 {
        (Ok(Seq::empty()), m)
    } else {
        let rec = spec_mat_indexed(ixs.drop_last(), m);
        match rec.0 {
            Err(e) => (Err(e), rec.1),
            Ok(ws) => {
                let step = spec_materialize(ixs.last().1, rec.1);
                match step.0 {
                    Err(e) => (Err(e), step.1),
                    Ok(ho) => (
                        Ok(ws.push((HostPropModel::Index(ixs.last().0), ho))),
                        step.1,
                    ),
                }
            },
        }
    }
}

/// The writes for the keyed entries, in order, key before value,
/// threading the registry.
pub open spec fn spec_mat_keyed(kys: Seq<(ValueModel, ValueModel)>, m: RegistryModel) -> (
    Result<Seq<(HostPropModel, HostOutModel)>, ErrorModel>,
    RegistryModel,
)
    decreases kys,
{
    if kys.len() == 0 {
        (Ok(Seq::empty()), m)
    } else {
        let rec = spec_mat_keyed(kys.drop_last(), m);
        match rec.0 {
            Err(e) => (Err(e), rec.1),
            Ok(ws) => {
                let kp = spec_prop_of_key(kys.last().0, rec.1);
                match kp.0 {
                    Err(e) => (Err(e), kp.1),
                    Ok(prop) => {
                        let step = spec_materialize(kys.last().1, kp.1);
                        match step.0 {
                            Err(e) => (Err(e), step.1),
                            Ok(ho) => (Ok(ws.push((prop, ho))), step.1),
                        }
                    },
                }
            },
        }
    }
}

/// What one `Value` materializes to on the host (see the module doc), and
/// the registry that results. The first failure met while walking the
/// value aborts the crossing.
pub open spec fn spec_materialize(v: ValueModel, m: RegistryModel) -> (
    Result<HostOutModel, ErrorModel>,
    RegistryModel,
)
    decreases v,
{
    match v {
        ValueModel::Null => (Ok(HostOutModel::Null), m),
        ValueModel::Undefined => (Ok(HostOutModel::Undefined), m),
        ValueModel::Boolean(b) => (Ok(HostOutModel::Boolean(b)), m),
        ValueModel::Text(s) => (Ok(HostOutModel::Text(s)), m),
        ValueModel::Double(n) => (Ok(HostOutModel::Number(n)), m),
        ValueModel::LargeInteger(i) => (Ok(HostOutModel::BigInt(i)), m),
        ValueModel::Error(msg) => (Err(ErrorModel::HostBoundary(msg)), m),
        ValueModel::Symbol { description, interned } => {
            let alloc = if interned {
                spec_intern(m, description)
            } else {
                spec_fresh(m)
            };
            match alloc {
                Ok(p) => (Ok(HostOutModel::Symbol { description, id: p.0, interned }), p.1),
                Err(e) => (Err(e), m),
            }
        },
        ValueModel::Composite { keyed, indexed } => {
            let part1 = spec_mat_indexed(indexed, m);
            match part1.0 {
                Err(e) => (Err(e), part1.1),
                Ok(ws1) => {
                    let part2 = spec_mat_keyed(keyed, part1.1);
                    match part2.0 {
                        Err(e) => (Err(e), part2.1),
                        Ok(ws2) => (
                            Ok(
                                HostOutModel::Container {
                                    array_like: indexed.len() > 0,
                                    writes: ws1 + ws2,
                                },
                            ),
                            part2.1,
                        ),
                    }
                },
            }
        },
    }
}

proof fn lemma_mat_indexed_err_extends(ixs: Seq<(u32, ValueModel)>, m: RegistryModel, k: int)
    requires
        0 <= k <= ixs.len(),
        spec_mat_indexed(ixs.subrange(0, k), m).0 is Err,
    ensures
        spec_mat_indexed(ixs, m) == spec_mat_indexed(ixs.subrange(0, k), m),
    decreases ixs.len() - k,
{
    if k == ixs.len() {
        assert(ixs.subrange(0, k) =~= ixs);
    } else {
        assert(ixs.drop_last().subrange(0, k) =~= ixs.subrange(0, k));
        lemma_mat_indexed_err_extends(ixs.drop_last(), m, k);
    }
}

proof fn lemma_mat_keyed_err_extends(kys: Seq<(ValueModel, ValueModel)>, m: RegistryModel, k: int)
    requires
        0 <= k <= kys.len(),
        spec_mat_keyed(kys.subrange(0, k), m).0 is Err,
    ensures
        spec_mat_keyed(kys, m) == spec_mat_keyed(kys.subrange(0, k), m),
    decreases kys.len() - k,
{
    if k == kys.len() {
        assert(kys.subrange(0, k) =~= kys);
    } else {
        assert(kys.drop_last().subrange(0, k) =~= kys.subrange(0, k));
        lemma_mat_keyed_err_extends(kys.drop_last(), m, k);
    }
}

/// Derive the property one keyed key is written under (see
/// [`spec_prop_of_key`]).
fn prop_of_key(k: &Value, reg: &mut SymbolRegistry) -> (r: Result<HostProp, Error>)
    requires
        old(reg).wf(),
    ensures
        final(reg).wf(),
        ({
            let sp = spec_prop_of_key(k@, old(reg)@);
            final(reg)@ == sp.1 && match sp.0 {
                Ok(p) => r matches Ok(hp) && hp@ == p,
                Err(em) => r matches Err(e) && e@ == em,
            }
        }),
{
    match k {
        Value::Text(s) => Ok(HostProp::Name(s.clone())),
        Value::Symbol { description, interned } => {
            let alloc = if *interned {
                reg.intern(description)
            } else {
                reg.fresh()
            };
            match alloc {
                Ok(id) => Ok(
                    HostProp::Symbol { description: description.clone(), id, interned: *interned },
                ),
                Err(e) => Err(e),
            }
        },
        Value::Double(n) => match n {
            Num::SafeInt(i) => Ok(HostProp::Name(i64_to_decimal(*i))),
            Num::Float { decimal, .. } => Ok(HostProp::Name(decimal.clone())),
        },
        Value::LargeInteger(i) => Ok(HostProp::Name(i64_to_decimal(*i))),
        Value::Boolean(b) => if *b {
            Ok(HostProp::Name(String::from_str("true")))
        } else {
            Ok(HostProp::Name(String::from_str("false")))
        },
        Value::Null => Ok(HostProp::Name(String::from_str("null"))),
        Value::Undefined => Ok(HostProp::Name(String::from_str("undefined"))),
        Value::Error(msg) => Err(Error::HostBoundary(msg.clone())),
        Value::Composite { .. } => Err(
            Error::Conversion(ConversionKind::UnsupportedKeyKind(String::from_str("composite"))),
        ),
    }
}

/// Materialize one [`Value`] into a host value, resolving symbol
/// identities through `reg` (see [`spec_materialize`]).
#[verifier::loop_isolation(false)]
pub fn materialize(v: &Value, reg: &mut SymbolRegistry) -> (r: Result<HostOut, Error>)
    requires
        old(reg).wf(),
    ensures
        final(reg).wf(),
        ({
            let sp = spec_materialize(v@, old(reg)@);
            final(reg)@ == sp.1 && match sp.0 {
                Ok(ho) => r matches Ok(h) && h@ == ho,
                Err(em) => r matches Err(e) && e@ == em,
            }
        }),
    decreases *v,
{
    match v {
        Value::Null => Ok(HostOut::Null),
        Value::Undefined => Ok(HostOut::Undefined),
        Value::Boolean(b) => Ok(HostOut::Boolean(*b)),
        Value::Text(s) => Ok(HostOut::Text(s.clone())),
        Value::Double(n) => Ok(HostOut::Number(n.duplicate())),
        Value::LargeInteger(i) => Ok(HostOut::BigInt(*i)),
        Value::Error(msg) => Err(Error::HostBoundary(msg.clone())),
        Value::Symbol { description, interned } => {
            let alloc = if *interned {
                reg.intern(description)
            } else {
                reg.fresh()
            };
            match alloc {
                Ok(id) => Ok(
                    HostOut::Symbol { description: description.clone(), id, interned: *interned },
                ),
                Err(e) => Err(e),
            }
        },
        Value::Composite { keyed, indexed } => {
            let ghost ixms = indexed_models(indexed@);
            let ghost kyms = keyed_models(keyed@);
            proof {
                lemma_indexed_models(indexed@);
                lemma_keyed_models(keyed@);
            }
            let array_like = indexed.len() > 0;
            let mut writes: Vec<(HostProp, HostOut)> = Vec::new();
            let n_ix = indexed.len();
            let mut idx: usize = 0;
            proof {
                assert(ixms.subrange(0, 0) =~= Seq::<(u32, ValueModel)>::empty());
                assert(write_models(writes@) =~= Seq::<(HostPropModel, HostOutModel)>::empty());
            }
            while idx < n_ix
                invariant
                    idx <= n_ix,
                    reg.wf(),
                    spec_mat_indexed(ixms.subrange(0, idx as int), old(reg)@) == (
                        Ok::<_, ErrorModel>(write_models(writes@)),
                        reg@,
                    ),
                decreases n_ix - idx,
            {
                let pair = &indexed[idx];
                proof {
                    assert(decreases_to!(*v => pair.1));
                }
                let ho = match materialize(&pair.1, reg) {
                    Ok(ho) => ho,
                    Err(e) => {
                        proof {
                            assert(ixms.subrange(0, idx + 1).drop_last() =~= ixms.subrange(
                                0,
                                idx as int,
                            ));
                            assert(ixms.subrange(0, idx + 1).last() == ixms[idx as int]);
                            lemma_mat_indexed_err_extends(ixms, old(reg)@, idx + 1);
                        }
                        return Err(e);
                    },
                };
                let prop = HostProp::Index(pair.0);
                proof {
                    assert(ixms.subrange(0, idx + 1).drop_last() =~= ixms.subrange(0, idx as int));
                    assert(ixms.subrange(0, idx + 1).last() == ixms[idx as int]);
                    assert(prop@ == HostPropModel::Index(pair.0));
                    assert(writes@.push((prop, ho)).drop_last() =~= writes@);
                }
                writes.push((prop, ho));
                idx = idx + 1;
            }
            proof {
                assert(ixms.subrange(0, n_ix as int) =~= ixms);
            }
            let ghost mid = reg@;
            let mut kwrites: Vec<(HostProp, HostOut)> = Vec::new();
            let n_ky = keyed.len();
            let mut kdx: usize = 0;
            proof {
                assert(kyms.subrange(0, 0) =~= Seq::<(ValueModel, ValueModel)>::empty());
                assert(write_models(kwrites@) =~= Seq::<(HostPropModel, HostOutModel)>::empty());
            }
            while kdx < n_ky
                invariant
                    kdx <= n_ky,
                    reg.wf(),
                    spec_mat_keyed(kyms.subrange(0, kdx as int), mid) == (
                        Ok::<_, ErrorModel>(write_models(kwrites@)),
                        reg@,
                    ),
                decreases n_ky - kdx,
            {
                let pair = &keyed[kdx];
                let prop = match prop_of_key(&pair.0, reg) {
                    Ok(prop) => prop,
                    Err(e) => {
                        proof {
                            assert(kyms.subrange(0, kdx + 1).drop_last() =~= kyms.subrange(
                                0,
                                kdx as int,
                            ));
                            assert(kyms.subrange(0, kdx + 1).last() == kyms[kdx as int]);
                            lemma_mat_keyed_err_extends(kyms, mid, kdx + 1);
                        }
                        return Err(e);
                    },
                };
                proof {
                    assert(decreases_to!(*v => pair.1));
                }
                let ho = match materialize(&pair.1, reg) {
                    Ok(ho) => ho,
                    Err(e) => {
                        proof {
                            assert(kyms.subrange(0, kdx + 1).drop_last() =~= kyms.subrange(
                                0,
                                kdx as int,
                            ));
                            assert(kyms.subrange(0, kdx + 1).last() == kyms[kdx as int]);
                            lemma_mat_keyed_err_extends(kyms, mid, kdx + 1);
                        }
                        return Err(e);
                    },
                };
                proof {
                    assert(kyms.subrange(0, kdx + 1).drop_last() =~= kyms.subrange(0, kdx as int));
                    assert(kyms.subrange(0, kdx + 1).last() == kyms[kdx as int]);
                    assert(kwrites@.push((prop, ho)).drop_last() =~= kwrites@);
                }
                kwrites.push((prop, ho));
                kdx = kdx + 1;
            }
            proof {
                assert(kyms.subrange(0, n_ky as int) =~= kyms);
                lemma_write_models_concat(writes@, kwrites@);
            }
            writes.append(&mut kwrites);
            Ok(HostOut::Container { array_like, writes })
        },
    }
}

} // verus!
