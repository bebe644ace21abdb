//! Laws of the bridge: properties that relate the converters to one
//! another, stated over the spec-level models and proved once for all
//! values.

use vstd::prelude::*;

use crate::digits::spec_i64_decimal;
use crate::error::{ConversionKindModel, ErrorModel};
use crate::from_guest::{
    spec_classify_guest_key, spec_convert_entries, spec_guest_to_value, spec_zero_marker,
    KeyClassModel, MAX_INDEX_KEY,
};
use crate::guest::{guest_entries_wf, guest_wf, GuestModel};
use crate::host::HostModel;
use crate::materialize::{
    spec_mat_indexed, spec_mat_keyed, spec_materialize, HostOutModel, RegistryModel,
};
use crate::to_guest::{
    spec_host_to_guest, spec_indexed_part, spec_key_to_guest, spec_keyed_part,
    spec_value_to_guest,
};
use crate::value::{indexed_wf, keyed_wf, num_wf, value_wf, NumModel, ValueModel, MAX_SAFE_INTEGER};

verus! {

/// Converting a well-formed host-range number into the guest and back
/// reproduces it exactly: an integral number crosses as a guest integer
/// inside the safe boundary and returns as the same number, and any other
/// number crosses bit-for-bit.
pub proof fn lemma_double_round_trip(n: NumModel)
    requires
        num_wf(n),
    ensures
        spec_value_to_guest(ValueModel::Double(n)) is Ok,
        spec_guest_to_value(spec_value_to_guest(ValueModel::Double(n))->Ok_0) == Ok::<
            _,
            ErrorModel,
        >(ValueModel::Double(n)),
{
}

/// A guest integer beyond the safe boundary crosses tagged as a large
/// integer — never as a number — with exact magnitude and sign, and
/// returns from the host as the same guest integer.
pub proof fn lemma_large_integer_round_trip(i: int)
    requires
        i < -MAX_SAFE_INTEGER || i > MAX_SAFE_INTEGER,
    ensures
        spec_guest_to_value(GuestModel::Integer(i)) == Ok::<_, ErrorModel>(
            ValueModel::LargeInteger(i),
        ),
        spec_value_to_guest(ValueModel::LargeInteger(i)) == Ok::<_, ErrorModel>(
            GuestModel::Integer(i),
        ),
{
}

/// No silent drops: when a guest composite converts, every entry lands in
/// exactly one of the two parts — the keyed and indexed parts together
/// hold exactly as many entries as the composite had.
pub proof fn lemma_no_silent_drops(es: Seq<(GuestModel, GuestModel)>)
    requires
        spec_convert_entries(es) is Ok,
    ensures
        (spec_convert_entries(es)->Ok_0).0.len() + (spec_convert_entries(es)->Ok_0).1.len()
            == es.len(),
    decreases es.len(),
{
    if es.len() > 0 {
        lemma_no_silent_drops(es.drop_last());
    }
}

/// The guest integer key zero and the guest string key "0" classify to
/// keys that can never collide: the integer becomes the interned marker
/// symbol, the string a quoted text key.
pub proof fn lemma_zero_keys_distinct()
    ensures
        spec_classify_guest_key(GuestModel::Integer(0)) == Ok::<_, ErrorModel>(
            KeyClassModel::Keyed(spec_zero_marker()),
        ),
        spec_classify_guest_key(GuestModel::Text("0"@)) == Ok::<_, ErrorModel>(
            KeyClassModel::Keyed(ValueModel::Text(seq!['\'', '0', '\''])),
        ),
        spec_zero_marker() != ValueModel::Text(seq!['\'', '0', '\'']),
{
    reveal_strlit("0");
    assert("0"@ =~= seq!['0']);
    let s = seq!['0'];
    assert(s.drop_last() =~= Seq::<char>::empty());
    assert(crate::digits::digits_value(Seq::<char>::empty()) == 0);
    assert('0' as u32 == 48);
    assert(crate::digits::digits_value(s) == 0);
    assert(crate::digits::spec_parse_i64("0"@) == Some(0int));
    assert(spec_i64_decimal(0) =~= seq!['0']);
    assert(seq!['\''] + spec_i64_decimal(0) + seq!['\''] =~= seq!['\'', '0', '\'']);
}

/// A host symbol passed into Host→Embedded conversion always fails with
/// the typed unsupported-key failure — it is never silently dropped.
pub proof fn lemma_host_symbol_rejected(d: Seq<char>)
    ensures
        spec_host_to_guest(HostModel::Symbol(d)) == Err::<GuestModel, _>(
            ErrorModel::Conversion(ConversionKindModel::UnsupportedKeyKind("symbol"@)),
        ),
{
}

/// Materializing an interned symbol twice through the same registry
/// yields the identical identity both times.
pub proof fn lemma_interned_symbol_stable(d: Seq<char>, m: RegistryModel)
    requires
        m.next_id < u64::MAX,
    ensures
        ({
            let v = ValueModel::Symbol { description: d, interned: true };
            let first = spec_materialize(v, m);
            let second = spec_materialize(v, first.1);
            first.0 is Ok && second.0 is Ok && first.0 == second.0
        }),
{
}

/// Materializing a non-interned symbol twice yields two distinct
/// identities, even for the same description.
pub proof fn lemma_fresh_symbol_distinct(d: Seq<char>, m: RegistryModel)
    requires
        m.next_id + 1 < u64::MAX,
    ensures
        ({
            let v = ValueModel::Symbol { description: d, interned: false };
            let first = spec_materialize(v, m);
            let second = spec_materialize(v, first.1);
            first.0 == Ok::<_, ErrorModel>(
                HostOutModel::Symbol { description: d, id: m.next_id, interned: false },
            ) && second.0 == Ok::<_, ErrorModel>(
                HostOutModel::Symbol {
                    description: d,
                    id: (m.next_id + 1) as u64,
                    interned: false,
                },
            ) && first.0 != second.0
        }),
{
}

/// Every key a classification produces is well formed.
proof fn lemma_classified_key_wf(k: GuestModel)
    requires
        spec_classify_guest_key(k) is Ok,
    ensures
        match spec_classify_guest_key(k)->Ok_0 {
            KeyClassModel::Keyed(ck) => value_wf(ck),
            KeyClassModel::ArrayIndex(_) => true,
        },
{
}

/// Every part a successful entry run produces is well formed, entry by
/// entry.
proof fn lemma_convert_entries_wf(es: Seq<(GuestModel, GuestModel)>)
    requires
        guest_entries_wf(es),
        spec_convert_entries(es) is Ok,
    ensures
        ({
            let (keyed, indexed) = spec_convert_entries(es)->Ok_0;
            keyed_wf(keyed) && indexed_wf(indexed)
        }),
    decreases es,
{
    if es.len() > 0 {
        let rest = es.drop_last();
        assert(guest_entries_wf(rest) && guest_wf(es.last().0) && guest_wf(es.last().1));
        assert(spec_convert_entries(rest) is Ok);
        lemma_convert_entries_wf(rest);
        assert(spec_guest_to_value(es.last().1) is Ok);
        lemma_conversion_preserves_wf(es.last().1);
        assert(spec_classify_guest_key(es.last().0) is Ok);
        lemma_classified_key_wf(es.last().0);
        let (rk, ri) = spec_convert_entries(rest)->Ok_0;
        let (keyed, indexed) = spec_convert_entries(es)->Ok_0;
        let cv = spec_guest_to_value(es.last().1)->Ok_0;
        match spec_classify_guest_key(es.last().0)->Ok_0 {
            KeyClassModel::Keyed(ck) => {
                assert(keyed == rk.push((ck, cv)));
                assert(indexed == ri);
                assert(keyed.drop_last() =~= rk);
                assert(value_wf(ck) && value_wf(cv));
            },
            KeyClassModel::ArrayIndex(ix) => {
                assert(keyed == rk);
                assert(indexed == ri.push((ix, cv)));
                assert(indexed.drop_last() =~= ri);
                assert(value_wf(cv));
            },
        }
    }
}

/// Conversion out of the guest preserves well-formedness: a well-formed
/// guest value that converts yields a well-formed `Value` — in
/// particular, every number tagged `Double` lies inside the safe-integer
/// boundary.
pub proof fn lemma_conversion_preserves_wf(g: GuestModel)
    requires
        guest_wf(g),
        spec_guest_to_value(g) is Ok,
    ensures
        value_wf(spec_guest_to_value(g)->Ok_0),
    decreases g,
{
    match g {
        GuestModel::Table(es) => {
            assert(spec_convert_entries(es) is Ok);
            assert(guest_entries_wf(es));
            lemma_convert_entries_wf(es);
        },
        _ => {},
    }
}

proof fn lemma_mat_indexed_props(ixs: Seq<(u32, ValueModel)>, m: RegistryModel)
    requires
        spec_mat_indexed(ixs, m).0 is Ok,
    ensures
        ({
            let ws = spec_mat_indexed(ixs, m).0->Ok_0;
            ws.len() == ixs.len() && forall|i: int| 0 <= i < ws.len() ==> (#[trigger] ws[i].0)
                is Index
        }),
    decreases ixs,
{
    if ixs.len() > 0 {
        lemma_mat_indexed_props(ixs.drop_last(), m);
    }
}

proof fn lemma_mat_keyed_props(kys: Seq<(ValueModel, ValueModel)>, m: RegistryModel)
    requires
        spec_mat_keyed(kys, m).0 is Ok,
    ensures
        ({
            let ws = spec_mat_keyed(kys, m).0->Ok_0;
            ws.len() == kys.len() && forall|i: int| 0 <= i < ws.len() ==> !((#[trigger] ws[i].0)
                is Index)
        }),
    decreases kys,
{
    if kys.len() > 0 {
        lemma_mat_keyed_props(kys.drop_last(), m);
    }
}

/// A materialized composite writes its array-like entries first: the
/// first writes carry host indices, one per indexed entry, and every
/// later write carries a derived name or a symbol — so a keyed entry
/// whose derived name collides with an index-derived one lands last and
/// wins.
pub proof fn lemma_indices_written_before_keys(
    keyed: Seq<(ValueModel, ValueModel)>,
    indexed: Seq<(u32, ValueModel)>,
    m: RegistryModel,
)
    requires
        spec_materialize(ValueModel::Composite { keyed, indexed }, m).0 is Ok,
    ensures
        ({
            let out = spec_materialize(ValueModel::Composite { keyed, indexed }, m).0->Ok_0;
            &&& out is Container
            &&& out->Container_array_like == (indexed.len() > 0)
            &&& out->Container_writes.len() == indexed.len() + keyed.len()
            &&& forall|i: int|
                0 <= i < indexed.len() ==> (#[trigger] out->Container_writes[i].0) is Index
            &&& forall|i: int|
                indexed.len() <= i < out->Container_writes.len() ==> !((
                #[trigger] out->Container_writes[i].0) is Index)
        }),
{
    let part1 = spec_mat_indexed(indexed, m);
    lemma_mat_indexed_props(indexed, m);
    let part2 = spec_mat_keyed(keyed, part1.1);
    lemma_mat_keyed_props(keyed, part1.1);
    let ws1 = part1.0->Ok_0;
    let ws2 = part2.0->Ok_0;
    let out = spec_materialize(ValueModel::Composite { keyed, indexed }, m).0->Ok_0;
    assert(out->Container_writes == ws1 + ws2);
    assert forall|i: int|
        0 <= i < indexed.len() implies (#[trigger] out->Container_writes[i].0) is Index by {
        assert(out->Container_writes[i] == ws1[i]);
        assert(ws1[i].0 is Index);
    }
    assert forall|i: int|
        indexed.len() <= i < out->Container_writes.len() implies !((
    #[trigger] out->Container_writes[i].0) is Index) by {
        assert(out->Container_writes[i] == ws2[i - indexed.len()]);
        assert(!(ws2[i - indexed.len()].0 is Index));
    }
}

/// Whether a guest key lands in the array-like part.
pub open spec fn is_indexed_key(k: GuestModel) -> bool {
    match k {
        GuestModel::Integer(n) => 1 <= n <= MAX_INDEX_KEY,
        _ => false,
    }
}

/// Whether a guest key keeps its exact form across the boundary: an
/// integer inside the index range or zero, or a string that does not read
/// as an integer. Every other key is re-expressed in a deliberately lossy
/// way (rendered in decimal, or quoted).
pub open spec fn canonical_key(k: GuestModel) -> bool {
    match k {
        GuestModel::Integer(n) => 0 <= n <= MAX_INDEX_KEY,
        GuestModel::Text(s) => crate::digits::spec_parse_i64(s) is None,
        _ => false,
    }
}

/// Whether every array-like entry of a composite is listed before every
/// keyed entry; the return conversion emits the array-like part first, so
/// only such composites can come back in their original order.
pub open spec fn entries_in_class_order(es: Seq<(GuestModel, GuestModel)>) -> bool {
    forall|i: int, j: int|
        0 <= i < j < es.len() && is_indexed_key(#[trigger] es[j].0) ==> is_indexed_key(
            #[trigger] es[i].0,
        )
}

/// The fragment of guest values on which the round trip is exact: no
/// placeholders or opaque handles, no guest-native float that would
/// canonicalize to an integer, canonical keys only, and array-like
/// entries before keyed ones.
pub open spec fn canonical_guest(g: GuestModel) -> bool
    decreases g, 0int,
{
    match g {
        GuestModel::Nil => true,
        GuestModel::Boolean(_) => true,
        GuestModel::Integer(_) => true,
        GuestModel::Number(n) => n is Float,
        GuestModel::Text(_) => true,
        GuestModel::Table(es) => canonical_entries(es) && entries_in_class_order(es),
        _ => false,
    }
}

/// Every key of a canonical entry run is canonical, every value
/// canonical.
pub open spec fn canonical_entries(es: Seq<(GuestModel, GuestModel)>) -> bool
    decreases es, 1int,
{
    es.len() == 0 || (canonical_entries(es.drop_last()) && canonical_key(es.last().0)
        && canonical_guest(es.last().1))
}

proof fn lemma_entries_round_trip(es: Seq<(GuestModel, GuestModel)>)
    requires
        canonical_entries(es),
        entries_in_class_order(es),
    ensures
        spec_convert_entries(es) is Ok,
        ({
            let (keyed, indexed) = spec_convert_entries(es)->Ok_0;
            &&& spec_indexed_part(indexed) is Ok
            &&& spec_keyed_part(keyed) is Ok
            &&& spec_indexed_part(indexed)->Ok_0 + spec_keyed_part(keyed)->Ok_0 == es
            &&& ((forall|i: int| 0 <= i < es.len() ==> is_indexed_key(#[trigger] es[i].0))
                ==> keyed.len() == 0)
        }),
    decreases es, 1int,
{
    if es.len() == 0 {
        let (keyed, indexed) = spec_convert_entries(es)->Ok_0;
        assert(spec_indexed_part(indexed)->Ok_0 + spec_keyed_part(keyed)->Ok_0 =~= es);
    } else {
        let rest = es.drop_last();
        let (k, v) = es.last();
        assert forall|i: int, j: int|
            0 <= i < j < rest.len() && is_indexed_key(#[trigger] rest[j].0) implies is_indexed_key(
            #[trigger] rest[i].0,
        ) by {
            assert(rest[i] == es[i] && rest[j] == es[j]);
        }
        lemma_entries_round_trip(rest);
        lemma_guest_round_trip(v);
        let (rk, ri) = spec_convert_entries(rest)->Ok_0;
        let cv = spec_guest_to_value(v)->Ok_0;
        let back_i = spec_indexed_part(ri)->Ok_0;
        let back_k = spec_keyed_part(rk)->Ok_0;
        let (keyed, indexed) = spec_convert_entries(es)->Ok_0;
        match k {
            GuestModel::Integer(n) => {
                if n == 0 {
                    // keyed under the marker symbol, which turns back into zero
                    assert(keyed == rk.push((spec_zero_marker(), cv)));
                    assert(keyed.drop_last() =~= rk);
                    assert(spec_key_to_guest(spec_zero_marker()) == Ok::<_, ErrorModel>(
                        GuestModel::Integer(0),
                    ));
                    assert(spec_keyed_part(keyed)->Ok_0 == back_k.push((k, v)));
                    assert(back_i + back_k.push((k, v)) =~= (back_i + back_k).push((k, v)));
                    assert(spec_indexed_part(indexed)->Ok_0 + spec_keyed_part(keyed)->Ok_0
                        =~= es);
                    assert(!is_indexed_key(es[es.len() - 1].0));
                } else {
                    // array-like: everything before it is array-like too,
                    // so the keyed part is still empty
                    assert(is_indexed_key(k));
                    assert(indexed == ri.push((((n - 1) as u32), cv)));
                    assert(keyed == rk);
                    assert forall|i: int| 0 <= i < rest.len() implies is_indexed_key(
                        #[trigger] rest[i].0,
                    ) by {
                        assert(rest[i] == es[i]);
                        assert(is_indexed_key(es[es.len() - 1].0));
                        assert(is_indexed_key(es[i].0));
                    }
                    assert(rk.len() == 0);
                    assert(rk =~= Seq::<(ValueModel, ValueModel)>::empty());
                    assert(indexed.drop_last() =~= ri);
                    assert(((n - 1) as u32) + 1 == n);
                    assert(spec_indexed_part(indexed)->Ok_0 == back_i.push((k, v)));
                    assert(back_k =~= Seq::<(GuestModel, GuestModel)>::empty());
                    assert(back_i.push((k, v)) + back_k =~= (back_i + back_k).push((k, v)));
                    assert(spec_indexed_part(indexed)->Ok_0 + spec_keyed_part(keyed)->Ok_0
                        =~= es);
                }
            },
            GuestModel::Text(s) => {
                assert(keyed == rk.push((ValueModel::Text(s), cv)));
                assert(keyed.drop_last() =~= rk);
                assert(spec_key_to_guest(ValueModel::Text(s)) == Ok::<_, ErrorModel>(
                    GuestModel::Text(s),
                ));
                assert(spec_keyed_part(keyed)->Ok_0 == back_k.push((k, v)));
                assert(back_i + back_k.push((k, v)) =~= (back_i + back_k).push((k, v)));
                assert(spec_indexed_part(indexed)->Ok_0 + spec_keyed_part(keyed)->Ok_0 =~= es);
                assert(!is_indexed_key(es[es.len() - 1].0));
            },
            _ => {
                assert(false);
            },
        }
    }
}

/// On the canonical fragment the round trip is exact: a canonical guest
/// value converts, and converting the result back into the guest
/// reproduces the value — the same keys bound to the same values, with no
/// entry dropped, added or reordered.
pub proof fn lemma_guest_round_trip(g: GuestModel)
    requires
        canonical_guest(g),
    ensures
        spec_guest_to_value(g) is Ok,
        spec_value_to_guest(spec_guest_to_value(g)->Ok_0) == Ok::<_, ErrorModel>(g),
    decreases g, 0int,
{
    match g {
        GuestModel::Table(es) => {
            lemma_entries_round_trip(es);
        },
        _ => {},
    }
}

} // verus!
