use vstd::prelude::*;
use crate::data::{DataView, ListView, PairView};
use crate::de::{
    decode_elements, decode_entries, elements, field_index, fill_fields, finish_fields,
    lemma_field_index, lemma_variant_index, spec_decode_value, spec_from_nvlist, variant_index,
};
use crate::de::Policy;
use crate::error::{has_nul, ErrorView, NvType};
use crate::ser::{
    all_tagged, empty_unique, encode_elements, encode_entries, encode_fields, pack_array, put,
    spec_encode, spec_to_nvlist, tagged,
};
use crate::value::{EntryView, FieldShapeView, FieldView, ShapeView, ValueView, VariantShapeView};

verus! {

/// Whether a value is a value of the type.
pub open spec fn conforms(v: ValueView, s: ShapeView) -> bool
    decreases v,
{
    match v {
        ValueView::Unit => s is Unit,
        ValueView::Bool(_) => s is Bool,
        ValueView::Byte(_) => s is Byte,
        ValueView::I8(_) => s is I8,
        ValueView::U8(_) => s is U8,
        ValueView::I16(_) => s is I16,
        ValueView::U16(_) => s is U16,
        ValueView::I32(_) => s is I32,
        ValueView::U32(_) => s is U32,
        ValueView::I64(_) => s is I64,
        ValueView::U64(_) => s is U64,
        ValueView::Str(_) => s is Str,
        ValueView::Optional(None) => s is Optional,
        ValueView::Optional(Some(x)) => s matches ShapeView::Optional(inner) && conforms(
            *x,
            *inner,
        ),
        ValueView::Sequence(items) => s matches ShapeView::Sequence(es) && forall|i: int|
            0 <= i < items.len() ==> conforms(#[trigger] items[i], *es),
        ValueView::Record(fields) => {
            &&& s matches ShapeView::Record(fs)
            &&& fs.len() == fields.len()
            &&& forall|i: int|
                0 <= i < fields.len() ==> (#[trigger] fields[i]).name == fs[i].name && conforms(
                    fields[i].value,
                    fs[i].shape,
                )
        },
        ValueView::Mapping(entries) => s matches ShapeView::Mapping(ks, vs) && forall|i: int|
            0 <= i < entries.len() ==> conforms((#[trigger] entries[i]).key, *ks) && conforms(
                entries[i].value,
                *vs,
            ),
        ValueView::UnitVariant(n) => s matches ShapeView::Enum(vs) && exists|k: int|
            0 <= k < vs.len() && (#[trigger] vs[k]).name == n && vs[k].payload is None,
        ValueView::NewtypeVariant(n, x) => s matches ShapeView::Enum(vs) && exists|k: int|
            0 <= k < vs.len() && (#[trigger] vs[k]).name == n && vs[k].payload is Some
                && conforms(*x, vs[k].payload->0),
        ValueView::TupleVariant(_, _) => false,
        ValueView::StructVariant(_, _) => false,
    }
}

/// Whether a type is well formed: no record has two fields of one name and
/// no enum two variants of one name.
pub open spec fn well_formed(s: ShapeView) -> bool
    decreases s,
{
    match s {
        ShapeView::Optional(inner) => well_formed(*inner),
        ShapeView::Sequence(es) => well_formed(*es),
        ShapeView::Record(fs) => {
            &&& forall|i: int, j: int| 0 <= i < j < fs.len() ==> fs[i].name != fs[j].name
            &&& forall|i: int| 0 <= i < fs.len() ==> well_formed((#[trigger] fs[i]).shape)
        },
        ShapeView::Mapping(ks, vs) => well_formed(*ks) && well_formed(*vs),
        ShapeView::Enum(vs) => {
            &&& forall|i: int, j: int| 0 <= i < j < vs.len() ==> vs[i].name != vs[j].name
            &&& forall|i: int|
                0 <= i < vs.len() && (#[trigger] vs[i]).payload is Some ==> well_formed(
                    vs[i].payload->0,
                )
        },
        _ => true,
    }
}

/// Whether a value leaves no entry behind when it is written: it is absent.
pub open spec fn omitted(v: ValueView) -> bool {
    spec_encode(v) == Ok::<Option<DataView>, ErrorView>(None)
}

/// Whether a value cannot be told from an absent one once it is written: it
/// is absent, or it is written as an entry without a value.
pub open spec fn vanishes(v: ValueView) -> bool {
    omitted(v) || spec_encode(v) == Ok::<Option<DataView>, ErrorView>(Some(DataView::Bool))
}

/// Whether nothing of a value is lost when it is written. What is lost is: a
/// present optional value that cannot be told from an absent one; and an
/// absent value as the value of a map entry or as the payload of a variant,
/// with which its entry is lost.
pub open spec fn lossless(v: ValueView) -> bool
    decreases v,
{
    match v {
        ValueView::Optional(Some(x)) => lossless(*x) && !vanishes(*x),
        ValueView::Sequence(items) => forall|i: int|
            0 <= i < items.len() ==> lossless(#[trigger] items[i]),
        ValueView::Record(fields) => forall|i: int|
            0 <= i < fields.len() ==> lossless((#[trigger] fields[i]).value),
        ValueView::Mapping(entries) => forall|i: int|
            0 <= i < entries.len() ==> lossless((#[trigger] entries[i]).key) && lossless(
                entries[i].value,
            ) && !omitted(entries[i].value),
        ValueView::NewtypeVariant(_, x) => lossless(*x) && !omitted(*x),
        _ => true,
    }
}

/// The elements that were encoded are the elements of the array that holds them.
pub proof fn lemma_pack_elements(encs: Seq<Option<DataView>>)
    requires
        pack_array(encs) is Ok,
    ensures
        elements(pack_array(encs)->Ok_0) is Some,
        elements(pack_array(encs)->Ok_0)->0.len() == encs.len(),
        forall|i: int|
            0 <= i < encs.len() ==> #[trigger] encs[i] == Some(
                elements(pack_array(encs)->Ok_0)->0[i],
            ),
{
    let arr = pack_array(encs)->Ok_0;
    let first = encs[0]->0;
    match first {
        DataView::Byte(_) => {
            assert(all_tagged(encs, NvType::Byte));
            assert forall|i: int| 0 <= i < encs.len() implies #[trigger] encs[i] == Some(
                elements(arr)->0[i],
            ) by {
                assert(tagged(encs[i], NvType::Byte));
            }
        },
        DataView::Int8(_) => {
            assert(all_tagged(encs, NvType::Int8));
            assert forall|i: int| 0 <= i < encs.len() implies #[trigger] encs[i] == Some(
                elements(arr)->0[i],
            ) by {
                assert(tagged(encs[i], NvType::Int8));
            }
        },
        DataView::Uint8(_) => {
            assert(all_tagged(encs, NvType::Uint8));
            assert forall|i: int| 0 <= i < encs.len() implies #[trigger] encs[i] == Some(
                elements(arr)->0[i],
            ) by {
                assert(tagged(encs[i], NvType::Uint8));
            }
        },
        DataView::Int16(_) => {
            assert(all_tagged(encs, NvType::Int16));
            assert forall|i: int| 0 <= i < encs.len() implies #[trigger] encs[i] == Some(
                elements(arr)->0[i],
            ) by {
                assert(tagged(encs[i], NvType::Int16));
            }
        },
        DataView::Uint16(_) => {
            assert(all_tagged(encs, NvType::Uint16));
            assert forall|i: int| 0 <= i < encs.len() implies #[trigger] encs[i] == Some(
                elements(arr)->0[i],
            ) by {
                assert(tagged(encs[i], NvType::Uint16));
            }
        },
        DataView::Int32(_) => {
            assert(all_tagged(encs, NvType::Int32));
            assert forall|i: int| 0 <= i < encs.len() implies #[trigger] encs[i] == Some(
                elements(arr)->0[i],
            ) by {
                assert(tagged(encs[i], NvType::Int32));
            }
        },
        DataView::Uint32(_) => {
            assert(all_tagged(encs, NvType::Uint32));
            assert forall|i: int| 0 <= i < encs.len() implies #[trigger] encs[i] == Some(
                elements(arr)->0[i],
            ) by {
                assert(tagged(encs[i], NvType::Uint32));
            }
        },
        DataView::Int64(_) => {
            assert(all_tagged(encs, NvType::Int64));
            assert forall|i: int| 0 <= i < encs.len() implies #[trigger] encs[i] == Some(
                elements(arr)->0[i],
            ) by {
                assert(tagged(encs[i], NvType::Int64));
            }
        },
        DataView::Uint64(_) => {
            assert(all_tagged(encs, NvType::Uint64));
            assert forall|i: int| 0 <= i < encs.len() implies #[trigger] encs[i] == Some(
                elements(arr)->0[i],
            ) by {
                assert(tagged(encs[i], NvType::Uint64));
            }
        },
        DataView::NvList(_) => {
            assert(all_tagged(encs, NvType::NvList));
            assert forall|i: int| 0 <= i < encs.len() implies #[trigger] encs[i] == Some(
                elements(arr)->0[i],
            ) by {
                assert(tagged(encs[i], NvType::NvList));
            }
        },
        _ => {},
    }
}

/// Where the first `n` elements can be encoded, so can fewer, and the
/// encodings are those of the elements, in order.
pub proof fn lemma_encode_elements_index(items: Seq<ValueView>, n: nat)
    requires
        n <= items.len(),
        encode_elements(items, n) is Ok,
    ensures
        encode_elements(items, n)->Ok_0.len() == n,
        forall|i: int|
            0 <= i < n ==> spec_encode(#[trigger] items[i]) == Ok::<_, ErrorView>(
                encode_elements(items, n)->Ok_0[i],
            ),
    decreases n,
{
    if n > 0 {
        lemma_encode_elements_index(items, (n - 1) as nat);
    }
}

/// What was read for the fields after the first `n` entries depends on these
/// entries only.
pub proof fn lemma_fill_fields_prefix(
    a: Seq<PairView>,
    b: Seq<PairView>,
    s: ShapeView,
    n: nat,
    policy: Policy,
)
    requires
        n <= a.len(),
        n <= b.len(),
        forall|j: int| 0 <= j < n ==> a[j] == b[j],
    ensures
        fill_fields(a, s, n, policy) == fill_fields(b, s, n, policy),
    decreases n,
{
    if n > 0 {
        lemma_fill_fields_prefix(a, b, s, (n - 1) as nat, policy);
    }
}

/// The entries of a map that the first `n` entries of a list stand for
/// depend on these entries only.
pub proof fn lemma_decode_entries_prefix(
    a: Seq<PairView>,
    b: Seq<PairView>,
    s: ShapeView,
    n: nat,
    policy: Policy,
)
    requires
        n <= a.len(),
        n <= b.len(),
        forall|j: int| 0 <= j < n ==> a[j] == b[j],
    ensures
        decode_entries(a, s, n, policy) == decode_entries(b, s, n, policy),
    decreases n,
{
    if n > 0 {
        lemma_decode_entries_prefix(a, b, s, (n - 1) as nat, policy);
    }
}

/// What reading the encoding of the first `n` fields of a record leaves for
/// each of `total` fields: the value of a field that is present among the
/// first `n`, and nothing for the others.
pub open spec fn slots_after(fields: Seq<FieldView>, total: nat, n: nat) -> Seq<Option<ValueView>> {
    Seq::new(
        total,
        |k: int|
            if 0 <= k < n && k < fields.len() && !omitted(fields[k].value) {
                Some(fields[k].value)
            } else {
                None
            },
    )
}

/// A value that was written is read back as the same value: where a value
/// of a well-formed type, of which nothing is lost in writing, has an
/// encoding, that encoding stands for the value again; and where the value
/// leaves nothing behind, it is the absent value.
pub proof fn lemma_round_trip(v: ValueView, s: ShapeView, name: Seq<char>, policy: Policy)
    requires
        conforms(v, s),
        well_formed(s),
        lossless(v),
    ensures
        match spec_encode(v) {
            Ok(Some(d)) => d !is Unknown && spec_decode_value(d, s, name, policy) == Ok::<
                _,
                ErrorView,
            >(v),
            Ok(None) => v == ValueView::Optional(None),
            Err(_) => true,
        },
    decreases v, 0nat,
{
    match v {
        ValueView::Optional(Some(x)) => {
            let inner = s->Optional_0;
            lemma_round_trip(*x, *inner, name, policy);
            if spec_encode(v) is Ok && spec_encode(v)->Ok_0 is Some {
                let d = spec_encode(v)->Ok_0->0;
                assert(spec_decode_value(d, *inner, name, policy) == Ok::<_, ErrorView>(*x));
                assert(spec_decode_value(d, s, name, policy) == Ok::<_, ErrorView>(
                    ValueView::Optional(Some(Box::new(*x))),
                ));
                assert(Box::new(*x) == x);
            }
        },
        ValueView::Sequence(items) => {
            let es = s->Sequence_0;
            if spec_encode(v) is Ok {
                let encs = encode_elements(items, items.len())->Ok_0;
                lemma_pack_elements(encs);
                lemma_encode_elements_index(items, items.len());
                lemma_round_trip_elements(items, *es, name, items.len(), policy);
                assert(items.take(items.len() as int) =~= items);
            }
        },
        ValueView::Record(fields) => {
            let fs = s->Record_0;
            if spec_encode(v) is Ok {
                lemma_round_trip_fields(fields, fs, fields.len(), policy);
                let l = encode_fields(fields, fields.len())->Ok_0;
                let slots = slots_after(fields, fs.len(), fields.len());
                lemma_finish(fields, fs, slots, fields.len());
                assert(fields.take(fields.len() as int) =~= fields);
            }
        },
        ValueView::Mapping(entries) => {
            if spec_encode(v) is Ok {
                lemma_round_trip_entries(entries, s, entries.len(), policy);
                assert(entries.take(entries.len() as int) =~= entries);
            }
        },
        ValueView::UnitVariant(n) => {
            let vs = s->Enum_0;
            lemma_variant_index(vs, n, 0);
        },
        ValueView::NewtypeVariant(n, x) => {
            let vs = s->Enum_0;
            lemma_variant_index(vs, n, 0);
            let k = variant_index(vs, n, 0)->0;
            lemma_round_trip(*x, vs[k].payload->0, n, policy);
            if spec_encode(v) is Ok && spec_encode(v)->Ok_0 is Some {
                let d = spec_encode(v)->Ok_0->0;
                let dx = spec_encode(*x)->Ok_0->0;
                let l = d->NvList_0;
                assert(l.pairs =~= seq![PairView { name: n, data: dx }]);
                assert(Box::new(*x) == x);
            }
        },
        _ => {},
    }
}

/// The first `n` elements of a sequence that was written are read back.
pub proof fn lemma_round_trip_elements(
    items: Seq<ValueView>,
    es: ShapeView,
    name: Seq<char>,
    n: nat,
    policy: Policy,
)
    requires
        n <= items.len(),
        forall|i: int| 0 <= i < items.len() ==> conforms(#[trigger] items[i], es),
        forall|i: int| 0 <= i < items.len() ==> lossless(#[trigger] items[i]),
        well_formed(es),
        encode_elements(items, items.len()) is Ok,
        pack_array(encode_elements(items, items.len())->Ok_0) is Ok,
    ensures
        decode_elements(
            elements(pack_array(encode_elements(items, items.len())->Ok_0)->Ok_0)->0,
            ShapeView::Sequence(Box::new(es)),
            name,
            n,
            policy,
        ) == Ok::<_, ErrorView>(items.take(n as int)),
    decreases items, n,
{
    let encs = encode_elements(items, items.len())->Ok_0;
    let elems = elements(pack_array(encs)->Ok_0)->0;
    lemma_pack_elements(encs);
    lemma_encode_elements_index(items, items.len());
    if n == 0 {
        assert(items.take(0) =~= Seq::<ValueView>::empty());
    } else {
        lemma_round_trip_elements(items, es, name, (n - 1) as nat, policy);
        lemma_round_trip(items[n - 1], es, name, policy);
        assert(encs[n - 1] == Some(elems[n - 1]));
        assert(items.take(n as int) =~= items.take(n - 1).push(items[n - 1]));
    }
}

/// Reading the encoding of the first `n` fields of a record leaves for each
/// field that is present its value, and nothing for the others.
pub proof fn lemma_round_trip_fields(
    fields: Seq<FieldView>,
    fs: Seq<FieldShapeView>,
    n: nat,
    policy: Policy,
)
    requires
        n <= fields.len(),
        fs.len() == fields.len(),
        forall|i: int|
            0 <= i < fields.len() ==> (#[trigger] fields[i]).name == fs[i].name && conforms(
                fields[i].value,
                fs[i].shape,
            ),
        forall|i: int| 0 <= i < fields.len() ==> lossless((#[trigger] fields[i]).value),
        well_formed(ShapeView::Record(fs)),
        encode_fields(fields, n) is Ok,
    ensures
        fill_fields(
            encode_fields(fields, n)->Ok_0.pairs,
            ShapeView::Record(fs),
            encode_fields(fields, n)->Ok_0.pairs.len(),
            policy,
        ) == Ok::<_, ErrorView>(slots_after(fields, fs.len(), n)),
        forall|k: int| 0 <= k < n ==> spec_encode((#[trigger] fields[k]).value) is Ok,
        forall|k: int|
            0 <= k < n && omitted((#[trigger] fields[k]).value) ==> fields[k].value
                == ValueView::Optional(None),
    decreases fields, n,
{
    let s = ShapeView::Record(fs);
    let l = encode_fields(fields, n)->Ok_0;
    if n == 0 {
        assert(slots_after(fields, fs.len(), 0) =~= Seq::new(fs.len(), |i: int| None::<ValueView>));
    } else {
        let m = (n - 1) as nat;
        lemma_round_trip_fields(fields, fs, m, policy);
        let before = encode_fields(fields, m)->Ok_0;
        let f = fields[n - 1];
        lemma_round_trip(f.value, fs[n - 1].shape, f.name, policy);
        match spec_encode(f.value)->Ok_0 {
            None => {
                assert(slots_after(fields, fs.len(), n) =~= slots_after(fields, fs.len(), m));
            },
            Some(d) => {
                assert(l.pairs =~= before.pairs.push(PairView { name: f.name, data: d }));
                let len = before.pairs.len();
                lemma_fill_fields_prefix(l.pairs, before.pairs, s, len, policy);
                lemma_field_index(fs, f.name, 0);
                assert(fs[n - 1].name == f.name);
                assert(field_index(fs, f.name, 0) == Some(n - 1));
                assert(slots_after(fields, fs.len(), m)[n - 1] is None);
                assert(slots_after(fields, fs.len(), n) =~= slots_after(fields, fs.len(), m).update(
                    n - 1,
                    Some(f.value),
                ));
            },
        }
    }
}

/// What was read for the fields of a record that was written gives back the fields.
pub proof fn lemma_finish(
    fields: Seq<FieldView>,
    fs: Seq<FieldShapeView>,
    slots: Seq<Option<ValueView>>,
    n: nat,
)
    requires
        n <= fields.len(),
        fs.len() == fields.len(),
        slots == slots_after(fields, fs.len(), fields.len()),
        forall|i: int|
            0 <= i < fields.len() ==> (#[trigger] fields[i]).name == fs[i].name && conforms(
                fields[i].value,
                fs[i].shape,
            ),
        forall|k: int|
            0 <= k < fields.len() && omitted((#[trigger] fields[k]).value) ==> fields[k].value
                == ValueView::Optional(None),
    ensures
        finish_fields(slots, fs, n) == Ok::<_, ErrorView>(fields.take(n as int)),
    decreases n,
{
    if n == 0 {
        assert(fields.take(0) =~= Seq::<FieldView>::empty());
    } else {
        lemma_finish(fields, fs, slots, (n - 1) as nat);
        let f = fields[n - 1];
        assert(fields.take(n as int) =~= fields.take(n - 1).push(f));
        if omitted(f.value) {
            assert(f.value == ValueView::Optional(None));
            assert(fs[n - 1].shape is Optional);
        }
    }
}

/// The first `n` entries of a map that was written are read back.
pub proof fn lemma_round_trip_entries(entries: Seq<EntryView>, s: ShapeView, n: nat, policy: Policy)
    requires
        n <= entries.len(),
        s is Mapping,
        forall|i: int|
            0 <= i < entries.len() ==> conforms((#[trigger] entries[i]).key, *s->Mapping_0)
                && conforms(entries[i].value, *s->Mapping_1),
        forall|i: int|
            0 <= i < entries.len() ==> lossless((#[trigger] entries[i]).key) && lossless(
                entries[i].value,
            ) && !omitted(entries[i].value),
        well_formed(s),
        encode_entries(entries, n) is Ok,
    ensures
        encode_entries(entries, n)->Ok_0.pairs.len() == n,
        decode_entries(encode_entries(entries, n)->Ok_0.pairs, s, n, policy) == Ok::<_, ErrorView>(
            entries.take(n as int),
        ),
    decreases entries, n,
{
    let l = encode_entries(entries, n)->Ok_0;
    if n == 0 {
        assert(entries.take(0) =~= Seq::<EntryView>::empty());
    } else {
        let m = (n - 1) as nat;
        lemma_round_trip_entries(entries, s, m, policy);
        let before = encode_entries(entries, m)->Ok_0;
        let e = entries[n - 1];
        let k = spec_encode(e.key)->Ok_0->0->Str_0;
        let d = spec_encode(e.value)->Ok_0->0;
        lemma_round_trip(e.key, *s->Mapping_0, k, policy);
        lemma_round_trip(e.value, *s->Mapping_1, k, policy);
        assert(l.pairs =~= before.pairs.push(PairView { name: k, data: d }));
        lemma_decode_entries_prefix(l.pairs, before.pairs, s, m, policy);
        assert(entries.take(n as int) =~= entries.take(n - 1).push(e));
    }
}

/// A value that was written as a list is read back from the list as the same
/// value, where the value is of the type that is read, the type is well
/// formed, and nothing of the value is lost in writing.
pub proof fn lemma_to_from_nvlist(v: ValueView, s: ShapeView, policy: Policy)
    requires
        conforms(v, s),
        well_formed(s),
        lossless(v),
        spec_to_nvlist(v) is Ok,
    ensures
        spec_from_nvlist(spec_to_nvlist(v)->Ok_0, s, policy) == Ok::<_, ErrorView>(v),
{
    lemma_round_trip(v, s, Seq::empty(), policy);
}

/// What is read is a value of the type that was asked for.
pub proof fn lemma_decode_conforms(d: DataView, s: ShapeView, name: Seq<char>, policy: Policy)
    requires
        spec_decode_value(d, s, name, policy) is Ok,
    ensures
        conforms(spec_decode_value(d, s, name, policy)->Ok_0, s),
    decreases s, 1nat, 0nat,
{
    let v = spec_decode_value(d, s, name, policy)->Ok_0;
    match s {
        ShapeView::Optional(inner) => {
            if !(d is Bool) {
                lemma_decode_conforms(d, *inner, name, policy);
            }
        },
        ShapeView::Sequence(es) => {
            let elems = elements(d)->0;
            lemma_decode_elements_conform(elems, s, name, elems.len(), policy);
        },
        ShapeView::Record(fs) => {
            let l = d->NvList_0;
            lemma_fill_fields_conform(l.pairs, s, l.pairs.len(), policy);
            let slots = fill_fields(l.pairs, s, l.pairs.len(), policy)->Ok_0;
            lemma_finish_conforms(slots, fs, fs.len());
        },
        ShapeView::Mapping(_, _) => {
            let l = d->NvList_0;
            lemma_decode_entries_conform(l.pairs, s, l.pairs.len(), policy);
        },
        ShapeView::Enum(vs) => {
            match d {
                DataView::Str(t) => {
                    lemma_variant_index(vs, t, 0);
                    let k = variant_index(vs, t, 0)->0;
                    assert(vs[k].name == t && vs[k].payload is None);
                },
                DataView::NvList(l) => {
                    let p = l.pairs[0];
                    lemma_variant_index(vs, p.name, 0);
                    let k = variant_index(vs, p.name, 0)->0;
                    lemma_decode_conforms(p.data, vs[k].payload->0, p.name, policy);
                    assert(vs[k].name == p.name && vs[k].payload is Some);
                },
                _ => {},
            }
        },
        _ => {},
    }
}

/// The elements that are read are values of the type of the elements.
pub proof fn lemma_decode_elements_conform(
    elems: Seq<DataView>,
    s: ShapeView,
    name: Seq<char>,
    n: nat,
    policy: Policy,
)
    requires
        s is Sequence,
        n <= elems.len(),
        decode_elements(elems, s, name, n, policy) is Ok,
    ensures
        decode_elements(elems, s, name, n, policy)->Ok_0.len() == n,
        forall|i: int|
            0 <= i < n ==> conforms(
                #[trigger] decode_elements(elems, s, name, n, policy)->Ok_0[i],
                *s->Sequence_0,
            ),
    decreases s, 0nat, n,
{
    if n > 0 {
        lemma_decode_elements_conform(elems, s, name, (n - 1) as nat, policy);
        lemma_decode_conforms(elems[n - 1], *s->Sequence_0, name, policy);
    }
}

/// What is read for a field is a value of the type of the field.
pub proof fn lemma_fill_fields_conform(pairs: Seq<PairView>, s: ShapeView, n: nat, policy: Policy)
    requires
        s is Record,
        n <= pairs.len(),
        fill_fields(pairs, s, n, policy) is Ok,
    ensures
        fill_fields(pairs, s, n, policy)->Ok_0.len() == s->Record_0.len(),
        forall|k: int|
            0 <= k < s->Record_0.len() && (#[trigger] fill_fields(pairs, s, n, policy)->Ok_0[k])
                is Some ==> conforms(
                fill_fields(pairs, s, n, policy)->Ok_0[k]->0,
                s->Record_0[k].shape,
            ),
    decreases s, 0nat, n,
{
    if n > 0 {
        let fs = s->Record_0;
        lemma_fill_fields_conform(pairs, s, (n - 1) as nat, policy);
        let before = fill_fields(pairs, s, (n - 1) as nat, policy)->Ok_0;
        lemma_field_index(fs, pairs[n - 1].name, 0);
        match field_index(fs, pairs[n - 1].name, 0) {
            Some(k) => {
                if before[k] is None {
                    lemma_decode_conforms(pairs[n - 1].data, fs[k].shape, pairs[n - 1].name, policy);
                }
            },
            None => {},
        }
    }
}

/// The fields that are made of what was read are the fields of the record
/// type, each with a value of its type.
pub proof fn lemma_finish_conforms(
    slots: Seq<Option<ValueView>>,
    fs: Seq<FieldShapeView>,
    n: nat,
)
    requires
        n <= fs.len(),
        slots.len() == fs.len(),
        forall|k: int|
            0 <= k < fs.len() && (#[trigger] slots[k]) is Some ==> conforms(slots[k]->0, fs[k].shape),
        finish_fields(slots, fs, n) is Ok,
    ensures
        finish_fields(slots, fs, n)->Ok_0.len() == n,
        forall|i: int|
            0 <= i < n ==> (#[trigger] finish_fields(slots, fs, n)->Ok_0[i]).name == fs[i].name
                && conforms(finish_fields(slots, fs, n)->Ok_0[i].value, fs[i].shape),
    decreases n,
{
    if n > 0 {
        lemma_finish_conforms(slots, fs, (n - 1) as nat);
        assert(slots[n - 1] is Some ==> conforms(slots[n - 1]->0, fs[n - 1].shape));
    }
}

/// The entries that are read have keys and values of the types of the map.
pub proof fn lemma_decode_entries_conform(
    pairs: Seq<PairView>,
    s: ShapeView,
    n: nat,
    policy: Policy,
)
    requires
        s is Mapping,
        n <= pairs.len(),
        decode_entries(pairs, s, n, policy) is Ok,
    ensures
        decode_entries(pairs, s, n, policy)->Ok_0.len() == n,
        forall|i: int|
            0 <= i < n ==> conforms(
                (#[trigger] decode_entries(pairs, s, n, policy)->Ok_0[i]).key,
                *s->Mapping_0,
            ) && conforms(decode_entries(pairs, s, n, policy)->Ok_0[i].value, *s->Mapping_1),
    decreases s, 0nat, n,
{
    if n > 0 {
        lemma_decode_entries_conform(pairs, s, (n - 1) as nat, policy);
        lemma_decode_conforms(
            DataView::Str(pairs[n - 1].name),
            *s->Mapping_0,
            pairs[n - 1].name,
            policy,
        );
        lemma_decode_conforms(pairs[n - 1].data, *s->Mapping_1, pairs[n - 1].name, policy);
    }
}

} // verus!
