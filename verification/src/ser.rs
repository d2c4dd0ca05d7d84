use vstd::prelude::*;
use crate::data::{DataView, ListView, NvData, NvList, list_views};
use crate::error::{contains_nul, has_nul, Error, ErrorView, NvType, Unsupported};
use crate::value::{
    lemma_entries_view, lemma_fields_view, lemma_values_view, EntryView, FieldView, Value,
    ValueView,
};

verus! {

/// The empty list with unique names, with which every record starts.
pub open spec fn empty_unique() -> ListView {
    ListView { unique: true, pairs: Seq::empty() }
}

/// Text as a tagged value: refused where it holds a NUL character.
pub open spec fn text_value(s: Seq<char>) -> Result<Option<DataView>, ErrorView> {
    if has_nul(s) {
        Err(ErrorView::TextEncodingError)
    } else {
        Ok(Some(DataView::Str(s)))
    }
}

/// The list with the value put behind its entries under the name; a value
/// that is absent leaves the list as it is.
pub open spec fn put(l: ListView, name: Seq<char>, d: Option<DataView>) -> Result<
    ListView,
    ErrorView,
> {
    match d {
        None => Ok(l),
        Some(x) => l.inserted(name, x),
    }
}

/// Every one of the values is present and has the tag.
pub open spec fn all_tagged(encs: Seq<Option<DataView>>, tag: NvType) -> bool {
    forall|i: int| 0 <= i < encs.len() ==> tagged(#[trigger] encs[i], tag)
}

/// The value is present and has the tag.
pub open spec fn tagged(enc: Option<DataView>, tag: NvType) -> bool {
    enc matches Some(d) && d.tag() == tag
}

/// The array that holds the values of a sequence. There is none for a
/// sequence without elements; the first element decides the kind of array,
/// and there is none where no array of that kind exists or where another
/// element has another tag.
pub open spec fn pack_array(encs: Seq<Option<DataView>>) -> Result<DataView, ErrorView> {
    if encs.len() == 0 {
        Err(ErrorView::UnsupportedShape(Unsupported::EmptySequence))
    } else {
        match encs[0] {
            None => Err(ErrorView::UnsupportedShape(Unsupported::SequenceElement)),
            Some(first) => match first {
                DataView::Byte(_) => if all_tagged(encs, NvType::Byte) {
                    Ok(DataView::ByteArray(Seq::new(encs.len(), |i: int| encs[i].unwrap()->Byte_0)))
                } else {
                    Err(ErrorView::UnsupportedShape(Unsupported::HeterogeneousSequence))
                },
                DataView::Int8(_) => if all_tagged(encs, NvType::Int8) {
                    Ok(DataView::Int8Array(Seq::new(encs.len(), |i: int| encs[i].unwrap()->Int8_0)))
                } else {
                    Err(ErrorView::UnsupportedShape(Unsupported::HeterogeneousSequence))
                },
                DataView::Uint8(_) => if all_tagged(encs, NvType::Uint8) {
                    Ok(DataView::Uint8Array(Seq::new(
                        encs.len(),
                        |i: int| encs[i].unwrap()->Uint8_0,
                    )))
                } else {
                    Err(ErrorView::UnsupportedShape(Unsupported::HeterogeneousSequence))
                },
                DataView::Int16(_) => if all_tagged(encs, NvType::Int16) {
                    Ok(DataView::Int16Array(Seq::new(
                        encs.len(),
                        |i: int| encs[i].unwrap()->Int16_0,
                    )))
                } else {
                    Err(ErrorView::UnsupportedShape(Unsupported::HeterogeneousSequence))
                },
                DataView::Uint16(_) => if all_tagged(encs, NvType::Uint16) {
                    Ok(DataView::Uint16Array(Seq::new(
                        encs.len(),
                        |i: int| encs[i].unwrap()->Uint16_0,
                    )))
                } else {
                    Err(ErrorView::UnsupportedShape(Unsupported::HeterogeneousSequence))
                },
                DataView::Int32(_) => if all_tagged(encs, NvType::Int32) {
                    Ok(DataView::Int32Array(Seq::new(
                        encs.len(),
                        |i: int| encs[i].unwrap()->Int32_0,
                    )))
                } else {
                    Err(ErrorView::UnsupportedShape(Unsupported::HeterogeneousSequence))
                },
                DataView::Uint32(_) => if all_tagged(encs, NvType::Uint32) {
                    Ok(DataView::Uint32Array(Seq::new(
                        encs.len(),
                        |i: int| encs[i].unwrap()->Uint32_0,
                    )))
                } else {
                    Err(ErrorView::UnsupportedShape(Unsupported::HeterogeneousSequence))
                },
                DataView::Int64(_) => if all_tagged(encs, NvType::Int64) {
                    Ok(DataView::Int64Array(Seq::new(
                        encs.len(),
                        |i: int| encs[i].unwrap()->Int64_0,
                    )))
                } else {
                    Err(ErrorView::UnsupportedShape(Unsupported::HeterogeneousSequence))
                },
                DataView::Uint64(_) => if all_tagged(encs, NvType::Uint64) {
                    Ok(DataView::Uint64Array(Seq::new(
                        encs.len(),
                        |i: int| encs[i].unwrap()->Uint64_0,
                    )))
                } else {
                    Err(ErrorView::UnsupportedShape(Unsupported::HeterogeneousSequence))
                },
                DataView::NvList(_) => if all_tagged(encs, NvType::NvList) {
                    Ok(DataView::NvListArray(Seq::new(
                        encs.len(),
                        |i: int| encs[i].unwrap()->NvList_0,
                    )))
                } else {
                    Err(ErrorView::UnsupportedShape(Unsupported::HeterogeneousSequence))
                },
                _ => Err(ErrorView::UnsupportedShape(Unsupported::SequenceElement)),
            },
        }
    }
}

/// The tagged value that stands for a typed value, `None` where the value is
/// absent and its place in a list stays empty, or the reason why there is none.
pub open spec fn spec_encode(v: ValueView) -> Result<Option<DataView>, ErrorView>
    decreases v, 0nat,
{
    match v {
        ValueView::Unit => Ok(Some(DataView::Bool)),
        ValueView::Bool(b) => Ok(Some(DataView::BoolV(b))),
        ValueView::Byte(x) => Ok(Some(DataView::Byte(x))),
        ValueView::I8(x) => Ok(Some(DataView::Int8(x))),
        ValueView::U8(x) => Ok(Some(DataView::Uint8(x))),
        ValueView::I16(x) => Ok(Some(DataView::Int16(x))),
        ValueView::U16(x) => Ok(Some(DataView::Uint16(x))),
        ValueView::I32(x) => Ok(Some(DataView::Int32(x))),
        ValueView::U32(x) => Ok(Some(DataView::Uint32(x))),
        ValueView::I64(x) => Ok(Some(DataView::Int64(x))),
        ValueView::U64(x) => Ok(Some(DataView::Uint64(x))),
        ValueView::Str(s) => text_value(s),
        ValueView::Optional(None) => Ok(None),
        ValueView::Optional(Some(x)) => spec_encode(*x),
        ValueView::Sequence(items) => match encode_elements(items, items.len()) {
            Err(e) => Err(e),
            Ok(encs) => match pack_array(encs) {
                Err(e) => Err(e),
                Ok(d) => Ok(Some(d)),
            },
        },
        ValueView::Record(fields) => match encode_fields(fields, fields.len()) {
            Err(e) => Err(e),
            Ok(l) => Ok(Some(DataView::NvList(l))),
        },
        ValueView::Mapping(entries) => match encode_entries(entries, entries.len()) {
            Err(e) => Err(e),
            Ok(l) => Ok(Some(DataView::NvList(l))),
        },
        ValueView::UnitVariant(n) => text_value(n),
        ValueView::NewtypeVariant(n, x) => match spec_encode(*x) {
            Err(e) => Err(e),
            Ok(d) => match put(empty_unique(), n, d) {
                Err(e) => Err(e),
                Ok(l) => Ok(Some(DataView::NvList(l))),
            },
        },
        ValueView::TupleVariant(_, _) => Err(ErrorView::UnsupportedShape(Unsupported::EnumVariant)),
        ValueView::StructVariant(_, _) => Err(
            ErrorView::UnsupportedShape(Unsupported::EnumVariant),
        ),
    }
}

/// The tagged values of the first `n` elements of a sequence, in order, or
/// the error of the first element that has none.
pub open spec fn encode_elements(items: Seq<ValueView>, n: nat) -> Result<
    Seq<Option<DataView>>,
    ErrorView,
>
    decreases items, n,
{
    if n == 0 || n > items.len() {
        Ok(Seq::empty())
    } else {
        match encode_elements(items, (n - 1) as nat) {
            Err(e) => Err(e),
            Ok(encs) => match spec_encode(items[n - 1]) {
                Err(e) => Err(e),
                Ok(d) => Ok(encs.push(d)),
            },
        }
    }
}

/// The list of the first `n` fields of a record: each field that is present,
/// under its name, in order; or the first error.
pub open spec fn encode_fields(fields: Seq<FieldView>, n: nat) -> Result<ListView, ErrorView>
    decreases fields, n,
{
    if n == 0 || n > fields.len() {
        Ok(empty_unique())
    } else {
        match encode_fields(fields, (n - 1) as nat) {
            Err(e) => Err(e),
            Ok(l) => match spec_encode(fields[n - 1].value) {
                Err(e) => Err(e),
                Ok(d) => put(l, fields[n - 1].name, d),
            },
        }
    }
}

/// The list of the first `n` entries of a map: each value that is present,
/// under its key, which must be text, in order; or the first error.
pub open spec fn encode_entries(entries: Seq<EntryView>, n: nat) -> Result<ListView, ErrorView>
    decreases entries, n,
{
    if n == 0 || n > entries.len() {
        Ok(empty_unique())
    } else {
        match encode_entries(entries, (n - 1) as nat) {
            Err(e) => Err(e),
            Ok(l) => match spec_encode(entries[n - 1].key) {
                Err(e) => Err(e),
                Ok(Some(DataView::Str(k))) => match spec_encode(entries[n - 1].value) {
                    Err(e) => Err(e),
                    Ok(d) => put(l, k, d),
                },
                Ok(_) => Err(ErrorView::UnsupportedShape(Unsupported::MapKey)),
            },
        }
    }
}

/// The list that stands for a typed value. Only a record, a map or a variant
/// with one payload has one.
pub open spec fn spec_to_nvlist(v: ValueView) -> Result<ListView, ErrorView> {
    match spec_encode(v) {
        Err(e) => Err(e),
        Ok(Some(DataView::NvList(l))) => Ok(l),
        Ok(_) => Err(ErrorView::UnsupportedShape(Unsupported::TopLevel)),
    }
}

/// What an encoding returned, as mathematics.
pub open spec fn encoded_view(r: Result<Option<NvData>, Error>) -> Result<
    Option<DataView>,
    ErrorView,
> {
    match r {
        Ok(Some(d)) => Ok(Some(d@)),
        Ok(None) => Ok(None),
        Err(e) => Err(e@),
    }
}

/// The views of the encoded elements of a sequence.
pub open spec fn enc_views(s: Seq<Option<NvData>>) -> Seq<Option<DataView>> {
    Seq::new(
        s.len(),
        |i: int|
            match s[i] {
                Some(d) => Some(d@),
                None => None,
            },
    )
}

/// Whether a result is the given outcome, as mathematics.
pub open spec fn data_outcome(
    r: Result<NvData, Error>,
    expected: Result<DataView, ErrorView>,
) -> bool {
    match expected {
        Ok(d) => r matches Ok(x) && x@ == d,
        Err(e) => r matches Err(x) && x@ == e,
    }
}

/// Whether a result is the given outcome, as mathematics.
pub open spec fn list_outcome(
    r: Result<NvList, Error>,
    expected: Result<ListView, ErrorView>,
) -> bool {
    match expected {
        Ok(l) => r matches Ok(x) && x@ == l,
        Err(e) => r matches Err(x) && x@ == e,
    }
}

/// An element that cannot be encoded decides the outcome for the whole sequence.
pub proof fn lemma_elements_error_stays(items: Seq<ValueView>, i: nat, n: nat)
    requires
        i <= n <= items.len(),
    ensures
        encode_elements(items, i) is Err ==> encode_elements(items, n) == encode_elements(items, i),
    decreases n,
{
    if i < n {
        lemma_elements_error_stays(items, i, (n - 1) as nat);
    }
}

/// A field that cannot be encoded or inserted decides the outcome for the whole record.
pub proof fn lemma_fields_error_stays(fields: Seq<FieldView>, i: nat, n: nat)
    requires
        i <= n <= fields.len(),
    ensures
        encode_fields(fields, i) is Err ==> encode_fields(fields, n) == encode_fields(fields, i),
    decreases n,
{
    if i < n {
        lemma_fields_error_stays(fields, i, (n - 1) as nat);
    }
}

/// An entry that cannot be encoded or inserted decides the outcome for the whole map.
pub proof fn lemma_entries_error_stays(entries: Seq<EntryView>, i: nat, n: nat)
    requires
        i <= n <= entries.len(),
    ensures
        encode_entries(entries, i) is Err ==> encode_entries(entries, n) == encode_entries(
            entries,
            i,
        ),
    decreases n,
{
    if i < n {
        lemma_entries_error_stays(entries, i, (n - 1) as nat);
    }
}

#[verifier::loop_isolation(false)]
fn pack_byte(encs: &Vec<Option<NvData>>) -> (r: Result<NvData, Error>)
    requires
        encs@.len() > 0,
        enc_views(encs@)[0] matches Some(DataView::Byte(_)),
    ensures
        data_outcome(r, pack_array(enc_views(encs@))),
{
    let ghost views = enc_views(encs@);
    let mut out: Vec<u8> = Vec::new();
    let mut i: usize = 0;
    while i < encs.len()
        invariant
            i <= encs.len(),
            out.len() == i,
            views == enc_views(encs@),
            forall|j: int|
                0 <= j < i ==> tagged(#[trigger] views[j], NvType::Byte) && out@[j]
                    == views[j].unwrap()->Byte_0,
        decreases encs.len() - i,
    {
        match &encs[i] {
            Some(NvData::Byte(x)) => {
                out.push(*x);
            },
            _ => {
                proof {
                    assert(!tagged(views[i as int], NvType::Byte));
                }
                return Err(Error::UnsupportedShape(Unsupported::HeterogeneousSequence));
            },
        }
        i += 1;
    }
    proof {
        assert(all_tagged(views, NvType::Byte));
        assert(out@ =~= Seq::new(views.len(), |i: int| views[i].unwrap()->Byte_0));
    }
    Ok(NvData::ByteArray(out))
}

#[verifier::loop_isolation(false)]
fn pack_int8(encs: &Vec<Option<NvData>>) -> (r: Result<NvData, Error>)
    requires
        encs@.len() > 0,
        enc_views(encs@)[0] matches Some(DataView::Int8(_)),
    ensures
        data_outcome(r, pack_array(enc_views(encs@))),
{
    let ghost views = enc_views(encs@);
    let mut out: Vec<i8> = Vec::new();
    let mut i: usize = 0;
    while i < encs.len()
        invariant
            i <= encs.len(),
            out.len() == i,
            views == enc_views(encs@),
            forall|j: int|
                0 <= j < i ==> tagged(#[trigger] views[j], NvType::Int8) && out@[j]
                    == views[j].unwrap()->Int8_0,
        decreases encs.len() - i,
    {
        match &encs[i] {
            Some(NvData::Int8(x)) => {
                out.push(*x);
            },
            _ => {
                proof {
                    assert(!tagged(views[i as int], NvType::Int8));
                }
                return Err(Error::UnsupportedShape(Unsupported::HeterogeneousSequence));
            },
        }
        i += 1;
    }
    proof {
        assert(all_tagged(views, NvType::Int8));
        assert(out@ =~= Seq::new(views.len(), |i: int| views[i].unwrap()->Int8_0));
    }
    Ok(NvData::Int8Array(out))
}

#[verifier::loop_isolation(false)]
fn pack_uint8(encs: &Vec<Option<NvData>>) -> (r: Result<NvData, Error>)
    requires
        encs@.len() > 0,
        enc_views(encs@)[0] matches Some(DataView::Uint8(_)),
    ensures
        data_outcome(r, pack_array(enc_views(encs@))),
{
    let ghost views = enc_views(encs@);
    let mut out: Vec<u8> = Vec::new();
    let mut i: usize = 0;
    while i < encs.len()
        invariant
            i <= encs.len(),
            out.len() == i,
            views == enc_views(encs@),
            forall|j: int|
                0 <= j < i ==> tagged(#[trigger] views[j], NvType::Uint8) && out@[j]
                    == views[j].unwrap()->Uint8_0,
        decreases encs.len() - i,
    {
        match &encs[i] {
            Some(NvData::Uint8(x)) => {
                out.push(*x);
            },
            _ => {
                proof {
                    assert(!tagged(views[i as int], NvType::Uint8));
                }
                return Err(Error::UnsupportedShape(Unsupported::HeterogeneousSequence));
            },
        }
        i += 1;
    }
    proof {
        assert(all_tagged(views, NvType::Uint8));
        assert(out@ =~= Seq::new(views.len(), |i: int| views[i].unwrap()->Uint8_0));
    }
    Ok(NvData::Uint8Array(out))
}

#[verifier::loop_isolation(false)]
fn pack_int16(encs: &Vec<Option<NvData>>) -> (r: Result<NvData, Error>)
    requires
        encs@.len() > 0,
        enc_views(encs@)[0] matches Some(DataView::Int16(_)),
    ensures
        data_outcome(r, pack_array(enc_views(encs@))),
{
    let ghost views = enc_views(encs@);
    let mut out: Vec<i16> = Vec::new();
    let mut i: usize = 0;
    while i < encs.len()
        invariant
            i <= encs.len(),
            out.len() == i,
            views == enc_views(encs@),
            forall|j: int|
                0 <= j < i ==> tagged(#[trigger] views[j], NvType::Int16) && out@[j]
                    == views[j].unwrap()->Int16_0,
        decreases encs.len() - i,
    {
        match &encs[i] {
            Some(NvData::Int16(x)) => {
                out.push(*x);
            },
            _ => {
                proof {
                    assert(!tagged(views[i as int], NvType::Int16));
                }
                return Err(Error::UnsupportedShape(Unsupported::HeterogeneousSequence));
            },
        }
        i += 1;
    }
    proof {
        assert(all_tagged(views, NvType::Int16));
        assert(out@ =~= Seq::new(views.len(), |i: int| views[i].unwrap()->Int16_0));
    }
    Ok(NvData::Int16Array(out))
}

#[verifier::loop_isolation(false)]
fn pack_uint16(encs: &Vec<Option<NvData>>) -> (r: Result<NvData, Error>)
    requires
        encs@.len() > 0,
        enc_views(encs@)[0] matches Some(DataView::Uint16(_)),
    ensures
        data_outcome(r, pack_array(enc_views(encs@))),
{
    let ghost views = enc_views(encs@);
    let mut out: Vec<u16> = Vec::new();
    let mut i: usize = 0;
    while i < encs.len()
        invariant
            i <= encs.len(),
            out.len() == i,
            views == enc_views(encs@),
            forall|j: int|
                0 <= j < i ==> tagged(#[trigger] views[j], NvType::Uint16) && out@[j]
                    == views[j].unwrap()->Uint16_0,
        decreases encs.len() - i,
    {
        match &encs[i] {
            Some(NvData::Uint16(x)) => {
                out.push(*x);
            },
            _ => {
                proof {
                    assert(!tagged(views[i as int], NvType::Uint16));
                }
                return Err(Error::UnsupportedShape(Unsupported::HeterogeneousSequence));
            },
        }
        i += 1;
    }
    proof {
        assert(all_tagged(views, NvType::Uint16));
        assert(out@ =~= Seq::new(views.len(), |i: int| views[i].unwrap()->Uint16_0));
    }
    Ok(NvData::Uint16Array(out))
}

#[verifier::loop_isolation(false)]
fn pack_int32(encs: &Vec<Option<NvData>>) -> (r: Result<NvData, Error>)
    requires
        encs@.len() > 0,
        enc_views(encs@)[0] matches Some(DataView::Int32(_)),
    ensures
        data_outcome(r, pack_array(enc_views(encs@))),
{
    let ghost views = enc_views(encs@);
    let mut out: Vec<i32> = Vec::new();
    let mut i: usize = 0;
    while i < encs.len()
        invariant
            i <= encs.len(),
            out.len() == i,
            views == enc_views(encs@),
            forall|j: int|
                0 <= j < i ==> tagged(#[trigger] views[j], NvType::Int32) && out@[j]
                    == views[j].unwrap()->Int32_0,
        decreases encs.len() - i,
    {
        match &encs[i] {
            Some(NvData::Int32(x)) => {
                out.push(*x);
            },
            _ => {
                proof {
                    assert(!tagged(views[i as int], NvType::Int32));
                }
                return Err(Error::UnsupportedShape(Unsupported::HeterogeneousSequence));
            },
        }
        i += 1;
    }
    proof {
        assert(all_tagged(views, NvType::Int32));
        assert(out@ =~= Seq::new(views.len(), |i: int| views[i].unwrap()->Int32_0));
    }
    Ok(NvData::Int32Array(out))
}

#[verifier::loop_isolation(false)]
fn pack_uint32(encs: &Vec<Option<NvData>>) -> (r: Result<NvData, Error>)
    requires
        encs@.len() > 0,
        enc_views(encs@)[0] matches Some(DataView::Uint32(_)),
    ensures
        data_outcome(r, pack_array(enc_views(encs@))),
{
    let ghost views = enc_views(encs@);
    let mut out: Vec<u32> = Vec::new();
    let mut i: usize = 0;
    while i < encs.len()
        invariant
            i <= encs.len(),
            out.len() == i,
            views == enc_views(encs@),
            forall|j: int|
                0 <= j < i ==> tagged(#[trigger] views[j], NvType::Uint32) && out@[j]
                    == views[j].unwrap()->Uint32_0,
        decreases encs.len() - i,
    {
        match &encs[i] {
            Some(NvData::Uint32(x)) => {
                out.push(*x);
            },
            _ => {
                proof {
                    assert(!tagged(views[i as int], NvType::Uint32));
                }
                return Err(Error::UnsupportedShape(Unsupported::HeterogeneousSequence));
            },
        }
        i += 1;
    }
    proof {
        assert(all_tagged(views, NvType::Uint32));
        assert(out@ =~= Seq::new(views.len(), |i: int| views[i].unwrap()->Uint32_0));
    }
    Ok(NvData::Uint32Array(out))
}

#[verifier::loop_isolation(false)]
fn pack_int64(encs: &Vec<Option<NvData>>) -> (r: Result<NvData, Error>)
    requires
        encs@.len() > 0,
        enc_views(encs@)[0] matches Some(DataView::Int64(_)),
    ensures
        data_outcome(r, pack_array(enc_views(encs@))),
{
    let ghost views = enc_views(encs@);
    let mut out: Vec<i64> = Vec::new();
    let mut i: usize = 0;
    while i < encs.len()
        invariant
            i <= encs.len(),
            out.len() == i,
            views == enc_views(encs@),
            forall|j: int|
                0 <= j < i ==> tagged(#[trigger] views[j], NvType::Int64) && out@[j]
                    == views[j].unwrap()->Int64_0,
        decreases encs.len() - i,
    {
        match &encs[i] {
            Some(NvData::Int64(x)) => {
                out.push(*x);
            },
            _ => {
                proof {
                    assert(!tagged(views[i as int], NvType::Int64));
                }
                return Err(Error::UnsupportedShape(Unsupported::HeterogeneousSequence));
            },
        }
        i += 1;
    }
    proof {
        assert(all_tagged(views, NvType::Int64));
        assert(out@ =~= Seq::new(views.len(), |i: int| views[i].unwrap()->Int64_0));
    }
    Ok(NvData::Int64Array(out))
}

#[verifier::loop_isolation(false)]
fn pack_uint64(encs: &Vec<Option<NvData>>) -> (r: Result<NvData, Error>)
    requires
        encs@.len() > 0,
        enc_views(encs@)[0] matches Some(DataView::Uint64(_)),
    ensures
        data_outcome(r, pack_array(enc_views(encs@))),
{
    let ghost views = enc_views(encs@);
    let mut out: Vec<u64> = Vec::new();
    let mut i: usize = 0;
    while i < encs.len()
        invariant
            i <= encs.len(),
            out.len() == i,
            views == enc_views(encs@),
            forall|j: int|
                0 <= j < i ==> tagged(#[trigger] views[j], NvType::Uint64) && out@[j]
                    == views[j].unwrap()->Uint64_0,
        decreases encs.len() - i,
    {
        match &encs[i] {
            Some(NvData::Uint64(x)) => {
                out.push(*x);
            },
            _ => {
                proof {
                    assert(!tagged(views[i as int], NvType::Uint64));
                }
                return Err(Error::UnsupportedShape(Unsupported::HeterogeneousSequence));
            },
        }
        i += 1;
    }
    proof {
        assert(all_tagged(views, NvType::Uint64));
        assert(out@ =~= Seq::new(views.len(), |i: int| views[i].unwrap()->Uint64_0));
    }
    Ok(NvData::Uint64Array(out))
}

#[verifier::loop_isolation(false)]
fn pack_lists(encs: &Vec<Option<NvData>>) -> (r: Result<NvData, Error>)
    requires
        encs@.len() > 0,
        enc_views(encs@)[0] matches Some(DataView::NvList(_)),
    ensures
        data_outcome(r, pack_array(enc_views(encs@))),
{
    let ghost views = enc_views(encs@);
    let mut out: Vec<NvList> = Vec::new();
    let mut i: usize = 0;
    while i < encs.len()
        invariant
            i <= encs.len(),
            out.len() == i,
            views == enc_views(encs@),
            forall|j: int|
                0 <= j < i ==> tagged(#[trigger] views[j], NvType::NvList) && out@[j]@
                    == views[j].unwrap()->NvList_0,
        decreases encs.len() - i,
    {
        match &encs[i] {
            Some(NvData::NvList(l)) => {
                out.push(l.clone());
            },
            _ => {
                proof {
                    assert(!tagged(views[i as int], NvType::NvList));
                }
                return Err(Error::UnsupportedShape(Unsupported::HeterogeneousSequence));
            },
        }
        i += 1;
    }
    proof {
        assert(all_tagged(views, NvType::NvList));
        assert(list_views(out@) =~= Seq::new(views.len(), |i: int| views[i].unwrap()->NvList_0));
    }
    Ok(NvData::from_lists(out))
}

/// The array that holds the encoded elements of a sequence.
fn pack(encs: &Vec<Option<NvData>>) -> (r: Result<NvData, Error>)
    ensures
        data_outcome(r, pack_array(enc_views(encs@))),
{
    if encs.len() == 0 {
        return Err(Error::UnsupportedShape(Unsupported::EmptySequence));
    }
    match &encs[0] {
        None => Err(Error::UnsupportedShape(Unsupported::SequenceElement)),
        Some(NvData::Byte(_)) => pack_byte(encs),
        Some(NvData::Int8(_)) => pack_int8(encs),
        Some(NvData::Uint8(_)) => pack_uint8(encs),
        Some(NvData::Int16(_)) => pack_int16(encs),
        Some(NvData::Uint16(_)) => pack_uint16(encs),
        Some(NvData::Int32(_)) => pack_int32(encs),
        Some(NvData::Uint32(_)) => pack_uint32(encs),
        Some(NvData::Int64(_)) => pack_int64(encs),
        Some(NvData::Uint64(_)) => pack_uint64(encs),
        Some(NvData::NvList(_)) => pack_lists(encs),
        Some(_) => Err(Error::UnsupportedShape(Unsupported::SequenceElement)),
    }
}

/// Text as a tagged value.
fn encode_text(s: &String) -> (r: Result<Option<NvData>, Error>)
    ensures
        encoded_view(r) == text_value(s@),
{
    if contains_nul(s.as_str()) {
        Err(Error::TextEncodingError)
    } else {
        Ok(Some(NvData::Str(s.clone())))
    }
}

/// Puts an encoded value, where there is one, behind the entries of a list.
fn put_into(list: &mut NvList, name: &str, d: Option<NvData>) -> (r: Result<(), Error>)
    ensures
        match put(old(list)@, name@, encoded_view(Ok(d))->Ok_0) {
            Ok(l) => r is Ok && final(list)@ == l,
            Err(e) => r matches Err(x) && x@ == e,
        },
{
    match d {
        None => Ok(()),
        Some(x) => list.insert_data(name, x),
    }
}

/// Writes a typed value as a tagged value. `Ok(None)` stands for a value that
/// is absent: the field that holds it gets no entry.
#[verifier::loop_isolation(false)]
pub fn encode(v: &Value) -> (r: Result<Option<NvData>, Error>)
    ensures
        encoded_view(r) == spec_encode(v@),
    decreases v,
{
    match v {
        Value::Unit => Ok(Some(NvData::Bool)),
        Value::Bool(x) => Ok(Some(NvData::BoolV(*x))),
        Value::Byte(x) => Ok(Some(NvData::Byte(*x))),
        Value::I8(x) => Ok(Some(NvData::Int8(*x))),
        Value::U8(x) => Ok(Some(NvData::Uint8(*x))),
        Value::I16(x) => Ok(Some(NvData::Int16(*x))),
        Value::U16(x) => Ok(Some(NvData::Uint16(*x))),
        Value::I32(x) => Ok(Some(NvData::Int32(*x))),
        Value::U32(x) => Ok(Some(NvData::Uint32(*x))),
        Value::I64(x) => Ok(Some(NvData::Int64(*x))),
        Value::U64(x) => Ok(Some(NvData::Uint64(*x))),
        Value::Str(s) => encode_text(s),
        Value::Optional(None) => Ok(None),
        Value::Optional(Some(b)) => encode(b),
        Value::Sequence(items) => {
            let ghost iv = v@->Sequence_0;
            proof {
                lemma_values_view(items@, items@.len());
                assert(enc_views(Seq::<Option<NvData>>::empty()) =~= Seq::<
                    Option<DataView>,
                >::empty());
            }
            let mut encs: Vec<Option<NvData>> = Vec::new();
            let mut i: usize = 0;
            while i < items.len()
                invariant
                    i <= items.len(),
                    iv.len() == items.len(),
                    encode_elements(iv, i as nat) == Ok::<_, ErrorView>(enc_views(encs@)),
                decreases items.len() - i,
            {
                proof {
                    assert(iv[i as int] == items@[i as int]@);
                }
                match encode(&items[i]) {
                    Err(e) => {
                        proof {
                            lemma_elements_error_stays(iv, (i + 1) as nat, iv.len());
                        }
                        return Err(e);
                    },
                    Ok(d) => {
                        let ghost before = enc_views(encs@);
                        encs.push(d);
                        proof {
                            assert(enc_views(encs@) =~= before.push(encoded_view(Ok(d))->Ok_0));
                        }
                    },
                }
                i += 1;
            }
            match pack(&encs) {
                Ok(d) => Ok(Some(d)),
                Err(e) => Err(e),
            }
        },
        Value::Record(fields) => {
            let ghost fv = v@->Record_0;
            proof {
                lemma_fields_view(fields@, fields@.len());
            }
            let mut list = NvList::new_unique_names();
            let mut i: usize = 0;
            while i < fields.len()
                invariant
                    i <= fields.len(),
                    fv.len() == fields.len(),
                    encode_fields(fv, i as nat) == Ok::<_, ErrorView>(list@),
                decreases fields.len() - i,
            {
                proof {
                    assert(fv[i as int] == fields@[i as int]@);
                    lemma_fields_error_stays(fv, (i + 1) as nat, fv.len());
                }
                let d = match encode(&fields[i].value) {
                    Err(e) => {
                        return Err(e);
                    },
                    Ok(d) => d,
                };
                match put_into(&mut list, fields[i].name.as_str(), d) {
                    Err(e) => {
                        return Err(e);
                    },
                    Ok(()) => {},
                }
                i += 1;
            }
            Ok(Some(NvData::from_list(list)))
        },
        Value::Mapping(entries) => {
            let ghost ev = v@->Mapping_0;
            proof {
                lemma_entries_view(entries@, entries@.len());
            }
            let mut list = NvList::new_unique_names();
            let mut i: usize = 0;
            while i < entries.len()
                invariant
                    i <= entries.len(),
                    ev.len() == entries.len(),
                    encode_entries(ev, i as nat) == Ok::<_, ErrorView>(list@),
                decreases entries.len() - i,
            {
                proof {
                    assert(ev[i as int] == entries@[i as int]@);
                    lemma_entries_error_stays(ev, (i + 1) as nat, ev.len());
                }
                let key = match encode(&entries[i].key) {
                    Err(e) => {
                        return Err(e);
                    },
                    Ok(Some(NvData::Str(k))) => k,
                    Ok(_) => {
                        return Err(Error::UnsupportedShape(Unsupported::MapKey));
                    },
                };
                let d = match encode(&entries[i].value) {
                    Err(e) => {
                        return Err(e);
                    },
                    Ok(d) => d,
                };
                match put_into(&mut list, key.as_str(), d) {
                    Err(e) => {
                        return Err(e);
                    },
                    Ok(()) => {},
                }
                i += 1;
            }
            Ok(Some(NvData::from_list(list)))
        },
        Value::UnitVariant(n) => encode_text(n),
        Value::NewtypeVariant(n, b) => {
            let d = match encode(b) {
                Err(e) => {
                    return Err(e);
                },
                Ok(d) => d,
            };
            let mut list = NvList::new_unique_names();
            match put_into(&mut list, n.as_str(), d) {
                Err(e) => Err(e),
                Ok(()) => Ok(Some(NvData::from_list(list))),
            }
        },
        Value::TupleVariant(_, _) => Err(Error::UnsupportedShape(Unsupported::EnumVariant)),
        Value::StructVariant(_, _) => Err(Error::UnsupportedShape(Unsupported::EnumVariant)),
    }
}

/// Writes a typed value as a list. Only a record, a map or a variant with one
/// payload can be written so; any other value is refused.
pub fn to_nvlist(v: &Value) -> (r: Result<NvList, Error>)
    ensures
        list_outcome(r, spec_to_nvlist(v@)),
{
    match encode(v) {
        Err(e) => Err(e),
        Ok(Some(NvData::NvList(l))) => Ok(l),
        Ok(_) => Err(Error::UnsupportedShape(Unsupported::TopLevel)),
    }
}

} // verus!

