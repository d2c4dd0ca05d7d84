use vstd::prelude::*;
use vstd::utf8::encode_utf8;
use crate::data::{DataView, ListView, NvData, NvList, NvListRef, PairView};
use crate::error::{Error, ErrorView};

verus! {

/// Wire encodings in which a list can be flattened to bytes.
#[derive(Debug, Clone, Copy, PartialEq, Eq, Structural)]
pub enum NvEncoding {
    /// The layout of the machine's memory.
    Native,
    /// The portable layout, in units of four bytes.
    Xdr,
}

impl NvEncoding {
    /// The number by which the wire format names this encoding.
    pub open spec fn raw(self) -> int {
        match self {
            NvEncoding::Native => 0,
            NvEncoding::Xdr => 1,
        }
    }

    pub fn as_raw(&self) -> (r: i32)
        ensures
            r == self.raw(),
    {
        match self {
            NvEncoding::Native => 0,
            NvEncoding::Xdr => 1,
        }
    }
}

/// The longest flat form, in bytes, that the wire format allows for the
/// entries of one list.
pub const SIZE_LIMIT: u64 = 0x7fff_ffff;

/// The number of bytes of a text in a flat form, without its terminator.
pub open spec fn text_len(s: Seq<char>) -> nat {
    encode_utf8(s).len()
}

/// `n` rounded up to a multiple of 8.
pub open spec fn align8(n: nat) -> nat {
    ((n + 7) / 8 * 8) as nat
}

/// `n` rounded up to a multiple of 4.
pub open spec fn align4(n: nat) -> nat {
    ((n + 3) / 4 * 4) as nat
}

/// The bytes that a flat form spends on a list before and behind its entries:
/// in the native form the terminator alone, in the portable form also the
/// version and the flags.
pub open spec fn list_overhead(enc: NvEncoding) -> nat {
    match enc {
        NvEncoding::Native => 4,
        NvEncoding::Xdr => 16,
    }
}

/// The bytes that a flat form spends on the outermost list besides its
/// entries: the encoding header, the version, the flags and the terminator.
pub open spec fn top_overhead(enc: NvEncoding) -> nat {
    match enc {
        NvEncoding::Native => 16,
        NvEncoding::Xdr => 20,
    }
}

/// The bytes of a value in the native form, before padding and without what
/// lists inside the value add: a list counts with its header of 24 bytes, an
/// array of lists with a pointer and a header for each.
pub open spec fn native_value_bytes(d: DataView) -> nat {
    match d {
        DataView::Unknown => 0,
        DataView::Bool => 0,
        DataView::BoolV(_) => 4,
        DataView::Byte(_) => 1,
        DataView::Int8(_) => 1,
        DataView::Uint8(_) => 1,
        DataView::Int16(_) => 2,
        DataView::Uint16(_) => 2,
        DataView::Int32(_) => 4,
        DataView::Uint32(_) => 4,
        DataView::Int64(_) => 8,
        DataView::Uint64(_) => 8,
        DataView::Str(s) => text_len(s) + 1,
        DataView::NvList(_) => 24,
        DataView::ByteArray(v) => v.len(),
        DataView::Int8Array(v) => v.len(),
        DataView::Uint8Array(v) => v.len(),
        DataView::Int16Array(v) => 2 * v.len(),
        DataView::Uint16Array(v) => 2 * v.len(),
        DataView::Int32Array(v) => 4 * v.len(),
        DataView::Uint32Array(v) => 4 * v.len(),
        DataView::Int64Array(v) => 8 * v.len(),
        DataView::Uint64Array(v) => 8 * v.len(),
        DataView::NvListArray(v) => 32 * v.len(),
    }
}

/// The bytes of a value in the portable form, without what lists inside the
/// value add. Every part is padded to 4 bytes; text and arrays of numbers
/// carry their length in 4 bytes more.
pub open spec fn xdr_value_bytes(d: DataView) -> nat {
    match d {
        DataView::Unknown => 0,
        DataView::Bool => 0,
        DataView::BoolV(_) => 4,
        DataView::Byte(_) => 4,
        DataView::Int8(_) => 4,
        DataView::Uint8(_) => 4,
        DataView::Int16(_) => 4,
        DataView::Uint16(_) => 4,
        DataView::Int32(_) => 4,
        DataView::Uint32(_) => 4,
        DataView::Int64(_) => 8,
        DataView::Uint64(_) => 8,
        DataView::Str(s) => 4 + align4(text_len(s)),
        DataView::NvList(_) => 0,
        DataView::ByteArray(v) => align4(v.len()),
        DataView::Int8Array(v) => 4 + 4 * v.len(),
        DataView::Uint8Array(v) => 4 + 4 * v.len(),
        DataView::Int16Array(v) => 4 + 4 * v.len(),
        DataView::Uint16Array(v) => 4 + 4 * v.len(),
        DataView::Int32Array(v) => 4 + 4 * v.len(),
        DataView::Uint32Array(v) => 4 + 4 * v.len(),
        DataView::Int64Array(v) => 4 + 8 * v.len(),
        DataView::Uint64Array(v) => 4 + 8 * v.len(),
        DataView::NvListArray(_) => 0,
    }
}

/// The bytes of an entry's name and value in the native form, without what
/// lists inside the value add: a header of 16 bytes, the name with its
/// terminator, and the value, name and value each padded to 8 bytes.
pub open spec fn native_own_size(p: PairView) -> nat {
    align8(16 + text_len(p.name) + 1) + align8(native_value_bytes(p.data))
}

/// The bytes of an entry's name and value in the portable form, without what
/// lists inside the value add: five words of 4 bytes, the name padded to 4
/// bytes, and the value.
pub open spec fn xdr_own_size(p: PairView) -> nat {
    20 + align4(text_len(p.name)) + xdr_value_bytes(p.data)
}

/// The bytes of an entry's name and value without what lists inside add.
pub open spec fn own_size(p: PairView, enc: NvEncoding) -> nat {
    match enc {
        NvEncoding::Native => native_own_size(p),
        NvEncoding::Xdr => xdr_own_size(p),
    }
}

/// The bytes of one entry in a flat form: its name and value, and for each
/// list inside the value that list's own flat form.
pub open spec fn pair_size(p: PairView, enc: NvEncoding) -> nat
    decreases p, 0nat,
{
    own_size(p, enc) + match p.data {
        DataView::NvList(l) => list_overhead(enc) + pairs_size(l.pairs, l.pairs.len(), enc),
        DataView::NvListArray(ls) => lists_size(ls, ls.len(), enc),
        _ => 0,
    }
}

/// The bytes of the first `n` entries in a flat form.
pub open spec fn pairs_size(pairs: Seq<PairView>, n: nat, enc: NvEncoding) -> nat
    decreases pairs, n,
{
    if n == 0 || n > pairs.len() {
        0
    } else {
        pairs_size(pairs, (n - 1) as nat, enc) + pair_size(pairs[n - 1], enc)
    }
}

/// The bytes of the first `n` lists of an array of lists in a flat form.
pub open spec fn lists_size(lists: Seq<ListView>, n: nat, enc: NvEncoding) -> nat
    decreases lists, n,
{
    if n == 0 || n > lists.len() {
        0
    } else {
        lists_size(lists, (n - 1) as nat, enc) + list_overhead(enc) + pairs_size(
            lists[n - 1].pairs,
            lists[n - 1].pairs.len(),
            enc,
        )
    }
}

/// The name of the first entry, lists inside values included, whose value is
/// of a kind that is not known.
pub open spec fn unknown_in_pair(p: PairView) -> Option<Seq<char>>
    decreases p, 0nat,
{
    match p.data {
        DataView::Unknown => Some(p.name),
        DataView::NvList(l) => unknown_in_pairs(l.pairs, l.pairs.len()),
        DataView::NvListArray(ls) => unknown_in_lists(ls, ls.len()),
        _ => None,
    }
}

/// As `unknown_in_pair`, among the first `n` entries.
pub open spec fn unknown_in_pairs(pairs: Seq<PairView>, n: nat) -> Option<Seq<char>>
    decreases pairs, n,
{
    if n == 0 || n > pairs.len() {
        None
    } else {
        match unknown_in_pairs(pairs, (n - 1) as nat) {
            Some(name) => Some(name),
            None => unknown_in_pair(pairs[n - 1]),
        }
    }
}

/// As `unknown_in_pair`, among the first `n` lists.
pub open spec fn unknown_in_lists(lists: Seq<ListView>, n: nat) -> Option<Seq<char>>
    decreases lists, n,
{
    if n == 0 || n > lists.len() {
        None
    } else {
        match unknown_in_lists(lists, (n - 1) as nat) {
            Some(name) => Some(name),
            None => unknown_in_pairs(lists[n - 1].pairs, lists[n - 1].pairs.len()),
        }
    }
}

/// The length of a list's flat form, or why it has none: a value of unknown
/// kind has no flat form, and the entries of the outermost list may not take
/// more than `SIZE_LIMIT` bytes.
pub open spec fn encoded_size_of(l: ListView, enc: NvEncoding) -> Result<nat, ErrorView> {
    match unknown_in_pairs(l.pairs, l.pairs.len()) {
        Some(name) => Err(ErrorView::UnknownTag(name)),
        None => if pairs_size(l.pairs, l.pairs.len(), enc) > SIZE_LIMIT {
            Err(ErrorView::TooLarge)
        } else {
            Ok(top_overhead(enc) + pairs_size(l.pairs, l.pairs.len(), enc))
        },
    }
}

/// The first entries take no more bytes than more of them.
pub proof fn lemma_pairs_size_monotonic(pairs: Seq<PairView>, i: nat, n: nat, enc: NvEncoding)
    requires
        i <= n <= pairs.len(),
    ensures
        pairs_size(pairs, i, enc) <= pairs_size(pairs, n, enc),
    decreases n,
{
    if i < n {
        lemma_pairs_size_monotonic(pairs, i, (n - 1) as nat, enc);
    }
}

/// The first lists take no more bytes than more of them.
pub proof fn lemma_lists_size_monotonic(lists: Seq<ListView>, i: nat, n: nat, enc: NvEncoding)
    requires
        i <= n <= lists.len(),
    ensures
        lists_size(lists, i, enc) <= lists_size(lists, n, enc),
    decreases n,
{
    if i < n {
        lemma_lists_size_monotonic(lists, i, (n - 1) as nat, enc);
    }
}

/// An unknown value among the first entries is the first among more of them.
pub proof fn lemma_unknown_in_pairs_stays(pairs: Seq<PairView>, i: nat, n: nat)
    requires
        i <= n <= pairs.len(),
        unknown_in_pairs(pairs, i) is Some,
    ensures
        unknown_in_pairs(pairs, n) == unknown_in_pairs(pairs, i),
    decreases n,
{
    if i < n {
        lemma_unknown_in_pairs_stays(pairs, i, (n - 1) as nat);
    }
}

/// An unknown value among the first lists is the first among more of them.
pub proof fn lemma_unknown_in_lists_stays(lists: Seq<ListView>, i: nat, n: nat)
    requires
        i <= n <= lists.len(),
        unknown_in_lists(lists, i) is Some,
    ensures
        unknown_in_lists(lists, n) == unknown_in_lists(lists, i),
    decreases n,
{
    if i < n {
        lemma_unknown_in_lists_stays(lists, i, (n - 1) as nat);
    }
}

fn round8(n: u64) -> (r: u64)
    requires
        n <= 0x10_0000_0000,
    ensures
        r == align8(n as nat),
{
    (n + 7) / 8 * 8
}

fn round4(n: u64) -> (r: u64)
    requires
        n <= 0x10_0000_0000,
    ensures
        r == align4(n as nat),
{
    (n + 3) / 4 * 4
}

/// `unit` bytes for each of `len` elements, and `extra` before them, where
/// that is within the limit.
fn array_size(len: usize, unit: u64, extra: u64) -> (r: Option<u64>)
    requires
        1 <= unit <= 32,
        extra <= 4,
    ensures
        match r {
            Some(n) => n == extra + unit * len && n <= SIZE_LIMIT,
            None => extra + unit * len > SIZE_LIMIT,
        },
{
    if len > SIZE_LIMIT as usize {
        assert(extra + unit * len > SIZE_LIMIT) by (nonlinear_arith)
            requires
                len > SIZE_LIMIT,
                unit >= 1,
                extra >= 0,
        ;
        return None;
    }
    assert(unit * len <= 32 * 0x7fff_ffff) by (nonlinear_arith)
        requires
            len <= 0x7fff_ffff,
            1 <= unit <= 32,
    ;
    let n = extra + unit * (len as u64);
    if n > SIZE_LIMIT {
        None
    } else {
        Some(n)
    }
}

/// The bytes of the value in the native form, before padding.
fn native_value_size(d: &NvData) -> (r: Option<u64>)
    ensures
        match r {
            Some(n) => n == native_value_bytes(d@) && n <= SIZE_LIMIT,
            None => native_value_bytes(d@) > SIZE_LIMIT,
        },
{
    match d {
        NvData::Unknown => Some(0),
        NvData::Bool => Some(0),
        NvData::BoolV(_) => Some(4),
        NvData::Byte(_) => Some(1),
        NvData::Int8(_) => Some(1),
        NvData::Uint8(_) => Some(1),
        NvData::Int16(_) => Some(2),
        NvData::Uint16(_) => Some(2),
        NvData::Int32(_) => Some(4),
        NvData::Uint32(_) => Some(4),
        NvData::Int64(_) => Some(8),
        NvData::Uint64(_) => Some(8),
        NvData::Str(s) => array_size(s.as_str().as_bytes().len(), 1, 1),
        NvData::NvList(_) => Some(24),
        NvData::ByteArray(v) => array_size(v.len(), 1, 0),
        NvData::Int8Array(v) => array_size(v.len(), 1, 0),
        NvData::Uint8Array(v) => array_size(v.len(), 1, 0),
        NvData::Int16Array(v) => array_size(v.len(), 2, 0),
        NvData::Uint16Array(v) => array_size(v.len(), 2, 0),
        NvData::Int32Array(v) => array_size(v.len(), 4, 0),
        NvData::Uint32Array(v) => array_size(v.len(), 4, 0),
        NvData::Int64Array(v) => array_size(v.len(), 8, 0),
        NvData::Uint64Array(v) => array_size(v.len(), 8, 0),
        NvData::NvListArray(v) => array_size(v.len(), 32, 0),
    }
}

/// The bytes of the value in the portable form.
fn xdr_value_size(d: &NvData) -> (r: Option<u64>)
    ensures
        match r {
            Some(n) => n == xdr_value_bytes(d@) && n <= SIZE_LIMIT + 8,
            None => xdr_value_bytes(d@) > SIZE_LIMIT,
        },
{
    match d {
        NvData::Unknown => Some(0),
        NvData::Bool => Some(0),
        NvData::BoolV(_) => Some(4),
        NvData::Byte(_) => Some(4),
        NvData::Int8(_) => Some(4),
        NvData::Uint8(_) => Some(4),
        NvData::Int16(_) => Some(4),
        NvData::Uint16(_) => Some(4),
        NvData::Int32(_) => Some(4),
        NvData::Uint32(_) => Some(4),
        NvData::Int64(_) => Some(8),
        NvData::Uint64(_) => Some(8),
        NvData::Str(s) => match array_size(s.as_str().as_bytes().len(), 1, 0) {
            Some(n) => Some(4 + round4(n)),
            None => None,
        },
        NvData::NvList(_) => Some(0),
        NvData::ByteArray(v) => match array_size(v.len(), 1, 0) {
            Some(n) => Some(round4(n)),
            None => None,
        },
        NvData::Int8Array(v) => array_size(v.len(), 4, 4),
        NvData::Uint8Array(v) => array_size(v.len(), 4, 4),
        NvData::Int16Array(v) => array_size(v.len(), 4, 4),
        NvData::Uint16Array(v) => array_size(v.len(), 4, 4),
        NvData::Int32Array(v) => array_size(v.len(), 4, 4),
        NvData::Uint32Array(v) => array_size(v.len(), 4, 4),
        NvData::Int64Array(v) => array_size(v.len(), 8, 4),
        NvData::Uint64Array(v) => array_size(v.len(), 8, 4),
        NvData::NvListArray(_) => Some(0),
    }
}

/// The bytes of an entry's name and value without what lists inside add,
/// where that is within the limit.
fn own_size_of(name: &str, d: &NvData, enc: NvEncoding) -> (r: Option<u64>)
    ensures
        match r {
            Some(n) => n == own_size(PairView { name: name@, data: d@ }, enc) && n <= SIZE_LIMIT,
            None => own_size(PairView { name: name@, data: d@ }, enc) > SIZE_LIMIT,
        },
{
    let ghost p = PairView { name: name@, data: d@ };
    let name_len = match array_size(name.as_bytes().len(), 1, 0) {
        Some(n) => n,
        None => {
            return None;
        },
    };
    let n = match enc {
        NvEncoding::Native => {
            match native_value_size(d) {
                Some(v) => round8(16 + name_len + 1) + round8(v),
                None => {
                    return None;
                },
            }
        },
        NvEncoding::Xdr => {
            match xdr_value_size(d) {
                Some(v) => 20 + round4(name_len) + v,
                None => {
                    return None;
                },
            }
        },
    };
    if n > SIZE_LIMIT {
        None
    } else {
        Some(n)
    }
}

/// `a + b`, where that is within the limit.
fn add_within(a: u64, b: u64) -> (r: Option<u64>)
    requires
        a <= SIZE_LIMIT,
        b <= SIZE_LIMIT,
    ensures
        match r {
            Some(n) => n == a + b && n <= SIZE_LIMIT,
            None => a + b > SIZE_LIMIT,
        },
{
    let n = a + b;
    if n > SIZE_LIMIT {
        None
    } else {
        Some(n)
    }
}

/// The bytes of an entry in a flat form, where that is within the limit.
#[verifier::loop_isolation(false)]
fn pair_size_of(name: &str, d: &NvData, enc: NvEncoding) -> (r: Option<u64>)
    ensures
        match r {
            Some(n) => n == pair_size(PairView { name: name@, data: d@ }, enc) && n <= SIZE_LIMIT,
            None => pair_size(PairView { name: name@, data: d@ }, enc) > SIZE_LIMIT,
        },
    decreases d@,
{
    let own = match own_size_of(name, d, enc) {
        Some(n) => n,
        None => {
            return None;
        },
    };
    match d {
        NvData::NvList(l) => {
            assert(d@ == DataView::NvList(l@));
            let inner = match pairs_size_of(l, enc) {
                Some(n) => n,
                None => {
                    return None;
                },
            };
            let overhead: u64 = match enc {
                NvEncoding::Native => 4,
                NvEncoding::Xdr => 16,
            };
            match add_within(inner, overhead) {
                Some(n) => add_within(own, n),
                None => None,
            }
        },
        NvData::NvListArray(v) => {
            let ghost ls = d@->NvListArray_0;
            let mut total: u64 = 0;
            let mut i: usize = 0;
            while i < v.len()
                invariant
                    i <= v.len(),
                    ls.len() == v.len(),
                    total == lists_size(ls, i as nat, enc),
                    total <= SIZE_LIMIT,
                decreases v.len() - i,
            {
                proof {
                    lemma_lists_size_monotonic(ls, (i + 1) as nat, ls.len(), enc);
                    assert(ls[i as int] == v@[i as int]@);
                }
                let inner = match pairs_size_of(&v[i], enc) {
                    Some(n) => n,
                    None => {
                        return None;
                    },
                };
                let overhead: u64 = match enc {
                    NvEncoding::Native => 4,
                    NvEncoding::Xdr => 16,
                };
                let one = match add_within(inner, overhead) {
                    Some(n) => n,
                    None => {
                        return None;
                    },
                };
                total = match add_within(total, one) {
                    Some(n) => n,
                    None => {
                        return None;
                    },
                };
                i += 1;
            }
            add_within(own, total)
        },
        _ => Some(own),
    }
}

/// The bytes of a list's entries in a flat form, where that is within the limit.
#[verifier::loop_isolation(false)]
fn pairs_size_of(l: &NvList, enc: NvEncoding) -> (r: Option<u64>)
    ensures
        match r {
            Some(n) => n == pairs_size(l@.pairs, l@.pairs.len(), enc) && n <= SIZE_LIMIT,
            None => pairs_size(l@.pairs, l@.pairs.len(), enc) > SIZE_LIMIT,
        },
    decreases l@,
{
    let mut total: u64 = 0;
    let mut i: usize = 0;
    while i < l.len()
        invariant
            i <= l@.pairs.len(),
            total == pairs_size(l@.pairs, i as nat, enc),
            total <= SIZE_LIMIT,
        decreases l@.pairs.len() - i,
    {
        proof {
            lemma_pairs_size_monotonic(l@.pairs, (i + 1) as nat, l@.pairs.len(), enc);
        }
        let p = l.get(i);
        let one = match pair_size_of(p.name(), p.data(), enc) {
            Some(n) => n,
            None => {
                return None;
            },
        };
        total = match add_within(total, one) {
            Some(n) => n,
            None => {
                return None;
            },
        };
        i += 1;
    }
    Some(total)
}

/// The name of the first entry of unknown kind in or under a value.
#[verifier::loop_isolation(false)]
fn find_unknown_in(name: &str, d: &NvData) -> (r: Option<String>)
    ensures
        match r {
            Some(s) => unknown_in_pair(PairView { name: name@, data: d@ }) == Some(s@),
            None => unknown_in_pair(PairView { name: name@, data: d@ }) is None,
        },
    decreases d@,
{
    match d {
        NvData::Unknown => Some(name.to_owned()),
        NvData::NvList(l) => {
            assert(d@ == DataView::NvList(l@));
            find_unknown(l)
        },
        NvData::NvListArray(v) => {
            let ghost ls = d@->NvListArray_0;
            let mut i: usize = 0;
            while i < v.len()
                invariant
                    i <= v.len(),
                    ls.len() == v.len(),
                    unknown_in_lists(ls, i as nat) is None,
                decreases v.len() - i,
            {
                proof {
                    assert(ls[i as int] == v@[i as int]@);
                }
                match find_unknown(&v[i]) {
                    Some(s) => {
                        proof {
                            lemma_unknown_in_lists_stays(ls, (i + 1) as nat, ls.len());
                        }
                        return Some(s);
                    },
                    None => {},
                }
                i += 1;
            }
            None
        },
        _ => None,
    }
}

/// The name of the first entry of unknown kind in or under a list.
#[verifier::loop_isolation(false)]
fn find_unknown(l: &NvList) -> (r: Option<String>)
    ensures
        match r {
            Some(s) => unknown_in_pairs(l@.pairs, l@.pairs.len()) == Some(s@),
            None => unknown_in_pairs(l@.pairs, l@.pairs.len()) is None,
        },
    decreases l@,
{
    let mut i: usize = 0;
    while i < l.len()
        invariant
            i <= l@.pairs.len(),
            unknown_in_pairs(l@.pairs, i as nat) is None,
        decreases l@.pairs.len() - i,
    {
        let p = l.get(i);
        match find_unknown_in(p.name(), p.data()) {
            Some(s) => {
                proof {
                    lemma_unknown_in_pairs_stays(l@.pairs, (i + 1) as nat, l@.pairs.len());
                }
                return Some(s);
            },
            None => {},
        }
        i += 1;
    }
    None
}

impl NvListRef {
    /// The length in bytes that the list takes when it is flattened in the
    /// given encoding. A list that holds a value of unknown kind has no flat
    /// form, and neither has one whose entries take more than `SIZE_LIMIT` bytes.
    pub fn encoded_size(&self, encoding: NvEncoding) -> (r: Result<u64, Error>)
        ensures
            match encoded_size_of(self@, encoding) {
                Ok(n) => r == Ok::<u64, Error>(n as u64) && n <= SIZE_LIMIT + 20,
                Err(e) => r matches Err(x) && x@ == e,
            },
    {
        match find_unknown(self) {
            Some(name) => Err(Error::UnknownTag(name)),
            None => match pairs_size_of(self, encoding) {
                None => Err(Error::TooLarge),
                Some(n) => match encoding {
                    NvEncoding::Native => Ok(n + 16),
                    NvEncoding::Xdr => Ok(n + 20),
                },
            },
        }
    }
}

/// The greater of two numbers.
pub open spec fn greater(a: nat, b: nat) -> nat {
    if a >= b {
        a
    } else {
        b
    }
}

/// How deep lists stand in one another in a list: 1 for a list that holds
/// no list, and 1 more than its deepest list for any other.
pub open spec fn depth(l: ListView) -> nat
    decreases l, 0nat,
{
    1 + pairs_depth(l.pairs, l.pairs.len())
}

/// The depth of the deepest list in the values of the first `n` entries; 0
/// where they hold no list.
pub open spec fn pairs_depth(pairs: Seq<PairView>, n: nat) -> nat
    decreases pairs, n,
{
    if n == 0 || n > pairs.len() {
        0
    } else {
        greater(
            pairs_depth(pairs, (n - 1) as nat),
            match pairs[n - 1].data {
                DataView::NvList(l) => depth(l),
                DataView::NvListArray(ls) => lists_depth(ls, ls.len()),
                _ => 0,
            },
        )
    }
}

/// The depth of the deepest of the first `n` lists.
pub open spec fn lists_depth(lists: Seq<ListView>, n: nat) -> nat
    decreases lists, n,
{
    if n == 0 || n > lists.len() {
        0
    } else {
        greater(lists_depth(lists, (n - 1) as nat), depth(lists[n - 1]))
    }
}

/// The first entries hold no deeper list than more of them.
pub proof fn lemma_pairs_depth_monotonic(pairs: Seq<PairView>, i: nat, n: nat)
    requires
        i <= n <= pairs.len(),
    ensures
        pairs_depth(pairs, i) <= pairs_depth(pairs, n),
    decreases n,
{
    if i < n {
        lemma_pairs_depth_monotonic(pairs, i, (n - 1) as nat);
    }
}

/// The first lists are no deeper than more of them.
pub proof fn lemma_lists_depth_monotonic(lists: Seq<ListView>, i: nat, n: nat)
    requires
        i <= n <= lists.len(),
    ensures
        lists_depth(lists, i) <= lists_depth(lists, n),
    decreases n,
{
    if i < n {
        lemma_lists_depth_monotonic(lists, i, (n - 1) as nat);
    }
}

/// Whether a value holds a list that is deeper than the limit.
#[verifier::loop_isolation(false)]
fn holds_deeper_than(d: &NvData, limit: usize) -> (b: bool)
    ensures
        b == (match d@ {
            DataView::NvList(l) => depth(l),
            DataView::NvListArray(ls) => lists_depth(ls, ls.len()),
            _ => 0,
        } > limit),
    decreases limit, 1nat,
{
    match d {
        NvData::NvList(l) => l.deeper_than(limit),
        NvData::NvListArray(v) => {
            let ghost ls = d@->NvListArray_0;
            let mut i: usize = 0;
            while i < v.len()
                invariant
                    i <= v.len(),
                    ls.len() == v.len(),
                    lists_depth(ls, i as nat) <= limit,
                decreases v.len() - i,
            {
                proof {
                    lemma_lists_depth_monotonic(ls, (i + 1) as nat, ls.len());
                    assert(ls[i as int] == v@[i as int]@);
                }
                if v[i].deeper_than(limit) {
                    return true;
                }
                i += 1;
            }
            false
        },
        _ => false,
    }
}

impl NvListRef {
    /// Whether lists stand deeper in one another in this list than the limit
    /// allows. The answer is found without going deeper than the limit.
    #[verifier::loop_isolation(false)]
    pub fn deeper_than(&self, limit: usize) -> (b: bool)
        ensures
            b == (depth(self@) > limit),
        decreases limit, 0nat,
    {
        if limit == 0 {
            return true;
        }
        let mut i: usize = 0;
        while i < self.len()
            invariant
                i <= self@.pairs.len(),
                pairs_depth(self@.pairs, i as nat) <= limit - 1,
            decreases self@.pairs.len() - i,
        {
            proof {
                lemma_pairs_depth_monotonic(self@.pairs, (i + 1) as nat, self@.pairs.len());
            }
            if holds_deeper_than(self.get(i).data(), limit - 1) {
                return true;
            }
            i += 1;
        }
        false
    }
}

} // verus!
