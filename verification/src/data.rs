use vstd::prelude::*;
use crate::error::{contains_nul, has_nul, Error, ErrorView, NvType};

verus! {

/// What a tagged value is, as mathematics.
pub enum DataView {
    Unknown,
    Bool,
    BoolV(bool),
    Byte(u8),
    Int8(i8),
    Uint8(u8),
    Int16(i16),
    Uint16(u16),
    Int32(i32),
    Uint32(u32),
    Int64(i64),
    Uint64(u64),
    Str(Seq<char>),
    NvList(ListView),
    ByteArray(Seq<u8>),
    Int8Array(Seq<i8>),
    Uint8Array(Seq<u8>),
    Int16Array(Seq<i16>),
    Uint16Array(Seq<u16>),
    Int32Array(Seq<i32>),
    Uint32Array(Seq<u32>),
    Int64Array(Seq<i64>),
    Uint64Array(Seq<u64>),
    NvListArray(Seq<ListView>),
}

/// One entry of a list: a name and a value.
pub struct PairView {
    pub name: Seq<char>,
    pub data: DataView,
}

/// A list: its entries in the order of insertion, and whether names are unique.
pub struct ListView {
    pub unique: bool,
    pub pairs: Seq<PairView>,
}

impl DataView {
    pub open spec fn tag(self) -> NvType {
        match self {
            DataView::Unknown => NvType::Unknown,
            DataView::Bool => NvType::Bool,
            DataView::BoolV(_) => NvType::BoolV,
            DataView::Byte(_) => NvType::Byte,
            DataView::Int8(_) => NvType::Int8,
            DataView::Uint8(_) => NvType::Uint8,
            DataView::Int16(_) => NvType::Int16,
            DataView::Uint16(_) => NvType::Uint16,
            DataView::Int32(_) => NvType::Int32,
            DataView::Uint32(_) => NvType::Uint32,
            DataView::Int64(_) => NvType::Int64,
            DataView::Uint64(_) => NvType::Uint64,
            DataView::Str(_) => NvType::Str,
            DataView::NvList(_) => NvType::NvList,
            DataView::ByteArray(_) => NvType::ByteArray,
            DataView::Int8Array(_) => NvType::Int8Array,
            DataView::Uint8Array(_) => NvType::Uint8Array,
            DataView::Int16Array(_) => NvType::Int16Array,
            DataView::Uint16Array(_) => NvType::Uint16Array,
            DataView::Int32Array(_) => NvType::Int32Array,
            DataView::Uint32Array(_) => NvType::Uint32Array,
            DataView::Int64Array(_) => NvType::Int64Array,
            DataView::Uint64Array(_) => NvType::Uint64Array,
            DataView::NvListArray(_) => NvType::NvListArray,
        }
    }
}

/// A tagged value: what an entry of a list holds.
#[derive(Debug, PartialEq, Eq)]
pub enum NvData {
    /// A value of a kind that this library does not know.
    Unknown,
    /// No value: the entry's presence is the datum.
    Bool,
    BoolV(bool),
    Byte(u8),
    Int8(i8),
    Uint8(u8),
    Int16(i16),
    Uint16(u16),
    Int32(i32),
    Uint32(u32),
    Int64(i64),
    Uint64(u64),
    Str(String),
    NvList(NvList),
    ByteArray(Vec<u8>),
    Int8Array(Vec<i8>),
    Uint8Array(Vec<u8>),
    Int16Array(Vec<i16>),
    Uint16Array(Vec<u16>),
    Int32Array(Vec<i32>),
    Uint32Array(Vec<u32>),
    Int64Array(Vec<i64>),
    Uint64Array(Vec<u64>),
    NvListArray(Vec<NvList>),
}

/// An entry of a list.
#[derive(Debug, PartialEq, Eq)]
pub struct NvPair {
    name: String,
    data: NvData,
}

/// An ordered list of named, tagged values.
#[derive(Debug, PartialEq, Eq)]
pub struct NvList {
    unique: bool,
    pairs: Vec<NvPair>,
}

pub type NvListRef = NvList;

impl View for NvData {
    type V = DataView;

    open spec fn view(&self) -> DataView
        decreases self,
    {
        match self {
            NvData::Unknown => DataView::Unknown,
            NvData::Bool => DataView::Bool,
            NvData::BoolV(v) => DataView::BoolV(*v),
            NvData::Byte(v) => DataView::Byte(*v),
            NvData::Int8(v) => DataView::Int8(*v),
            NvData::Uint8(v) => DataView::Uint8(*v),
            NvData::Int16(v) => DataView::Int16(*v),
            NvData::Uint16(v) => DataView::Uint16(*v),
            NvData::Int32(v) => DataView::Int32(*v),
            NvData::Uint32(v) => DataView::Uint32(*v),
            NvData::Int64(v) => DataView::Int64(*v),
            NvData::Uint64(v) => DataView::Uint64(*v),
            NvData::Str(s) => DataView::Str(s@),
            NvData::NvList(l) => DataView::NvList(l.view()),
            NvData::ByteArray(v) => DataView::ByteArray(v@),
            NvData::Int8Array(v) => DataView::Int8Array(v@),
            NvData::Uint8Array(v) => DataView::Uint8Array(v@),
            NvData::Int16Array(v) => DataView::Int16Array(v@),
            NvData::Uint16Array(v) => DataView::Uint16Array(v@),
            NvData::Int32Array(v) => DataView::Int32Array(v@),
            NvData::Uint32Array(v) => DataView::Uint32Array(v@),
            NvData::Int64Array(v) => DataView::Int64Array(v@),
            NvData::Uint64Array(v) => DataView::Uint64Array(v@),
            NvData::NvListArray(v) => DataView::NvListArray(
                Seq::new(
                    v@.len(),
                    |i: int|
                        if 0 <= i < v@.len() {
                            v@[i].view()
                        } else {
                            arbitrary()
                        },
                ),
            ),
        }
    }
}

impl View for NvPair {
    type V = PairView;

    closed spec fn view(&self) -> PairView {
        PairView { name: self.name@, data: self.data@ }
    }
}

impl View for NvList {
    type V = ListView;

    closed spec fn view(&self) -> ListView
        decreases self,
    {
        ListView {
            unique: self.unique,
            pairs: Seq::new(
                self.pairs@.len(),
                |i: int|
                    if 0 <= i < self.pairs@.len() {
                        PairView { name: self.pairs@[i].name@, data: self.pairs@[i].data.view() }
                    } else {
                        arbitrary()
                    },
            ),
        }
    }
}

impl ListView {
    /// Whether some entry has this name.
    pub open spec fn has_name(self, name: Seq<char>) -> bool {
        exists|i: int| 0 <= i < self.pairs.len() && self.pairs[i].name == name
    }

    /// The index of the first entry from `from` on that has this name.
    pub open spec fn position_from(self, name: Seq<char>, from: int) -> Option<int>
        decreases self.pairs.len() - from,
    {
        if from < 0 || from >= self.pairs.len() {
            None
        } else if self.pairs[from].name == name {
            Some(from)
        } else {
            self.position_from(name, from + 1)
        }
    }

    /// The index of the first entry that has this name.
    pub open spec fn position(self, name: Seq<char>) -> Option<int> {
        self.position_from(name, 0)
    }

    /// The index of the first entry from `from` on that has this name and this tag.
    pub open spec fn typed_position_from(self, name: Seq<char>, tag: NvType, from: int) -> Option<
        int,
    >
        decreases self.pairs.len() - from,
    {
        if from < 0 || from >= self.pairs.len() {
            None
        } else if self.pairs[from].name == name && self.pairs[from].data.tag() == tag {
            Some(from)
        } else {
            self.typed_position_from(name, tag, from + 1)
        }
    }

    /// The index of the first entry that has this name and this tag.
    pub open spec fn typed_position(self, name: Seq<char>, tag: NvType) -> Option<int> {
        self.typed_position_from(name, tag, 0)
    }

    /// No two entries have the same name.
    pub open spec fn names_distinct(self) -> bool {
        forall|i: int, j: int|
            0 <= i < j < self.pairs.len() ==> self.pairs[i].name != self.pairs[j].name
    }

    /// What inserting an entry gives: the list with the entry behind all others,
    /// or the reason why the entry is refused.
    pub open spec fn inserted(
        self,
        name: Seq<char>,
        data: DataView,
    ) -> Result<ListView, ErrorView> {
        if has_nul(name) || (data matches DataView::Str(s) && has_nul(s)) {
            Err(ErrorView::TextEncodingError)
        } else if self.unique && self.has_name(name) {
            Err(ErrorView::DuplicateName(name))
        } else {
            Ok(ListView { unique: self.unique, pairs: self.pairs.push(PairView { name, data }) })
        }
    }
}

/// How a list and the result of an insertion stand to the list before it.
pub open spec fn insert_outcome(
    before: ListView,
    name: Seq<char>,
    data: DataView,
    after: ListView,
    r: Result<(), Error>,
) -> bool {
    match before.inserted(name, data) {
        Ok(l) => r is Ok && after == l,
        Err(e) => r matches Err(x) && x@ == e && after == before,
    }
}

impl NvPair {
    pub fn name(&self) -> (r: &str)
        ensures
            r@ == self@.name,
    {
        self.name.as_str()
    }

    pub fn data(&self) -> (r: &NvData)
        ensures
            r@ == self@.data,
    {
        &self.data
    }

    pub fn tuple(&self) -> (r: (&str, &NvData))
        ensures
            r.0@ == self@.name,
            r.1@ == self@.data,
    {
        (self.name.as_str(), &self.data)
    }
}

impl Clone for NvData {
    #[verifier::loop_isolation(false)]
    fn clone(&self) -> (r: Self)
        ensures
            r@ == self@,
        decreases self,
    {
        match self {
            NvData::Unknown => NvData::Unknown,
            NvData::Bool => NvData::Bool,
            NvData::BoolV(v) => NvData::BoolV(*v),
            NvData::Byte(v) => NvData::Byte(*v),
            NvData::Int8(v) => NvData::Int8(*v),
            NvData::Uint8(v) => NvData::Uint8(*v),
            NvData::Int16(v) => NvData::Int16(*v),
            NvData::Uint16(v) => NvData::Uint16(*v),
            NvData::Int32(v) => NvData::Int32(*v),
            NvData::Uint32(v) => NvData::Uint32(*v),
            NvData::Int64(v) => NvData::Int64(*v),
            NvData::Uint64(v) => NvData::Uint64(*v),
            NvData::Str(s) => NvData::Str(s.clone()),
            NvData::NvList(l) => NvData::NvList(l.clone()),
            NvData::ByteArray(v) => {
                let c = v.clone();
                assert(c@ =~= v@);
                NvData::ByteArray(c)
            },
            NvData::Int8Array(v) => {
                let c = v.clone();
                assert(c@ =~= v@);
                NvData::Int8Array(c)
            },
            NvData::Uint8Array(v) => {
                let c = v.clone();
                assert(c@ =~= v@);
                NvData::Uint8Array(c)
            },
            NvData::Int16Array(v) => {
                let c = v.clone();
                assert(c@ =~= v@);
                NvData::Int16Array(c)
            },
            NvData::Uint16Array(v) => {
                let c = v.clone();
                assert(c@ =~= v@);
                NvData::Uint16Array(c)
            },
            NvData::Int32Array(v) => {
                let c = v.clone();
                assert(c@ =~= v@);
                NvData::Int32Array(c)
            },
            NvData::Uint32Array(v) => {
                let c = v.clone();
                assert(c@ =~= v@);
                NvData::Uint32Array(c)
            },
            NvData::Int64Array(v) => {
                let c = v.clone();
                assert(c@ =~= v@);
                NvData::Int64Array(c)
            },
            NvData::Uint64Array(v) => {
                let c = v.clone();
                assert(c@ =~= v@);
                NvData::Uint64Array(c)
            },
            NvData::NvListArray(v) => {
                let mut c: Vec<NvList> = Vec::new();
                let mut i: usize = 0;
                while i < v.len()
                    invariant
                        i <= v.len(),
                        c.len() == i,
                        forall|j: int| 0 <= j < i ==> c@[j]@ == v@[j]@,
                    decreases v.len() - i,
                {
                    c.push(v[i].clone());
                    i += 1;
                }
                let r = NvData::NvListArray(c);
                assert(r@ == self@) by {
                    assert(r@->NvListArray_0 =~= self@->NvListArray_0);
                }
                r
            },
        }
    }
}

impl Clone for NvPair {
    fn clone(&self) -> (r: Self)
        ensures
            r@ == self@,
        decreases self,
    {
        NvPair { name: self.name.clone(), data: self.data.clone() }
    }
}

impl Clone for NvList {
    #[verifier::loop_isolation(false)]
    fn clone(&self) -> (r: Self)
        ensures
            r@ == self@,
        decreases self,
    {
        proof {
            use_type_invariant(self);
        }
        let mut c: Vec<NvPair> = Vec::new();
        let mut i: usize = 0;
        while i < self.pairs.len()
            invariant
                i <= self.pairs.len(),
                c.len() == i,
                forall|j: int| 0 <= j < i ==> c@[j]@ == self.pairs@[j]@,
            decreases self.pairs.len() - i,
        {
            c.push(self.pairs[i].clone());
            i += 1;
        }
        let r = NvList { unique: self.unique, pairs: c };
        assert(r@.pairs =~= self@.pairs);
        r
    }
}

impl NvList {
    #[verifier::type_invariant]
    spec fn inv(&self) -> bool {
        self.unique ==> forall|i: int, j: int|
            0 <= i < j < self.pairs@.len() ==> self.pairs@[i].name@ != self.pairs@[j].name@
    }
}

impl ListView {
    /// What `position_from` finds is the first entry of the name at or behind
    /// `from`, and it finds none only where there is none.
    pub proof fn lemma_position_from(self, name: Seq<char>, from: int)
        requires
            0 <= from,
        ensures
            match self.position_from(name, from) {
                Some(i) => {
                    &&& from <= i < self.pairs.len()
                    &&& self.pairs[i].name == name
                    &&& forall|j: int| from <= j < i ==> self.pairs[j].name != name
                },
                None => forall|j: int| from <= j < self.pairs.len() ==> self.pairs[j].name != name,
            },
        decreases self.pairs.len() - from,
    {
        if from < self.pairs.len() && self.pairs[from].name != name {
            self.lemma_position_from(name, from + 1);
        }
    }

    /// What `typed_position_from` finds is the first entry of the name and the
    /// tag at or behind `from`, and it finds none only where there is none.
    pub proof fn lemma_typed_position_from(self, name: Seq<char>, tag: NvType, from: int)
        requires
            0 <= from,
        ensures
            match self.typed_position_from(name, tag, from) {
                Some(i) => {
                    &&& from <= i < self.pairs.len()
                    &&& self.pairs[i].name == name
                    &&& self.pairs[i].data.tag() == tag
                    &&& forall|j: int|
                        from <= j < i ==> !(self.pairs[j].name == name && self.pairs[j].data.tag()
                            == tag)
                },
                None => forall|j: int|
                    from <= j < self.pairs.len() ==> !(self.pairs[j].name == name
                        && self.pairs[j].data.tag() == tag),
            },
        decreases self.pairs.len() - from,
    {
        if from < self.pairs.len() && !(self.pairs[from].name == name && self.pairs[from].data.tag()
            == tag) {
            self.lemma_typed_position_from(name, tag, from + 1);
        }
    }

    /// A name has a position exactly when some entry has the name.
    pub proof fn lemma_position_has_name(self, name: Seq<char>)
        ensures
            self.position(name) is Some <==> self.has_name(name),
    {
        self.lemma_position_from(name, 0);
    }
}

impl NvData {
    pub fn tag(&self) -> (t: NvType)
        ensures
            t == self@.tag(),
    {
        match self {
            NvData::Unknown => NvType::Unknown,
            NvData::Bool => NvType::Bool,
            NvData::BoolV(_) => NvType::BoolV,
            NvData::Byte(_) => NvType::Byte,
            NvData::Int8(_) => NvType::Int8,
            NvData::Uint8(_) => NvType::Uint8,
            NvData::Int16(_) => NvType::Int16,
            NvData::Uint16(_) => NvType::Uint16,
            NvData::Int32(_) => NvType::Int32,
            NvData::Uint32(_) => NvType::Uint32,
            NvData::Int64(_) => NvType::Int64,
            NvData::Uint64(_) => NvType::Uint64,
            NvData::Str(_) => NvType::Str,
            NvData::NvList(_) => NvType::NvList,
            NvData::ByteArray(_) => NvType::ByteArray,
            NvData::Int8Array(_) => NvType::Int8Array,
            NvData::Uint8Array(_) => NvType::Uint8Array,
            NvData::Int16Array(_) => NvType::Int16Array,
            NvData::Uint16Array(_) => NvType::Uint16Array,
            NvData::Int32Array(_) => NvType::Int32Array,
            NvData::Uint32Array(_) => NvType::Uint32Array,
            NvData::Int64Array(_) => NvType::Int64Array,
            NvData::Uint64Array(_) => NvType::Uint64Array,
            NvData::NvListArray(_) => NvType::NvListArray,
        }
    }

    /// The text, where the value is text.
    pub fn as_str(&self) -> (r: Option<&str>)
        ensures
            match self@ {
                DataView::Str(s) => r matches Some(t) && t@ == s,
                _ => r is None,
            },
    {
        match self {
            NvData::Str(c) => Some(c.as_str()),
            _ => None,
        }
    }

    /// A copy of the text, where the value is text.
    pub fn as_string(&self) -> (r: Option<String>)
        ensures
            match self@ {
                DataView::Str(s) => r matches Some(t) && t@ == s,
                _ => r is None,
            },
    {
        match self {
            NvData::Str(c) => Some(c.clone()),
            _ => None,
        }
    }

    /// The list, where the value is a list.
    pub fn as_list(&self) -> (r: Option<&NvList>)
        ensures
            match self@ {
                DataView::NvList(l) => r matches Some(t) && t@ == l,
                _ => r is None,
            },
    {
        match self {
            NvData::NvList(c) => Some(c),
            _ => None,
        }
    }
}

/// The view of each list of a vector, in order.
pub open spec fn list_views(v: Seq<NvList>) -> Seq<ListView> {
    Seq::new(v.len(), |i: int| v[i]@)
}

impl NvData {
    /// The value that holds this list.
    pub fn from_list(list: NvList) -> (r: NvData)
        ensures
            r@ == DataView::NvList(list@),
    {
        NvData::NvList(list)
    }

    /// The value that holds these lists as an array.
    pub fn from_lists(lists: Vec<NvList>) -> (r: NvData)
        ensures
            r@ == DataView::NvListArray(list_views(lists@)),
    {
        let r = NvData::NvListArray(lists);
        assert(r@->NvListArray_0 =~= list_views(lists@));
        r
    }

    /// The lists of an array of lists.
    pub fn lists(&self) -> (r: Option<&Vec<NvList>>)
        ensures
            match self@ {
                DataView::NvListArray(ls) => r matches Some(v) && list_views(v@) == ls,
                _ => r is None,
            },
    {
        match self {
            NvData::NvListArray(v) => {
                assert(list_views(v@) =~= self@->NvListArray_0);
                Some(v)
            },
            _ => None,
        }
    }
}

impl NvList {
    proof fn lemma_entry(&self, i: int)
        requires
            0 <= i < self.pairs@.len(),
        ensures
            self@.pairs.len() == self.pairs@.len(),
            self@.pairs[i] == self.pairs@[i]@,
    {
    }

    /// An empty list in which a name may occur more than once.
    pub fn new() -> (r: Self)
        ensures
            r@ == (ListView { unique: false, pairs: Seq::empty() }),
    {
        let r = NvList { unique: false, pairs: Vec::new() };
        assert(r@.pairs =~= Seq::empty());
        r
    }

    /// An empty list in which each name occurs once at most.
    pub fn new_unique_names() -> (r: Self)
        ensures
            r@ == (ListView { unique: true, pairs: Seq::empty() }),
    {
        let r = NvList { unique: true, pairs: Vec::new() };
        assert(r@.pairs =~= Seq::empty());
        r
    }

    /// As `new`; kept for callers that expect a creation that can fail.
    pub fn try_new() -> (r: Result<Self, Error>)
        ensures
            r matches Ok(l) && l@ == (ListView { unique: false, pairs: Seq::empty() }),
    {
        Ok(NvList::new())
    }

    /// As `new_unique_names`; kept for callers that expect a creation that can fail.
    pub fn try_new_unique_names() -> (r: Result<Self, Error>)
        ensures
            r matches Ok(l) && l@ == (ListView { unique: true, pairs: Seq::empty() }),
    {
        Ok(NvList::new_unique_names())
    }

    /// A deep copy: the same entries in the same order, in storage of its own.
    pub fn try_clone(&self) -> (r: Result<Self, Error>)
        ensures
            r matches Ok(l) && l@ == self@,
    {
        Ok(self.clone())
    }

    /// A deep copy: the same entries in the same order, in storage of its own.
    pub fn try_to_owned(&self) -> (r: Result<NvList, Error>)
        ensures
            r matches Ok(l) && l@ == self@,
    {
        Ok(self.clone())
    }

    pub fn is_empty(&self) -> (b: bool)
        ensures
            b == (self@.pairs.len() == 0),
    {
        self.pairs.len() == 0
    }

    /// The number of entries.
    pub fn len(&self) -> (n: usize)
        ensures
            n == self@.pairs.len(),
    {
        self.pairs.len()
    }

    /// The entry at an index, counted from the first inserted.
    pub fn get(&self, i: usize) -> (p: &NvPair)
        requires
            i < self@.pairs.len(),
        ensures
            p@ == self@.pairs[i as int],
    {
        &self.pairs[i]
    }

    /// Whether each name may occur once only. Such a list never holds a name twice.
    pub fn unique_names(&self) -> (b: bool)
        ensures
            b == self@.unique,
            b ==> self@.names_distinct(),
    {
        proof {
            use_type_invariant(self);
        }
        self.unique
    }

    /// The first entry.
    pub fn first(&self) -> (r: Option<&NvPair>)
        ensures
            self@.pairs.len() == 0 ==> r is None,
            self@.pairs.len() > 0 ==> (r matches Some(p) && p@ == self@.pairs[0]),
    {
        if self.pairs.len() == 0 {
            None
        } else {
            Some(&self.pairs[0])
        }
    }

    fn find(&self, name: &str) -> (r: Option<usize>)
        ensures
            match r {
                Some(k) => k < self.pairs@.len() && self@.position(name@) == Some(k as int),
                None => self@.position(name@) is None,
            },
    {
        let key = name.to_owned();
        let mut i: usize = 0;
        while i < self.pairs.len()
            invariant
                i <= self.pairs.len(),
                key@ == name@,
                self@.position(name@) == self@.position_from(name@, i as int),
            decreases self.pairs.len() - i,
        {
            if self.pairs[i].name == key {
                return Some(i);
            }
            i += 1;
        }
        None
    }

    fn find_typed(&self, name: &str, tag: NvType) -> (r: Option<usize>)
        ensures
            match r {
                Some(k) => k < self.pairs@.len() && self@.typed_position(name@, tag) == Some(
                    k as int,
                ),
                None => self@.typed_position(name@, tag) is None,
            },
    {
        let key = name.to_owned();
        let mut i: usize = 0;
        while i < self.pairs.len()
            invariant
                i <= self.pairs.len(),
                key@ == name@,
                self@.typed_position(name@, tag) == self@.typed_position_from(name@, tag, i as int),
            decreases self.pairs.len() - i,
        {
            if self.pairs[i].name == key && self.pairs[i].data.tag() == tag {
                return Some(i);
            }
            i += 1;
        }
        None
    }

    /// Whether an entry of this name is in the list.
    pub fn contains(&self, name: &str) -> (b: bool)
        ensures
            b == self@.has_name(name@),
    {
        proof {
            self@.lemma_position_has_name(name@);
        }
        self.find(name).is_some()
    }

    /// The first entry of this name.
    pub fn lookup(&self, name: &str) -> (r: Result<&NvPair, Error>)
        ensures
            match self@.position(name@) {
                Some(i) => r matches Ok(p) && p@ == self@.pairs[i],
                None => r matches Err(e) && e@ == ErrorView::NotFound,
            },
    {
        match self.find(name) {
            Some(i) => {
                proof {
                    self.lemma_entry(i as int);
                }
                Ok(&self.pairs[i])
            },
            None => Err(Error::NotFound),
        }
    }

    /// Puts an entry behind all others. Text with a NUL character in it is
    /// refused, and so is, in a list with unique names, a name that the list
    /// holds already. A refused insertion leaves the list as it was.
    pub fn insert_data(&mut self, name: &str, data: NvData) -> (r: Result<(), Error>)
        ensures
            insert_outcome(old(self)@, name@, data@, final(self)@, r),
    {
        proof {
            use_type_invariant(&*self);
        }
        if contains_nul(name) {
            return Err(Error::TextEncodingError);
        }
        let bad_text = match &data {
            NvData::Str(s) => contains_nul(s.as_str()),
            _ => false,
        };
        if bad_text {
            return Err(Error::TextEncodingError);
        }
        if self.unique && self.contains(name) {
            return Err(Error::DuplicateName(name.to_owned()));
        }
        let ghost before = self@;
        let ghost old_pairs = self.pairs@;
        let unique = self.unique;
        let mut taken = NvList { unique, pairs: Vec::new() };
        core::mem::swap(self, &mut taken);
        let mut pairs = taken.pairs;
        pairs.push(NvPair { name: name.to_owned(), data });
        proof {
            if unique {
                assert forall|i: int, j: int| 0 <= i < j < pairs@.len() implies pairs@[i].name@
                    != pairs@[j].name@ by {
                    if j == old_pairs.len() {
                        assert(before.pairs[i].name == old_pairs[i].name@);
                        assert(!before.has_name(name@));
                    }
                }
            }
        }
        *self = NvList { unique, pairs };
        proof {
            assert(self@.pairs =~= before.pairs.push(PairView { name: name@, data: data@ }));
        }
        Ok(())
    }

    /// Puts a valueless entry, whose presence is the datum, behind all others.
    pub fn add_boolean(&mut self, name: &str) -> (r: Result<(), Error>)
        ensures
            insert_outcome(old(self)@, name@, DataView::Bool, final(self)@, r),
    {
        self.insert_data(name, NvData::Bool)
    }

    /// A copy of the first list that is stored under this name.
    pub fn lookup_nvlist(&self, name: &str) -> (r: Result<NvList, Error>)
        ensures
            match self@.typed_position(name@, NvType::NvList) {
                Some(i) => r matches Ok(l) && DataView::NvList(l@) == self@.pairs[i].data,
                None => r matches Err(e) && e@ == ErrorView::NotFound,
            },
    {
        proof {
            self@.lemma_typed_position_from(name@, NvType::NvList, 0);
            match self@.typed_position(name@, NvType::NvList) {
                Some(i) => self.lemma_entry(i),
                None => {},
            }
        }
        match self.find_typed(name, NvType::NvList) {
            Some(i) => match &self.pairs[i].data {
                NvData::NvList(l) => Ok(l.clone()),
                _ => Err(Error::NotFound),
            },
            None => Err(Error::NotFound),
        }
    }

    /// A copy of the first text that is stored under this name.
    pub fn lookup_string(&self, name: &str) -> (r: Result<String, Error>)
        ensures
            match self@.typed_position(name@, NvType::Str) {
                Some(i) => r matches Ok(s) && DataView::Str(s@) == self@.pairs[i].data,
                None => r matches Err(e) && e@ == ErrorView::NotFound,
            },
    {
        proof {
            self@.lemma_typed_position_from(name@, NvType::Str, 0);
            match self@.typed_position(name@, NvType::Str) {
                Some(i) => self.lemma_entry(i),
                None => {},
            }
        }
        match self.find_typed(name, NvType::Str) {
            Some(i) => match &self.pairs[i].data {
                NvData::Str(s) => Ok(s.clone()),
                _ => Err(Error::NotFound),
            },
            None => Err(Error::NotFound),
        }
    }

    /// The first unsigned 64-bit number that is stored under this name.
    pub fn lookup_uint64(&self, name: &str) -> (r: Result<u64, Error>)
        ensures
            match self@.typed_position(name@, NvType::Uint64) {
                Some(i) => r matches Ok(v) && DataView::Uint64(v) == self@.pairs[i].data,
                None => r matches Err(e) && e@ == ErrorView::NotFound,
            },
    {
        proof {
            self@.lemma_typed_position_from(name@, NvType::Uint64, 0);
            match self@.typed_position(name@, NvType::Uint64) {
                Some(i) => self.lemma_entry(i),
                None => {},
            }
        }
        match self.find_typed(name, NvType::Uint64) {
            Some(i) => match &self.pairs[i].data {
                NvData::Uint64(v) => Ok(*v),
                _ => Err(Error::NotFound),
            },
            None => Err(Error::NotFound),
        }
    }

    /// Copies of the lists of the first array of lists that is stored under this name.
    pub fn lookup_nvlist_array(&self, name: &str) -> (r: Result<Vec<NvList>, Error>)
        ensures
            match self@.typed_position(name@, NvType::NvListArray) {
                Some(i) => r matches Ok(v) && DataView::NvListArray(list_views(v@))
                    == self@.pairs[i].data,
                None => r matches Err(e) && e@ == ErrorView::NotFound,
            },
    {
        proof {
            self@.lemma_typed_position_from(name@, NvType::NvListArray, 0);
            match self@.typed_position(name@, NvType::NvListArray) {
                Some(i) => self.lemma_entry(i),
                None => {},
            }
        }
        match self.find_typed(name, NvType::NvListArray) {
            Some(i) => {
                let c = self.pairs[i].data.clone();
                match c {
                    NvData::NvListArray(v) => {
                        assert(list_views(v@) =~= c@->NvListArray_0);
                        Ok(v)
                    },
                    _ => Err(Error::NotFound),
                }
            },
            None => Err(Error::NotFound),
        }
    }

    /// A copy of the first array of unsigned 64-bit numbers that is stored under this name.
    pub fn lookup_uint64_array(&self, name: &str) -> (r: Result<Vec<u64>, Error>)
        ensures
            match self@.typed_position(name@, NvType::Uint64Array) {
                Some(i) => r matches Ok(v) && DataView::Uint64Array(v@) == self@.pairs[i].data,
                None => r matches Err(e) && e@ == ErrorView::NotFound,
            },
    {
        proof {
            self@.lemma_typed_position_from(name@, NvType::Uint64Array, 0);
            match self@.typed_position(name@, NvType::Uint64Array) {
                Some(i) => self.lemma_entry(i),
                None => {},
            }
        }
        match self.find_typed(name, NvType::Uint64Array) {
            Some(i) => match &self.pairs[i].data {
                NvData::Uint64Array(v) => {
                    let c = v.clone();
                    assert(c@ =~= v@);
                    Ok(c)
                },
                _ => Err(Error::NotFound),
            },
            None => Err(Error::NotFound),
        }
    }
}

impl Default for NvList {
    fn default() -> (r: Self)
        ensures
            r@ == (ListView { unique: false, pairs: Seq::empty() }),
    {
        NvList::new()
    }
}

/// A cursor over the entries of a list, from the first inserted to the last.
#[derive(Debug)]
pub struct NvListIter<'a> {
    parent: &'a NvList,
    pos: usize,
}

impl<'a> NvListIter<'a> {
    #[verifier::type_invariant]
    spec fn inv(&self) -> bool {
        self.pos <= self.parent.pairs@.len()
    }

    /// A second cursor at the same place.
    pub fn clone(&self) -> (r: Self)
        ensures
            r.list() == self.list(),
            r.position() == self.position(),
    {
        proof {
            use_type_invariant(self);
        }
        NvListIter { parent: self.parent, pos: self.pos }
    }

    /// The list that the cursor walks.
    pub closed spec fn list(&self) -> ListView {
        self.parent@
    }

    /// How many entries the cursor has handed out.
    pub closed spec fn position(&self) -> nat {
        self.pos as nat
    }

    /// The next entry in the order of insertion, or `None` behind the last.
    pub fn next(&mut self) -> (r: Option<&'a NvPair>)
        ensures
            final(self).list() == old(self).list(),
            old(self).position() <= old(self).list().pairs.len(),
            old(self).position() < old(self).list().pairs.len() ==> {
                &&& r matches Some(p)
                &&& p@ == old(self).list().pairs[old(self).position() as int]
                &&& final(self).position() == old(self).position() + 1
            },
            old(self).position() >= old(self).list().pairs.len() ==> {
                &&& r is None
                &&& final(self).position() == old(self).position()
            },
    {
        proof {
            use_type_invariant(&*self);
        }
        if self.pos < self.parent.pairs.len() {
            let p = &self.parent.pairs[self.pos];
            self.pos = self.pos + 1;
            Some(p)
        } else {
            None
        }
    }
}

impl NvListRef {
    /// A cursor at the first entry. Entries come in the order of insertion.
    pub fn iter(&self) -> (it: NvListIter<'_>)
        ensures
            it.list() == self@,
            it.position() == 0,
    {
        NvListIter { parent: self, pos: 0 }
    }
}

impl ListView {
    /// What inserting the first `n` of these entries, one after another, gives.
    pub open spec fn inserted_all(self, entries: Seq<PairView>, n: nat) -> Result<
        ListView,
        ErrorView,
    >
        decreases n,
    {
        if n == 0 || n > entries.len() {
            Ok(self)
        } else {
            match self.inserted_all(entries, (n - 1) as nat) {
                Err(e) => Err(e),
                Ok(l) => l.inserted(entries[n - 1].name, entries[n - 1].data),
            }
        }
    }

    /// Entries that were inserted one after another stand behind the entries
    /// that the list had, in the order of their insertion, and the entries
    /// that the list had stay as they were.
    pub proof fn lemma_insertion_order(self, entries: Seq<PairView>, n: nat)
        requires
            n <= entries.len(),
            self.inserted_all(entries, n) is Ok,
        ensures
            self.inserted_all(entries, n)->Ok_0 == (ListView {
                unique: self.unique,
                pairs: self.pairs + entries.take(n as int),
            }),
        decreases n,
    {
        if n == 0 {
            assert(self.pairs + entries.take(0) =~= self.pairs);
        } else {
            self.lemma_insertion_order(entries, (n - 1) as nat);
            assert(self.pairs + entries.take(n as int) =~= (self.pairs + entries.take(n - 1)).push(
                entries[n - 1],
            ));
        }
    }

    /// After an entry was inserted, a second entry of the same name is
    /// refused by a list with unique names, which stays as it was; any other
    /// list takes it, and then holds both, the first before the second.
    pub proof fn lemma_second_insert(
        self,
        name: Seq<char>,
        first: DataView,
        second: DataView,
    )
        requires
            self.inserted(name, first) is Ok,
            !(second matches DataView::Str(t) && has_nul(t)),
        ensures
            self.unique ==> self.inserted(name, first)->Ok_0.inserted(name, second) == Err::<
                ListView,
                ErrorView,
            >(ErrorView::DuplicateName(name)),
            !self.unique ==> self.inserted(name, first)->Ok_0.inserted(name, second) == Ok::<
                ListView,
                ErrorView,
            >(
                ListView {
                    unique: false,
                    pairs: self.pairs.push(PairView { name, data: first }).push(
                        PairView { name, data: second },
                    ),
                },
            ),
    {
        let l = self.inserted(name, first)->Ok_0;
        assert(l.pairs[self.pairs.len() as int].name == name);
        assert(l.has_name(name));
    }
}

} // verus!
