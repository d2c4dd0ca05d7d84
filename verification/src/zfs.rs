use vstd::prelude::*;
use crate::data::{DataView, ListView, NvData, NvList, NvListRef, PairView};

verus! {

/// The kind of dataset to create.
#[derive(Debug, Clone, Copy, PartialEq, Eq, Structural)]
pub enum DataSetType {
    Zfs,
    Zvol,
}

impl DataSetType {
    /// The number by which the storage subsystem names this kind.
    pub open spec fn raw(self) -> int {
        match self {
            DataSetType::Zfs => 2,
            DataSetType::Zvol => 3,
        }
    }

    pub fn as_raw(&self) -> (r: u32)
        ensures
            r == self.raw(),
    {
        match self {
            DataSetType::Zfs => 2,
            DataSetType::Zvol => 3,
        }
    }
}

/// What to do about the initializing of a pool's devices.
#[derive(Debug, Clone, Copy, PartialEq, Eq, Structural)]
pub enum PoolInitializeFunc {
    Start,
    Cancel,
    Suspend,
}

impl PoolInitializeFunc {
    /// The number by which the storage subsystem names this command.
    pub open spec fn raw(self) -> int {
        match self {
            PoolInitializeFunc::Start => 0,
            PoolInitializeFunc::Cancel => 1,
            PoolInitializeFunc::Suspend => 2,
        }
    }

    pub fn as_raw(&self) -> (r: u32)
        ensures
            r == self.raw(),
    {
        match self {
            PoolInitializeFunc::Start => 0,
            PoolInitializeFunc::Cancel => 1,
            PoolInitializeFunc::Suspend => 2,
        }
    }
}

/// What to do about the trimming of a pool's devices.
#[derive(Debug, Clone, Copy, PartialEq, Eq, Structural)]
pub enum PoolTrimFunc {
    Start,
    Cancel,
    Suspend,
}

impl PoolTrimFunc {
    /// The number by which the storage subsystem names this command.
    pub open spec fn raw(self) -> int {
        match self {
            PoolTrimFunc::Start => 0,
            PoolTrimFunc::Cancel => 1,
            PoolTrimFunc::Suspend => 2,
        }
    }

    pub fn as_raw(&self) -> (r: u32)
        ensures
            r == self.raw(),
    {
        match self {
            PoolTrimFunc::Start => 0,
            PoolTrimFunc::Cancel => 1,
            PoolTrimFunc::Suspend => 2,
        }
    }
}

/// An activity of a pool that one can wait for.
#[derive(Debug, Clone, Copy, PartialEq, Eq, Structural)]
pub enum WaitActivity {
    Discard,
    Free,
    Initialize,
    Replace,
    Remove,
    Resliver,
    Scrub,
    Trim,
}

impl WaitActivity {
    /// The number by which the storage subsystem names this activity of a pool.
    pub open spec fn raw(self) -> int {
        match self {
            WaitActivity::Discard => 0,
            WaitActivity::Free => 1,
            WaitActivity::Initialize => 2,
            WaitActivity::Replace => 3,
            WaitActivity::Remove => 4,
            WaitActivity::Resliver => 5,
            WaitActivity::Scrub => 6,
            WaitActivity::Trim => 7,
        }
    }

    pub fn as_raw(&self) -> (r: u32)
        ensures
            r == self.raw(),
    {
        match self {
            WaitActivity::Discard => 0,
            WaitActivity::Free => 1,
            WaitActivity::Initialize => 2,
            WaitActivity::Replace => 3,
            WaitActivity::Remove => 4,
            WaitActivity::Resliver => 5,
            WaitActivity::Scrub => 6,
            WaitActivity::Trim => 7,
        }
    }
}

/// The kinds of dataset that a listing can be asked for.
#[derive(Debug, Clone, Copy, PartialEq, Eq, Structural)]
pub enum ListTypes {
    Filesystem,
    Snapshot,
    Volume,
    Bookmark,
    All,
}

/// Whether the destroying of a snapshot that is in use is put off until it
/// is in use no more.
#[derive(Debug, Clone, Copy, PartialEq, Eq, Structural)]
pub enum Defer {
    No,
    Yes,
}

impl Defer {
    pub open spec fn is_yes(self) -> bool {
        self is Yes
    }

    /// `true` for `Yes`.
    pub fn as_bool(self) -> (b: bool)
        ensures
            b == self.is_yes(),
    {
        match self {
            Defer::No => false,
            Defer::Yes => true,
        }
    }
}

impl From<Defer> for bool {
    fn from(d: Defer) -> (b: bool) {
        d.as_bool()
    }
}

impl vstd::std_specs::convert::FromSpecImpl<Defer> for bool {
    open spec fn obeys_from_spec() -> bool {
        true
    }

    open spec fn from_spec(d: Defer) -> bool {
        d.is_yes()
    }
}

impl Default for Defer {
    fn default() -> (d: Self)
        ensures
            d == Defer::No,
    {
        Defer::No
    }
}

/// Options of a send stream.
#[derive(Debug, Clone, Copy, PartialEq, Eq, Structural)]
pub struct SendFlags {
    pub embed_data: bool,
    pub large_block: bool,
    pub compress: bool,
    pub raw: bool,
}

pub const SEND_FLAG_EMBED_DATA: u32 = 1;

pub const SEND_FLAG_LARGE_BLOCK: u32 = 2;

pub const SEND_FLAG_COMPRESS: u32 = 4;

pub const SEND_FLAG_RAW: u32 = 8;

impl SendFlags {
    /// The options as one number: for each option that is set its bit, 1 for
    /// embedded data, 2 for large blocks, 4 for compression and 8 for a raw
    /// stream, so that the number is the sum of the bits that are set.
    pub open spec fn spec_bits(self) -> u32 {
        ((if self.embed_data {
            1int
        } else {
            0int
        }) + (if self.large_block {
            2int
        } else {
            0int
        }) + (if self.compress {
            4int
        } else {
            0int
        }) + (if self.raw {
            8int
        } else {
            0int
        })) as u32
    }

    pub fn bits(self) -> (f: u32)
        ensures
            f == self.spec_bits(),
    {
        let mut f: u32 = 0;
        f = with_flag(f, self.embed_data, SEND_FLAG_EMBED_DATA);
        f = with_flag(f, self.large_block, SEND_FLAG_LARGE_BLOCK);
        f = with_flag(f, self.compress, SEND_FLAG_COMPRESS);
        f = with_flag(f, self.raw, SEND_FLAG_RAW);
        f
    }
}

/// Sets a bit above the bits that are set, where the option is on.
fn with_flag(f: u32, on: bool, bit: u32) -> (r: u32)
    requires
        bit == 1 || bit == 2 || bit == 4 || bit == 8,
        f < bit,
    ensures
        r == f + (if on {
            bit as int
        } else {
            0
        }),
{
    if on {
        assert(f | bit == f + bit) by (bit_vector)
            requires
                bit == 1 || bit == 2 || bit == 4 || bit == 8,
                f < bit,
        ;
        f | bit
    } else {
        f
    }
}

impl From<SendFlags> for u32 {
    fn from(sf: SendFlags) -> (f: u32) {
        sf.bits()
    }
}

impl vstd::std_specs::convert::FromSpecImpl<SendFlags> for u32 {
    open spec fn obeys_from_spec() -> bool {
        true
    }

    open spec fn from_spec(sf: SendFlags) -> u32 {
        sf.spec_bits()
    }
}

impl Default for SendFlags {
    fn default() -> (f: Self)
        ensures
            f == (SendFlags { embed_data: false, large_block: false, compress: false, raw: false }),
    {
        SendFlags { embed_data: false, large_block: false, compress: false, raw: false }
    }
}

/// Whether every entry of the list holds a value of the one tag that `pick`
/// accepts.
pub open spec fn all_entries(l: ListView, pick: spec_fn(DataView) -> bool) -> bool {
    forall|i: int| 0 <= i < l.pairs.len() ==> pick(#[trigger] l.pairs[i].data)
}

/// The errors of a call that worked on several things: for each thing that
/// failed, its name and the error code.
#[derive(Debug)]
pub struct ErrorList {
    nv: NvList,
}

impl View for ErrorList {
    type V = ListView;

    closed spec fn view(&self) -> ListView {
        self.nv@
    }
}

impl ErrorList {
    /// Whether every entry holds an error code, that is a signed 32-bit number.
    pub open spec fn holds_codes(l: ListView) -> bool {
        all_entries(l, |d: DataView| d is Int32)
    }

    /// Takes a list as a list of errors.
    pub fn from(nv: NvList) -> (r: Self)
        ensures
            r@ == nv@,
    {
        ErrorList { nv }
    }

    pub fn as_ref(&self) -> (r: &NvList)
        ensures
            r@ == self@,
    {
        &self.nv
    }

    /// Whether every entry holds an error code, so that the entries can be walked.
    pub fn is_well_formed(&self) -> (b: bool)
        ensures
            b == Self::holds_codes(self@),
    {
        let mut i: usize = 0;
        while i < self.nv.len()
            invariant
                i <= self.nv@.pairs.len(),
                forall|j: int| 0 <= j < i ==> (#[trigger] self.nv@.pairs[j]).data is Int32,
            decreases self.nv@.pairs.len() - i,
        {
            match self.nv.get(i).data() {
                NvData::Int32(_) => {},
                _ => {
                    assert(!(self.nv@.pairs[i as int].data is Int32));
                    return false;
                },
            }
            i += 1;
        }
        true
    }

    /// A cursor at the first error.
    pub fn iter(&self) -> (it: ErrorListIter<'_>)
        requires
            Self::holds_codes(self@),
        ensures
            it.list() == self@,
            it.position() == 0,
    {
        ErrorListIter { list: &self.nv, pos: 0 }
    }
}

/// A cursor over the errors of an `ErrorList`.
#[derive(Debug)]
pub struct ErrorListIter<'a> {
    list: &'a NvListRef,
    pos: usize,
}

impl<'a> ErrorListIter<'a> {
    #[verifier::type_invariant]
    spec fn inv(&self) -> bool {
        &&& self.pos <= self.list@.pairs.len()
        &&& ErrorList::holds_codes(self.list@)
    }

    /// The list that the cursor walks.
    pub closed spec fn list(&self) -> ListView {
        self.list@
    }

    /// How many errors the cursor has handed out.
    pub closed spec fn position(&self) -> nat {
        self.pos as nat
    }

    /// The name and the error code of the next entry, or `None` behind the last.
    pub fn next(&mut self) -> (r: Option<(&'a str, i32)>)
        ensures
            final(self).list() == old(self).list(),
            old(self).position() <= old(self).list().pairs.len(),
            old(self).position() < old(self).list().pairs.len() ==> {
                &&& r matches Some(e)
                &&& e.0@ == old(self).list().pairs[old(self).position() as int].name
                &&& DataView::Int32(e.1) == old(self).list().pairs[old(self).position() as int].data
                &&& final(self).position() == old(self).position() + 1
            },
            old(self).position() >= old(self).list().pairs.len() ==> {
                &&& r is None
                &&& final(self).position() == old(self).position()
            },
    {
        proof {
            use_type_invariant(&*self);
        }
        if self.pos < self.list.len() {
            let p = self.list.get(self.pos);
            assert(self.list@.pairs[self.pos as int].data is Int32);
            match p.data() {
                NvData::Int32(v) => {
                    self.pos = self.pos + 1;
                    Some((p.name(), *v))
                },
                _ => None,
            }
        } else {
            None
        }
    }
}

/// The holds on a snapshot: for each hold its name and, in seconds since the
/// start of 1970, the time at which it was made.
#[derive(Debug)]
pub struct HoldList {
    nv: NvList,
}

impl View for HoldList {
    type V = ListView;

    closed spec fn view(&self) -> ListView {
        self.nv@
    }
}

impl HoldList {
    /// Whether every entry holds a time, that is an unsigned 64-bit number.
    pub open spec fn holds_times(l: ListView) -> bool {
        all_entries(l, |d: DataView| d is Uint64)
    }

    /// Takes a list as a list of holds.
    pub fn new(nv: NvList) -> (r: Self)
        ensures
            r@ == nv@,
    {
        HoldList { nv }
    }

    pub fn as_ref(&self) -> (r: &NvListRef)
        ensures
            r@ == self@,
    {
        &self.nv
    }

    /// Gives the list back.
    pub fn into_nvlist(self) -> (r: NvList)
        ensures
            r@ == self@,
    {
        self.nv
    }

    /// Whether every entry holds a time, so that the entries can be walked.
    pub fn is_well_formed(&self) -> (b: bool)
        ensures
            b == Self::holds_times(self@),
    {
        let mut i: usize = 0;
        while i < self.nv.len()
            invariant
                i <= self.nv@.pairs.len(),
                forall|j: int| 0 <= j < i ==> (#[trigger] self.nv@.pairs[j]).data is Uint64,
            decreases self.nv@.pairs.len() - i,
        {
            match self.nv.get(i).data() {
                NvData::Uint64(_) => {},
                _ => {
                    assert(!(self.nv@.pairs[i as int].data is Uint64));
                    return false;
                },
            }
            i += 1;
        }
        true
    }

    /// A cursor at the first hold.
    pub fn iter(&self) -> (it: HoldListIter<'_>)
        requires
            Self::holds_times(self@),
        ensures
            it.list() == self@,
            it.position() == 0,
    {
        HoldListIter { list: &self.nv, pos: 0 }
    }
}

/// A cursor over the holds of a `HoldList`.
#[derive(Debug)]
pub struct HoldListIter<'a> {
    list: &'a NvListRef,
    pos: usize,
}

impl<'a> HoldListIter<'a> {
    #[verifier::type_invariant]
    spec fn inv(&self) -> bool {
        &&& self.pos <= self.list@.pairs.len()
        &&& HoldList::holds_times(self.list@)
    }

    /// The list that the cursor walks.
    pub closed spec fn list(&self) -> ListView {
        self.list@
    }

    /// How many holds the cursor has handed out.
    pub closed spec fn position(&self) -> nat {
        self.pos as nat
    }

    /// The name and the time of the next hold, or `None` behind the last.
    pub fn next(&mut self) -> (r: Option<(&'a str, u64)>)
        ensures
            final(self).list() == old(self).list(),
            old(self).position() <= old(self).list().pairs.len(),
            old(self).position() < old(self).list().pairs.len() ==> {
                &&& r matches Some(e)
                &&& e.0@ == old(self).list().pairs[old(self).position() as int].name
                &&& DataView::Uint64(e.1) == old(self).list().pairs[old(
                    self,
                ).position() as int].data
                &&& final(self).position() == old(self).position() + 1
            },
            old(self).position() >= old(self).list().pairs.len() ==> {
                &&& r is None
                &&& final(self).position() == old(self).position()
            },
    {
        proof {
            use_type_invariant(&*self);
        }
        if self.pos < self.list.len() {
            let p = self.list.get(self.pos);
            assert(self.list@.pairs[self.pos as int].data is Uint64);
            match p.data() {
                NvData::Uint64(v) => {
                    self.pos = self.pos + 1;
                    Some((p.name(), *v))
                },
                _ => None,
            }
        } else {
            None
        }
    }
}

} // verus!
