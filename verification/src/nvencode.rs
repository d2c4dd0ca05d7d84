use vstd::prelude::*;
use vstd::slice::slice_to_vec;
use crate::data::{insert_outcome, DataView, NvData, NvList, NvListRef};
use crate::error::Error;

verus! {

/// A value that can be put into a list under a name.
pub trait NvEncode {
    /// The tagged value that stands for `self` in a list.
    spec fn encoded(&self) -> DataView;

    /// Puts `self` behind the entries of `nv`, under `name`. Text with a NUL
    /// character in it is refused, and so is, in a list with unique names, a
    /// name that the list holds already.
    fn insert_into(&self, name: &str, nv: &mut NvListRef) -> (r: Result<(), Error>)
        ensures
            insert_outcome(old(nv)@, name@, self.encoded(), final(nv)@, r),
    ;
}

impl NvEncode for bool {
    open spec fn encoded(&self) -> DataView {
        DataView::BoolV(*self)
    }

    fn insert_into(&self, name: &str, nv: &mut NvListRef) -> (r: Result<(), Error>) {
        nv.insert_data(name, NvData::BoolV(*self))
    }
}

impl NvEncode for i8 {
    open spec fn encoded(&self) -> DataView {
        DataView::Int8(*self)
    }

    fn insert_into(&self, name: &str, nv: &mut NvListRef) -> (r: Result<(), Error>) {
        nv.insert_data(name, NvData::Int8(*self))
    }
}

impl NvEncode for u8 {
    open spec fn encoded(&self) -> DataView {
        DataView::Uint8(*self)
    }

    fn insert_into(&self, name: &str, nv: &mut NvListRef) -> (r: Result<(), Error>) {
        nv.insert_data(name, NvData::Uint8(*self))
    }
}

impl NvEncode for i16 {
    open spec fn encoded(&self) -> DataView {
        DataView::Int16(*self)
    }

    fn insert_into(&self, name: &str, nv: &mut NvListRef) -> (r: Result<(), Error>) {
        nv.insert_data(name, NvData::Int16(*self))
    }
}

impl NvEncode for u16 {
    open spec fn encoded(&self) -> DataView {
        DataView::Uint16(*self)
    }

    fn insert_into(&self, name: &str, nv: &mut NvListRef) -> (r: Result<(), Error>) {
        nv.insert_data(name, NvData::Uint16(*self))
    }
}

impl NvEncode for i32 {
    open spec fn encoded(&self) -> DataView {
        DataView::Int32(*self)
    }

    fn insert_into(&self, name: &str, nv: &mut NvListRef) -> (r: Result<(), Error>) {
        nv.insert_data(name, NvData::Int32(*self))
    }
}

impl NvEncode for u32 {
    open spec fn encoded(&self) -> DataView {
        DataView::Uint32(*self)
    }

    fn insert_into(&self, name: &str, nv: &mut NvListRef) -> (r: Result<(), Error>) {
        nv.insert_data(name, NvData::Uint32(*self))
    }
}

impl NvEncode for i64 {
    open spec fn encoded(&self) -> DataView {
        DataView::Int64(*self)
    }

    fn insert_into(&self, name: &str, nv: &mut NvListRef) -> (r: Result<(), Error>) {
        nv.insert_data(name, NvData::Int64(*self))
    }
}

impl NvEncode for u64 {
    open spec fn encoded(&self) -> DataView {
        DataView::Uint64(*self)
    }

    fn insert_into(&self, name: &str, nv: &mut NvListRef) -> (r: Result<(), Error>) {
        nv.insert_data(name, NvData::Uint64(*self))
    }
}

impl NvEncode for [i8] {
    open spec fn encoded(&self) -> DataView {
        DataView::Int8Array(self@)
    }

    fn insert_into(&self, name: &str, nv: &mut NvListRef) -> (r: Result<(), Error>) {
        nv.insert_data(name, NvData::Int8Array(slice_to_vec(self)))
    }
}

impl NvEncode for [u8] {
    open spec fn encoded(&self) -> DataView {
        DataView::Uint8Array(self@)
    }

    fn insert_into(&self, name: &str, nv: &mut NvListRef) -> (r: Result<(), Error>) {
        nv.insert_data(name, NvData::Uint8Array(slice_to_vec(self)))
    }
}

impl NvEncode for [i16] {
    open spec fn encoded(&self) -> DataView {
        DataView::Int16Array(self@)
    }

    fn insert_into(&self, name: &str, nv: &mut NvListRef) -> (r: Result<(), Error>) {
        nv.insert_data(name, NvData::Int16Array(slice_to_vec(self)))
    }
}

impl NvEncode for [u16] {
    open spec fn encoded(&self) -> DataView {
        DataView::Uint16Array(self@)
    }

    fn insert_into(&self, name: &str, nv: &mut NvListRef) -> (r: Result<(), Error>) {
        nv.insert_data(name, NvData::Uint16Array(slice_to_vec(self)))
    }
}

impl NvEncode for [i32] {
    open spec fn encoded(&self) -> DataView {
        DataView::Int32Array(self@)
    }

    fn insert_into(&self, name: &str, nv: &mut NvListRef) -> (r: Result<(), Error>) {
        nv.insert_data(name, NvData::Int32Array(slice_to_vec(self)))
    }
}

impl NvEncode for [u32] {
    open spec fn encoded(&self) -> DataView {
        DataView::Uint32Array(self@)
    }

    fn insert_into(&self, name: &str, nv: &mut NvListRef) -> (r: Result<(), Error>) {
        nv.insert_data(name, NvData::Uint32Array(slice_to_vec(self)))
    }
}

impl NvEncode for [i64] {
    open spec fn encoded(&self) -> DataView {
        DataView::Int64Array(self@)
    }

    fn insert_into(&self, name: &str, nv: &mut NvListRef) -> (r: Result<(), Error>) {
        nv.insert_data(name, NvData::Int64Array(slice_to_vec(self)))
    }
}

impl NvEncode for [u64] {
    open spec fn encoded(&self) -> DataView {
        DataView::Uint64Array(self@)
    }

    fn insert_into(&self, name: &str, nv: &mut NvListRef) -> (r: Result<(), Error>) {
        nv.insert_data(name, NvData::Uint64Array(slice_to_vec(self)))
    }
}

impl NvEncode for str {
    open spec fn encoded(&self) -> DataView {
        DataView::Str(self@)
    }

    fn insert_into(&self, name: &str, nv: &mut NvListRef) -> (r: Result<(), Error>) {
        nv.insert_data(name, NvData::Str(self.to_owned()))
    }
}

impl NvEncode for &str {
    open spec fn encoded(&self) -> DataView {
        DataView::Str(self@)
    }

    fn insert_into(&self, name: &str, nv: &mut NvListRef) -> (r: Result<(), Error>) {
        nv.insert_data(name, NvData::Str((*self).to_owned()))
    }
}

impl NvEncode for String {
    open spec fn encoded(&self) -> DataView {
        DataView::Str(self@)
    }

    fn insert_into(&self, name: &str, nv: &mut NvListRef) -> (r: Result<(), Error>) {
        nv.insert_data(name, NvData::Str(self.clone()))
    }
}

impl NvEncode for NvListRef {
    open spec fn encoded(&self) -> DataView {
        DataView::NvList(self@)
    }

    fn insert_into(&self, name: &str, nv: &mut NvListRef) -> (r: Result<(), Error>) {
        nv.insert_data(name, NvData::from_list(self.clone()))
    }
}

impl NvEncode for () {
    open spec fn encoded(&self) -> DataView {
        DataView::Bool
    }

    fn insert_into(&self, name: &str, nv: &mut NvListRef) -> (r: Result<(), Error>) {
        nv.add_boolean(name)
    }
}

impl NvEncode for NvData {
    open spec fn encoded(&self) -> DataView {
        self@
    }

    fn insert_into(&self, name: &str, nv: &mut NvListRef) -> (r: Result<(), Error>) {
        nv.insert_data(name, self.clone())
    }
}

impl NvListRef {
    /// Puts an entry behind all others. Text with a NUL character in it is
    /// refused, and so is, in a list with unique names, a name that the list
    /// holds already. A refused insertion leaves the list as it was.
    pub fn insert<D: NvEncode + ?Sized>(&mut self, name: &str, data: &D) -> (r: Result<(), Error>)
        ensures
            insert_outcome(old(self)@, name@, data.encoded(), final(self)@, r),
    {
        data.insert_into(name, self)
    }
}

} // verus!
