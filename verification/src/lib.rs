//! Ordered lists of named, tagged values, as a storage subsystem exchanges
//! them with its callers, and typed values written to such lists and read
//! back from them.
//!
//! A list ([`NvList`]) holds entries ([`NvPair`]) in the order of their
//! insertion; each entry has a name and a tagged value ([`NvData`]). A typed
//! value ([`Value`]) is written as a list by [`to_nvlist`], and read back as
//! a value of a given type ([`Shape`]) by [`from_nvlist`].

pub mod command;
pub mod data;
pub mod de;
pub mod drr;
pub mod error;
pub mod nvencode;
pub mod request;
pub mod roundtrip;
pub mod ser;
pub mod size;
pub mod value;
pub mod zfs;

pub use command::Zfs;
pub use data::{DataView, ListView, NvData, NvList, NvListIter, NvListRef, NvPair, PairView};
pub use de::{
    decode_list, decode_value, from_nvlist, from_nvlist_with, Deserializer, Policy, SeqAccessor,
};
pub use drr::{DmuReplayRecord, DmuReplayRecordRaw, DrrError, DrrType};
pub use error::{Error, ErrorView, Kind, NvType, Unsupported};
pub use nvencode::NvEncode;
pub use ser::{encode, to_nvlist};
pub use size::NvEncoding;
pub use value::{
    Entry, EntryView, Field, FieldShape, FieldShapeView, FieldView, Shape, ShapeView, Value,
    ValueView, VariantShape, VariantShapeView,
};
pub use zfs::{
    DataSetType, Defer, ErrorList, ErrorListIter, HoldList, HoldListIter, ListTypes,
    PoolInitializeFunc, PoolTrimFunc, SendFlags, WaitActivity,
};
