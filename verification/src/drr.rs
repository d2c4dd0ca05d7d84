use vstd::prelude::*;
use vstd::slice::slice_subrange;
use vstd::slice::slice_to_vec;

verus! {

/// The kinds of record in a replay stream.
#[derive(Debug, Clone, Copy, PartialEq, Eq, Structural)]
pub enum DrrType {
    Begin,
    Object,
    FreeObjects,
    Write,
    Free,
    End,
    WriteByref,
    Spill,
    WriteEmbedeed,
    ObjectRange,
    Redact,
}

impl DrrType {
    /// The number that stands for this kind in a record.
    pub open spec fn raw(self) -> int {
        match self {
            DrrType::Begin => 0,
            DrrType::Object => 1,
            DrrType::FreeObjects => 2,
            DrrType::Write => 3,
            DrrType::Free => 4,
            DrrType::End => 5,
            DrrType::WriteByref => 6,
            DrrType::Spill => 7,
            DrrType::WriteEmbedeed => 8,
            DrrType::ObjectRange => 9,
            DrrType::Redact => 10,
        }
    }

    pub fn as_raw(&self) -> (r: u32)
        ensures
            r == self.raw(),
    {
        match self {
            DrrType::Begin => 0,
            DrrType::Object => 1,
            DrrType::FreeObjects => 2,
            DrrType::Write => 3,
            DrrType::Free => 4,
            DrrType::End => 5,
            DrrType::WriteByref => 6,
            DrrType::Spill => 7,
            DrrType::WriteEmbedeed => 8,
            DrrType::ObjectRange => 9,
            DrrType::Redact => 10,
        }
    }
}

/// The length in bytes of a record: two numbers of four bytes, and the
/// content, which is as long as the longest kind of content.
pub const RECORD_LEN: usize = 312;

/// The length in bytes of the two numbers that a record starts with.
pub const HEADER_LEN: usize = 8;

/// A record as it stands in a stream.
#[derive(Debug, Clone, PartialEq, Eq)]
pub struct DmuReplayRecordRaw {
    drr_type: u32,
    payload_len: u32,
    content: Vec<u8>,
}

/// What a `DmuReplayRecordRaw` holds.
pub struct RawView {
    pub drr_type: u32,
    pub payload_len: u32,
    pub content: Seq<u8>,
}

impl View for DmuReplayRecordRaw {
    type V = RawView;

    closed spec fn view(&self) -> RawView {
        RawView { drr_type: self.drr_type, payload_len: self.payload_len, content: self.content@ }
    }
}

impl DmuReplayRecordRaw {
    /// The number that stands for the kind of the record.
    pub fn drr_type(&self) -> (r: u32)
        ensures
            r == self@.drr_type,
    {
        self.drr_type
    }

    /// The length of what follows the record in the stream.
    pub fn payload_len(&self) -> (r: u32)
        ensures
            r == self@.payload_len,
    {
        self.payload_len
    }

    /// The bytes of the record behind its two numbers.
    pub fn content(&self) -> (r: &Vec<u8>)
        ensures
            r@ == self@.content,
    {
        &self.content
    }
}

/// Why bytes are not the first record of a stream.
#[derive(Debug, Clone, Copy, PartialEq, Eq, Structural)]
pub enum DrrError {
    /// There are fewer bytes than a record has.
    Truncated,
    /// The record is of another kind than `Begin`, so that the byte order
    /// of the stream cannot be told.
    NotBeginType { found_type: u32 },
}

/// The first record of a replay stream.
#[derive(Debug, Clone, PartialEq, Eq)]
pub struct DmuReplayRecord {
    raw: DmuReplayRecordRaw,
    byte_swap: bool,
}

/// What a `DmuReplayRecord` holds.
pub struct RecordView {
    pub raw: RawView,
    pub byte_swap: bool,
}

impl View for DmuReplayRecord {
    type V = RecordView;

    closed spec fn view(&self) -> RecordView {
        RecordView { raw: self.raw@, byte_swap: self.byte_swap }
    }
}

/// Reads four bytes as a number in the byte order of the machine, by
/// `u32::from_ne_bytes`. Nothing is claimed of the number: it depends on the
/// machine.
#[verifier::external_body]
fn native_u32(b0: u8, b1: u8, b2: u8, b3: u8) -> (r: u32) {
    u32::from_ne_bytes([b0, b1, b2, b3])
}

impl DmuReplayRecord {
    /// What the two numbers and the content of a record make: the first
    /// record of a stream where the kind is `Begin`, and else an error that
    /// holds the kind that was found.
    pub open spec fn spec_from_parts(drr_type: u32, payload_len: u32, content: Seq<u8>) -> Result<
        RecordView,
        DrrError,
    > {
        if drr_type == DrrType::Begin.raw() {
            Ok(RecordView { raw: RawView { drr_type, payload_len, content }, byte_swap: false })
        } else {
            Err(DrrError::NotBeginType { found_type: drr_type })
        }
    }

    /// Takes the two numbers and the content of a record as the first record
    /// of a stream.
    pub fn from_parts(drr_type: u32, payload_len: u32, content: Vec<u8>) -> (r: Result<
        Self,
        DrrError,
    >)
        ensures
            match Self::spec_from_parts(drr_type, payload_len, content@) {
                Ok(v) => r matches Ok(rec) && rec@ == v,
                Err(e) => r matches Err(x) && x == e,
            },
    {
        if drr_type != DrrType::Begin.as_raw() {
            return Err(DrrError::NotBeginType { found_type: drr_type });
        }
        Ok(
            DmuReplayRecord {
                raw: DmuReplayRecordRaw { drr_type, payload_len, content },
                byte_swap: false,
            },
        )
    }

    /// Reads the first record of a stream from its bytes. The two numbers at
    /// the start are read in the byte order of the machine; bytes behind the
    /// record are passed over.
    pub fn from_bytes(raw: &[u8]) -> (r: Result<Self, DrrError>)
        ensures
            raw@.len() < RECORD_LEN ==> r == Err::<Self, DrrError>(DrrError::Truncated),
            raw@.len() >= RECORD_LEN ==> match r {
                Ok(rec) => {
                    &&& rec@.raw.drr_type == DrrType::Begin.raw()
                    &&& rec@.raw.content == raw@.subrange(HEADER_LEN as int, RECORD_LEN as int)
                    &&& !rec@.byte_swap
                },
                Err(e) => e matches DrrError::NotBeginType { found_type } && found_type
                    != DrrType::Begin.raw(),
            },
    {
        if raw.len() < RECORD_LEN {
            return Err(DrrError::Truncated);
        }
        let drr_type = native_u32(raw[0], raw[1], raw[2], raw[3]);
        let payload_len = native_u32(raw[4], raw[5], raw[6], raw[7]);
        let content = slice_to_vec(slice_subrange(raw, HEADER_LEN, RECORD_LEN));
        Self::from_parts(drr_type, payload_len, content)
    }

    /// Whether the stream has the other byte order than the machine.
    pub fn byte_swap(&self) -> (b: bool)
        ensures
            b == self@.byte_swap,
    {
        self.byte_swap
    }

    /// The record as it stands in the stream.
    pub fn raw(&self) -> (r: &DmuReplayRecordRaw)
        ensures
            r@ == self@.raw,
    {
        &self.raw
    }
}

} // verus!
