use vstd::prelude::*;

verus! {

/// The tag of an entry's value: which kind of data the entry holds.
#[derive(Debug, Clone, Copy, PartialEq, Eq, Structural)]
pub enum NvType {
    Unknown,
    Bool,
    BoolV,
    Byte,
    Int8,
    Uint8,
    Int16,
    Uint16,
    Int32,
    Uint32,
    Int64,
    Uint64,
    Str,
    NvList,
    ByteArray,
    Int8Array,
    Uint8Array,
    Int16Array,
    Uint16Array,
    Int32Array,
    Uint32Array,
    Int64Array,
    Uint64Array,
    NvListArray,
}

/// The kind of value that a decode asked for.
#[derive(Debug, Clone, Copy, PartialEq, Eq, Structural)]
pub enum Kind {
    Unit,
    Bool,
    Byte,
    I8,
    U8,
    I16,
    U16,
    I32,
    U32,
    I64,
    U64,
    Str,
    Optional,
    Sequence,
    Record,
    Mapping,
    Enum,
}

/// Why a value cannot be written as a tagged value.
#[derive(Debug, Clone, Copy, PartialEq, Eq, Structural)]
pub enum Unsupported {
    /// A sequence without elements has no element type.
    EmptySequence,
    /// The elements of a sequence do not all have the tag of the first.
    HeterogeneousSequence,
    /// The elements have a tag for which no array kind exists.
    SequenceElement,
    /// A map key that is not text.
    MapKey,
    /// An enum variant with several fields.
    EnumVariant,
    /// The outermost value is not a list.
    TopLevel,
}

#[derive(Debug, Clone, PartialEq, Eq)]
pub enum Error {
    /// A list with unique names already holds an entry of this name.
    DuplicateName(String),
    /// No entry of the name (and, where one was asked for, the tag).
    NotFound,
    UnsupportedShape(Unsupported),
    /// The entry of this name has a tag that is not known.
    UnknownTag(String),
    /// The entry of this name holds `found` where `expected` was asked for.
    TypeMismatch { name: String, expected: Kind, found: NvType },
    /// A record field that is not optional has no entry.
    MissingField(String),
    /// Text with a NUL character in it.
    TextEncodingError,
    /// The flat form would be longer than the wire format allows.
    TooLarge,
    /// The entry of this name is of no use to the type that is read, and
    /// the reading is strict.
    Unconsumed(String),
}

pub enum ErrorView {
    DuplicateName(Seq<char>),
    NotFound,
    UnsupportedShape(Unsupported),
    UnknownTag(Seq<char>),
    TypeMismatch { name: Seq<char>, expected: Kind, found: NvType },
    MissingField(Seq<char>),
    TextEncodingError,
    TooLarge,
    Unconsumed(Seq<char>),
}

impl View for Error {
    type V = ErrorView;

    open spec fn view(&self) -> ErrorView {
        match self {
            Error::DuplicateName(n) => ErrorView::DuplicateName(n@),
            Error::NotFound => ErrorView::NotFound,
            Error::UnsupportedShape(u) => ErrorView::UnsupportedShape(*u),
            Error::UnknownTag(n) => ErrorView::UnknownTag(n@),
            Error::TypeMismatch { name, expected, found } => ErrorView::TypeMismatch {
                name: name@,
                expected: *expected,
                found: *found,
            },
            Error::MissingField(n) => ErrorView::MissingField(n@),
            Error::TextEncodingError => ErrorView::TextEncodingError,
            Error::TooLarge => ErrorView::TooLarge,
            Error::Unconsumed(n) => ErrorView::Unconsumed(n@),
        }
    }
}

/// Whether the text holds a NUL character, which no entry name and no text
/// value may hold.
pub open spec fn has_nul(s: Seq<char>) -> bool {
    exists|i: int| 0 <= i < s.len() && s[i] == '\0'
}

pub fn contains_nul(s: &str) -> (b: bool)
    ensures
        b == has_nul(s@),
{
    let mut found = false;
    for c in it: s.chars()
        invariant
            it.seq() == s@,
            found == (exists|j: int| 0 <= j < it.index() && s@[j] == '\0'),
    {
        assert(c == s@[it.index() as int]);
        if c == '\0' {
            found = true;
        }
    }
    found
}

} // verus!
