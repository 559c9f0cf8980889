use vstd::prelude::*;

verus! {

/// Damage to what is stored on disk.
#[derive(Clone, Copy, Debug, PartialEq, Eq, Structural)]
pub enum Corruption {
    /// The staging file does not start with its four magic bytes.
    BadMagic,
    /// The staging file ends before a field, an entry or its checksum is complete.
    Truncated,
    /// A path in the staging file is not UTF-8.
    InvalidUtf8,
    /// The staging file's trailing checksum does not match its contents.
    ChecksumMismatch,
    /// A stored object cannot be inflated.
    Inflate,
    /// A stored object's header lacks the space or the NUL that frame it.
    MalformedHeader,
    /// A stored object's header names a type that does not exist.
    UnknownType,
    /// An object that another object refers to is not in the store.
    Absent,
}

/// A parse failure inside content that is framed correctly.
#[derive(Clone, Copy, Debug, PartialEq, Eq, Structural)]
pub enum Malformation {
    /// A commit lacks `tree`, `author` or `committer`.
    MissingRequiredField,
    /// A commit header line ends where its value should start.
    UnexpectedNewline,
    /// A tree record lacks a delimiter, has a bad mode or a short hash.
    BadTreeRecord,
    /// A tree entry's name is not UTF-8.
    InvalidUtf8,
}

/// Everything that can go wrong in the storage layer.
#[derive(Clone, Copy, Debug, PartialEq, Eq, Structural)]
pub enum Error {
    /// The store or the staging file is damaged.
    Corrupt(Corruption),
    /// Well-framed content does not parse.
    Malformed(Malformation),
    /// A string that should be a hexadecimal object id is not.
    Encoding,
    /// A byte stream refused the data; carried through from the stream.
    Io,
    /// The staging area holds more entries than its count field can express.
    TooManyEntries,
}


/// The message that goes with a failure.
pub open spec fn spec_message(error: Error) -> Seq<char> {
    match error {
        Error::Corrupt(Corruption::BadMagic) => "error parsing index: bad signature"@,
        Error::Corrupt(Corruption::Truncated) => "error parsing index: unexpected end of file"@,
        Error::Corrupt(Corruption::InvalidUtf8) => "error parsing index: non-UTF8 character in path"@,
        Error::Corrupt(Corruption::ChecksumMismatch) => "error parsing index: checksum mismatch"@,
        Error::Corrupt(Corruption::Inflate) => "error reading object: decompression failed"@,
        Error::Corrupt(Corruption::MalformedHeader) => "error parsing object: header not terminated"@,
        Error::Corrupt(Corruption::UnknownType) => "unrecognised object type"@,
        Error::Corrupt(Corruption::Absent) => "Object not found in store"@,
        Error::Malformed(Malformation::MissingRequiredField) => "invalid commit text: missing field"@,
        Error::Malformed(Malformation::UnexpectedNewline) => "unexpected new line in commit text"@,
        Error::Malformed(Malformation::BadTreeRecord) => "error parsing tree: malformed entry"@,
        Error::Malformed(Malformation::InvalidUtf8) => "error parsing tree: non-UTF8 character in path"@,
        Error::Encoding => "Invalid object id"@,
        Error::Io => "Object compression failed"@,
        Error::TooManyEntries => "too many entries in index"@,
    }
}

impl Error {
    /// The message for the user.
    pub fn message(&self) -> (text: String)
        ensures
            text@ == spec_message(*self),
    {
        match self {
            Error::Corrupt(Corruption::BadMagic) => String::from_str(
                "error parsing index: bad signature",
            ),
            Error::Corrupt(Corruption::Truncated) => String::from_str(
                "error parsing index: unexpected end of file",
            ),
            Error::Corrupt(Corruption::InvalidUtf8) => String::from_str(
                "error parsing index: non-UTF8 character in path",
            ),
            Error::Corrupt(Corruption::ChecksumMismatch) => String::from_str(
                "error parsing index: checksum mismatch",
            ),
            Error::Corrupt(Corruption::Inflate) => String::from_str(
                "error reading object: decompression failed",
            ),
            Error::Corrupt(Corruption::MalformedHeader) => String::from_str(
                "error parsing object: header not terminated",
            ),
            Error::Corrupt(Corruption::UnknownType) => String::from_str("unrecognised object type"),
            Error::Corrupt(Corruption::Absent) => String::from_str("Object not found in store"),
            Error::Malformed(Malformation::MissingRequiredField) => String::from_str(
                "invalid commit text: missing field",
            ),
            Error::Malformed(Malformation::UnexpectedNewline) => String::from_str(
                "unexpected new line in commit text",
            ),
            Error::Malformed(Malformation::BadTreeRecord) => String::from_str(
                "error parsing tree: malformed entry",
            ),
            Error::Malformed(Malformation::InvalidUtf8) => String::from_str(
                "error parsing tree: non-UTF8 character in path",
            ),
            Error::Encoding => String::from_str("Invalid object id"),
            Error::Io => String::from_str("Object compression failed"),
            Error::TooManyEntries => String::from_str("too many entries in index"),
        }
    }
}

} // verus!
