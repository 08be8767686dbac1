//! What can go wrong in the store.

use crate::address::Address;
use vstd::prelude::*;

verus! {

/// Why a text is not a hexadecimal encoding.
#[derive(Clone, Copy, Debug, PartialEq, Eq, Structural)]
pub enum FromHexError {
    /// A byte that is no hexadecimal digit, and where it stands.
    InvalidHexCharacter { c: char, index: usize },
    /// An odd number of digits.
    OddLength,
    /// The wrong number of digits for a container of fixed size.
    InvalidStringLength,
}

/// The failures of the file system that the store tells apart.
#[derive(Clone, Copy, Debug, PartialEq, Eq, Structural)]
pub enum IoErrorKind {
    NotFound,
    FileTooLarge,
    Other,
}

/// A failure of the file system.
#[derive(Debug)]
pub struct IoError {
    pub kind: IoErrorKind,
    pub message: String,
}

/// Why an operation of the store failed.
#[derive(Debug)]
pub enum Error {
    Runtime { msg: String },
    InvalidAddress(FromHexError),
    NotFound { address: Address },
    NoSuchFile { path: String },
    Io(IoError),
    WalkDir(String),
}

impl Error {
    /// The text that `message` gives.
    pub open spec fn text(self) -> Seq<char> {
        match self {
            Error::Runtime { msg } => msg@,
            Error::InvalidAddress(_) => "Invalid address"@,
            Error::NotFound { address } => "Address not found: "@ + address.hex(),
            Error::NoSuchFile { path } => "No such file or directory: "@ + path@,
            Error::Io(_) => "Io"@,
            Error::WalkDir(_) => "WalkDir"@,
        }
    }

    /// The error for people to read.
    pub fn message(&self) -> (s: String)
        ensures
            s@ == self.text(),
    {
        match self {
            Error::Runtime { msg } => msg.clone(),
            Error::InvalidAddress(_) => "Invalid address".to_owned(),
            Error::NotFound { address } => {
                let mut s = "Address not found: ".to_owned();
                s.append(address.to_hex().as_str());
                s
            },
            Error::NoSuchFile { path } => {
                let mut s = "No such file or directory: ".to_owned();
                s.append(path.as_str());
                s
            },
            Error::Io(_) => "Io".to_owned(),
            Error::WalkDir(_) => "WalkDir".to_owned(),
        }
    }
}

/// The text of an error names what it is about: errors about addresses or paths with the same
/// text are about the same.
pub proof fn law_errors_name_what_they_are_about(
    a: Address,
    b: Address,
    path: String,
    other: String,
    msg: String,
)
    ensures
        (Error::Runtime { msg }).text() == msg@,
        (Error::NotFound { address: a }).text() == (Error::NotFound { address: b }).text()
            ==> a@ == b@,
        (Error::NoSuchFile { path }).text() == (Error::NoSuchFile { path: other }).text()
            ==> path@ == other@,
{
    let head = "Address not found: "@;
    if head + a.hex() == head + b.hex() {
        assert(a.hex() =~= (head + a.hex()).skip(head.len() as int));
        assert(b.hex() =~= (head + b.hex()).skip(head.len() as int));
        crate::address::law_hex_is_injective(a@, b@);
    }
    let head = "No such file or directory: "@;
    if head + path@ == head + other@ {
        assert(path@ =~= (head + path@).skip(head.len() as int));
        assert(other@ =~= (head + other@).skip(head.len() as int));
    }
}

} // verus!
