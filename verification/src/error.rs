//! Symbian error codes as a Rust error.
//!
//! The platform reports failures as negative integers from one flat list. The codes
//! that carry a decision get a variant of their own; every other code survives as
//! [`Error::Platform`] with the raw number, because on a handset without a debugger
//! that number is often the whole diagnosis.

use vstd::prelude::*;

use crate::codec::owned;
use crate::log::{push_i64, signed_decimal};

verus! {

/// `KErrNone`.
pub const ERR_NONE: i32 = 0;
/// `KErrNotFound`.
pub const ERR_NOT_FOUND: i32 = -1;
/// `KErrGeneral`.
pub const ERR_GENERAL: i32 = -2;
/// `KErrNoMemory`.
pub const ERR_NO_MEMORY: i32 = -4;
/// `KErrNotSupported`.
pub const ERR_NOT_SUPPORTED: i32 = -5;
/// `KErrArgument`.
pub const ERR_ARGUMENT: i32 = -6;
/// `KErrBadHandle`.
pub const ERR_BAD_HANDLE: i32 = -8;
/// `KErrOverflow`.
pub const ERR_OVERFLOW: i32 = -9;
/// `KErrAlreadyExists`.
pub const ERR_ALREADY_EXISTS: i32 = -11;
/// `KErrPathNotFound`.
pub const ERR_PATH_NOT_FOUND: i32 = -12;
/// `KErrInUse`.
pub const ERR_IN_USE: i32 = -14;
/// `KErrNotReady`.
pub const ERR_NOT_READY: i32 = -18;
/// `KErrCorrupt`.
pub const ERR_CORRUPT: i32 = -20;
/// `KErrAccessDenied`.
pub const ERR_ACCESS_DENIED: i32 = -21;
/// `KErrEof`.
pub const ERR_EOF: i32 = -25;
/// `KErrTimedOut`.
pub const ERR_TIMED_OUT: i32 = -33;
/// `KErrPermissionDenied`.
pub const ERR_PERMISSION_DENIED: i32 = -46;

#[derive(Copy, Clone, Debug, PartialEq, Eq, Structural)]
pub enum Error {
    /// `KErrNotFound`: for a file open, the ordinary first-run answer.
    NotFound,
    /// `KErrPathNotFound`.
    PathNotFound,
    /// `KErrAlreadyExists`.
    AlreadyExists,
    /// `KErrNoMemory`.
    NoMemory,
    /// `KErrAccessDenied` or `KErrPermissionDenied`.
    AccessDenied,
    /// `KErrInUse`, including running out of handle slots.
    InUse,
    /// `KErrArgument`.
    Argument,
    /// `KErrOverflow`: a buffer too small, or a value that does not fit.
    Overflow,
    /// `KErrNotReady`: the platform layer is not there (off the device).
    NotReady,
    /// `KErrEof`, or a read that returned nothing when something was expected.
    UnexpectedEof,
    /// Anything else, with the code as `e32err.h` spells it.
    Platform(i32),
}

pub type Result<T> = core::result::Result<T, Error>;

/// The error a platform code maps to.
pub open spec fn spec_from_code(code: i32) -> Error {
    if code == ERR_NOT_FOUND {
        Error::NotFound
    } else if code == ERR_NO_MEMORY {
        Error::NoMemory
    } else if code == ERR_ARGUMENT {
        Error::Argument
    } else if code == ERR_OVERFLOW {
        Error::Overflow
    } else if code == ERR_ALREADY_EXISTS {
        Error::AlreadyExists
    } else if code == ERR_IN_USE {
        Error::InUse
    } else if code == ERR_NOT_READY {
        Error::NotReady
    } else if code == ERR_ACCESS_DENIED || code == ERR_PERMISSION_DENIED {
        Error::AccessDenied
    } else if code == ERR_PATH_NOT_FOUND {
        Error::PathNotFound
    } else if code == ERR_EOF {
        Error::UnexpectedEof
    } else {
        Error::Platform(code)
    }
}

/// The platform code an error stands for.
pub open spec fn spec_code(e: Error) -> i32 {
    match e {
        Error::NotFound => ERR_NOT_FOUND,
        Error::PathNotFound => ERR_PATH_NOT_FOUND,
        Error::AlreadyExists => ERR_ALREADY_EXISTS,
        Error::NoMemory => ERR_NO_MEMORY,
        Error::AccessDenied => ERR_ACCESS_DENIED,
        Error::InUse => ERR_IN_USE,
        Error::Argument => ERR_ARGUMENT,
        Error::Overflow => ERR_OVERFLOW,
        Error::NotReady => ERR_NOT_READY,
        Error::UnexpectedEof => ERR_EOF,
        Error::Platform(c) => c,
    }
}

/// An error in words.
pub open spec fn error_text(e: Error) -> Seq<char> {
    match e {
        Error::NotFound => "not found"@,
        Error::PathNotFound => "path not found"@,
        Error::AlreadyExists => "already exists"@,
        Error::NoMemory => "out of memory"@,
        Error::AccessDenied => "access denied"@,
        Error::InUse => "in use"@,
        Error::Argument => "bad argument"@,
        Error::Overflow => "overflow"@,
        Error::NotReady => "shim not ready"@,
        Error::UnexpectedEof => "unexpected end of file"@,
        Error::Platform(c) => "symbian error "@ + signed_decimal(c as int),
    }
}

impl Error {
    /// "This does not exist yet".
    pub open spec fn spec_is_missing(self) -> bool {
        self is NotFound || self is PathNotFound
    }

    /// Map a platform return value: success for zero and for positive counts.
    pub fn check(code: i32) -> (r: Result<()>)
        ensures
            code >= 0 ==> r is Ok,
            code < 0 ==> r == Err::<(), Error>(spec_from_code(code)),
    {
        if code >= 0 {
            Ok(())
        } else {
            Err(Error::from_code(code))
        }
    }

    /// Map a platform yes-or-no answer: 1 is yes, any other count is no, and a negative
    /// value is the error it names.
    pub fn flag(code: i32) -> (r: Result<bool>)
        ensures
            code >= 0 ==> r == Ok::<bool, Error>(code == 1),
            code < 0 ==> r == Err::<bool, Error>(spec_from_code(code)),
    {
        if code < 0 {
            Err(Error::from_code(code))
        } else {
            Ok(code == 1)
        }
    }

    pub fn from_code(code: i32) -> (e: Error)
        ensures
            e == spec_from_code(code),
    {
        if code == ERR_NOT_FOUND {
            Error::NotFound
        } else if code == ERR_NO_MEMORY {
            Error::NoMemory
        } else if code == ERR_ARGUMENT {
            Error::Argument
        } else if code == ERR_OVERFLOW {
            Error::Overflow
        } else if code == ERR_ALREADY_EXISTS {
            Error::AlreadyExists
        } else if code == ERR_IN_USE {
            Error::InUse
        } else if code == ERR_NOT_READY {
            Error::NotReady
        } else if code == ERR_ACCESS_DENIED || code == ERR_PERMISSION_DENIED {
            Error::AccessDenied
        } else if code == ERR_PATH_NOT_FOUND {
            Error::PathNotFound
        } else if code == ERR_EOF {
            Error::UnexpectedEof
        } else {
            Error::Platform(code)
        }
    }

    /// True when the error means "this does not exist yet".
    pub fn is_missing(self) -> (r: bool)
        ensures
            r == self.spec_is_missing(),
    {
        match self {
            Error::NotFound | Error::PathNotFound => true,
            _ => false,
        }
    }

    /// True when the platform has no plugin for what was asked.
    pub fn is_unsupported(self) -> (r: bool)
        ensures
            r == (self == Error::Platform(ERR_NOT_SUPPORTED)),
    {
        match self {
            Error::Platform(c) => c == ERR_NOT_SUPPORTED,
            _ => false,
        }
    }

    /// The error in words, for a log or a screen; an unnamed code keeps its number.
    pub fn to_text(self) -> (r: String)
        ensures
            r@ == error_text(self),
    {
        match self {
            Error::NotFound => owned("not found"),
            Error::PathNotFound => owned("path not found"),
            Error::AlreadyExists => owned("already exists"),
            Error::NoMemory => owned("out of memory"),
            Error::AccessDenied => owned("access denied"),
            Error::InUse => owned("in use"),
            Error::Argument => owned("bad argument"),
            Error::Overflow => owned("overflow"),
            Error::NotReady => owned("shim not ready"),
            Error::UnexpectedEof => owned("unexpected end of file"),
            Error::Platform(c) => {
                let mut s = owned("symbian error ");
                push_i64(&mut s, c as i64);
                s
            },
        }
    }

    /// The `e32err.h` code this came from.
    pub fn code(self) -> (c: i32)
        ensures
            c == spec_code(self),
    {
        match self {
            Error::NotFound => ERR_NOT_FOUND,
            Error::PathNotFound => ERR_PATH_NOT_FOUND,
            Error::AlreadyExists => ERR_ALREADY_EXISTS,
            Error::NoMemory => ERR_NO_MEMORY,
            Error::AccessDenied => ERR_ACCESS_DENIED,
            Error::InUse => ERR_IN_USE,
            Error::Argument => ERR_ARGUMENT,
            Error::Overflow => ERR_OVERFLOW,
            Error::NotReady => ERR_NOT_READY,
            Error::UnexpectedEof => ERR_EOF,
            Error::Platform(c) => c,
        }
    }
}

/// Mapping a code and asking for it back gives the code again, for every code the map
/// does not fold together (`KErrPermissionDenied` reads back as `KErrAccessDenied`).
pub proof fn lemma_code_round_trip(code: i32)
    requires
        code != ERR_PERMISSION_DENIED,
    ensures
        spec_code(spec_from_code(code)) == code,
{
}

/// Every error that carries a platform code maps back to itself.
pub proof fn lemma_error_round_trip(e: Error)
    requires
        match e {
            Error::Platform(c) => spec_from_code(c) == Error::Platform(c),
            _ => true,
        },
    ensures
        spec_from_code(spec_code(e)) == e,
{
}

} // verus!
