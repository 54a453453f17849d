//! File system errors and the codes that stand for them.

use vstd::prelude::*;

verus! {

/// Why a file system operation failed.
#[derive(Debug, Clone, Copy, PartialEq, Eq, Structural)]
pub enum FsError {
    NotReady,
    InvalidArgument,
    DeviceError,
    NotFormatted,
    NoSpace,
    FileNotFound,
}

pub type FsResult<T> = Result<T, FsError>;

/// The number that stands for `e` in a system call's result.
pub open spec fn error_code(e: FsError) -> int {
    match e {
        FsError::NotReady => -1,
        FsError::InvalidArgument => -2,
        FsError::DeviceError => -3,
        FsError::NotFormatted => -4,
        FsError::NoSpace => -5,
        FsError::FileNotFound => -6,
    }
}

impl FsError {
    /// The number that stands for this error in a system call's result.
    pub fn code(self) -> (c: i32)
        ensures
            c == error_code(self),
    {
        match self {
            FsError::NotReady => -1,
            FsError::InvalidArgument => -2,
            FsError::DeviceError => -3,
            FsError::NotFormatted => -4,
            FsError::NoSpace => -5,
            FsError::FileNotFound => -6,
        }
    }
}

/// The name of the error, as messages show it.
pub open spec fn error_name(e: FsError) -> Seq<char> {
    match e {
        FsError::NotReady => "NotReady"@,
        FsError::InvalidArgument => "InvalidArgument"@,
        FsError::DeviceError => "DeviceError"@,
        FsError::NotFormatted => "NotFormatted"@,
        FsError::NoSpace => "NoSpace"@,
        FsError::FileNotFound => "FileNotFound"@,
    }
}

impl FsError {
    /// The name of the error, as messages show it.
    pub fn name(self) -> (s: &'static str)
        ensures
            s@ == error_name(self),
    {
        match self {
            FsError::NotReady => "NotReady",
            FsError::InvalidArgument => "InvalidArgument",
            FsError::DeviceError => "DeviceError",
            FsError::NotFormatted => "NotFormatted",
            FsError::NoSpace => "NoSpace",
            FsError::FileNotFound => "FileNotFound",
        }
    }
}

/// What a transfer that went through a system call reported: zero is success,
/// a known code is its error, anything else is a device error.
pub open spec fn transfer_result(ret: int) -> FsResult<()> {
    if ret == 0 {
        Ok(())
    } else if ret == -1 {
        Err(FsError::NotReady)
    } else if ret == -2 {
        Err(FsError::InvalidArgument)
    } else if ret == -4 {
        Err(FsError::NotFormatted)
    } else if ret == -5 {
        Err(FsError::NoSpace)
    } else if ret == -6 {
        Err(FsError::FileNotFound)
    } else {
        Err(FsError::DeviceError)
    }
}

/// Decodes what the transfer system calls return to user mode.
pub fn result_from_syscall(ret: i32) -> (r: FsResult<()>)
    ensures
        r == transfer_result(ret as int),
{
    if ret == 0 {
        Ok(())
    } else {
        Err(
            match ret {
                -1 => FsError::NotReady,
                -2 => FsError::InvalidArgument,
                -3 => FsError::DeviceError,
                -4 => FsError::NotFormatted,
                -5 => FsError::NoSpace,
                -6 => FsError::FileNotFound,
                _ => FsError::DeviceError,
            },
        )
    }
}

/// Every error is recovered from its code.
pub proof fn law_error_codes_round_trip(e: FsError)
    ensures
        transfer_result(error_code(e)) == Err::<(), FsError>(e),
{
}

/// The errors have the codes from minus one down to minus six, in their order.
/// Zero says that a transfer worked, and what is no code of an error is taken for
/// a fault of the device.
pub proof fn law_error_codes(ret: int)
    ensures
        error_code(FsError::NotReady) == -1,
        error_code(FsError::InvalidArgument) == -2,
        error_code(FsError::DeviceError) == -3,
        error_code(FsError::NotFormatted) == -4,
        error_code(FsError::NoSpace) == -5,
        error_code(FsError::FileNotFound) == -6,
        transfer_result(ret) is Ok <==> ret == 0,
        ret > 0 || ret < -6 ==> transfer_result(ret) == Err::<(), FsError>(FsError::DeviceError),
{
}

/// Errors are shown by their own names.
pub proof fn law_error_names()
    ensures
        error_name(FsError::NotReady) == "NotReady"@,
        error_name(FsError::InvalidArgument) == "InvalidArgument"@,
        error_name(FsError::DeviceError) == "DeviceError"@,
        error_name(FsError::NotFormatted) == "NotFormatted"@,
        error_name(FsError::NoSpace) == "NoSpace"@,
        error_name(FsError::FileNotFound) == "FileNotFound"@,
{
}

} // verus!
