//! Status codes and the result convention applied to every firmware call.

use vstd::prelude::*;

verus! {

/// The outcome code of a firmware call.
///
/// A code is exactly one of: success (the value zero), a warning (nonzero,
/// high bit clear) or an error (high bit set).
#[derive(Clone, Copy, Debug, PartialEq, Eq, Hash, Structural)]
pub struct Status(pub usize);

/// The high bit of a status code, which marks the code as an error.
pub const ERROR_BIT: usize = usize::MAX / 2 + 1;

/// The operation completed successfully.
pub const SUCCESS: usize = 0;

/// The string contained characters that could not be rendered and were skipped.
pub const WARN_UNKNOWN_GLYPH: usize = 1;

/// The handle was closed, but the file was not deleted.
pub const WARN_DELETE_FAILURE: usize = 2;

/// The handle was closed, but the data to the file was not flushed properly.
pub const WARN_WRITE_FAILURE: usize = 3;

/// The resulting buffer was too small, and the data was truncated.
pub const WARN_BUFFER_TOO_SMALL: usize = 4;

/// The data has not been updated within the timeframe set by local policy.
pub const WARN_STALE_DATA: usize = 5;

/// The resulting buffer contains a file system.
pub const WARN_FILE_SYSTEM: usize = 6;

/// The operation will be processed across a system reset.
pub const WARN_RESET_REQUIRED: usize = 7;

/// The image failed to load.
pub const LOAD_ERROR: usize = ERROR_BIT + 1;

/// A parameter was incorrect.
pub const INVALID_PARAMETER: usize = ERROR_BIT + 2;

/// The operation is not supported.
pub const UNSUPPORTED: usize = ERROR_BIT + 3;

/// The buffer was not the proper size for the request.
pub const BAD_BUFFER_SIZE: usize = ERROR_BIT + 4;

/// The buffer is not large enough to hold the requested data.
pub const BUFFER_TOO_SMALL: usize = ERROR_BIT + 5;

/// There is no data pending upon return.
pub const NOT_READY: usize = ERROR_BIT + 6;

/// The physical device reported an error while attempting the operation.
pub const DEVICE_ERROR: usize = ERROR_BIT + 7;

/// The device cannot be written to.
pub const WRITE_PROTECTED: usize = ERROR_BIT + 8;

/// A resource has run out.
pub const OUT_OF_RESOURCES: usize = ERROR_BIT + 9;

/// An inconsistency was detected on the file system.
pub const VOLUME_CORRUPTED: usize = ERROR_BIT + 10;

/// There is no more space on the file system.
pub const VOLUME_FULL: usize = ERROR_BIT + 11;

/// The device does not contain any medium to perform the operation.
pub const NO_MEDIA: usize = ERROR_BIT + 12;

/// The medium in the device has changed since the last access.
pub const MEDIA_CHANGED: usize = ERROR_BIT + 13;

/// The item was not found.
pub const NOT_FOUND: usize = ERROR_BIT + 14;

/// Access was denied.
pub const ACCESS_DENIED: usize = ERROR_BIT + 15;

/// The server was not found or did not respond to the request.
pub const NO_RESPONSE: usize = ERROR_BIT + 16;

/// A mapping to a device does not exist.
pub const NO_MAPPING: usize = ERROR_BIT + 17;

/// The timeout time expired.
pub const TIMEOUT: usize = ERROR_BIT + 18;

/// The protocol has not been started.
pub const NOT_STARTED: usize = ERROR_BIT + 19;

/// The protocol has already been started.
pub const ALREADY_STARTED: usize = ERROR_BIT + 20;

/// The operation was aborted.
pub const ABORTED: usize = ERROR_BIT + 21;

/// An ICMP error occurred during the network operation.
pub const ICMP_ERROR: usize = ERROR_BIT + 22;

/// A TFTP error occurred during the network operation.
pub const TFTP_ERROR: usize = ERROR_BIT + 23;

/// A protocol error occurred during the network operation.
pub const PROTOCOL_ERROR: usize = ERROR_BIT + 24;

/// The function met an internal version that is incompatible with the one asked for.
pub const INCOMPATIBLE_VERSION: usize = ERROR_BIT + 25;

/// The function was not performed because of a security violation.
pub const SECURITY_VIOLATION: usize = ERROR_BIT + 26;

/// A CRC error was detected.
pub const CRC_ERROR: usize = ERROR_BIT + 27;

/// The beginning or the end of the medium was reached.
pub const END_OF_MEDIA: usize = ERROR_BIT + 28;

/// The end of the file was reached.
pub const END_OF_FILE: usize = ERROR_BIT + 31;

/// The language specified was invalid.
pub const INVALID_LANGUAGE: usize = ERROR_BIT + 32;

/// The security status of the data is unknown or compromised.
pub const COMPROMISED_DATA: usize = ERROR_BIT + 33;

/// There is an address conflict in address allocation.
pub const IP_ADDRESS_CONFLICT: usize = ERROR_BIT + 34;

/// An HTTP error occurred during the network operation.
pub const HTTP_ERROR: usize = ERROR_BIT + 35;

impl Status {
    /// The code is the one success code.
    pub open spec fn spec_is_success(&self) -> bool {
        self.0 == SUCCESS
    }

    /// The code is not zero and its high bit is clear.
    pub open spec fn spec_is_warning(&self) -> bool {
        SUCCESS < self.0 < ERROR_BIT
    }

    /// The high bit of the code is set.
    pub open spec fn spec_is_error(&self) -> bool {
        self.0 >= ERROR_BIT
    }

    /// Whether the call succeeded.
    #[verifier::when_used_as_spec(spec_is_success)]
    pub fn is_success(&self) -> (b: bool)
        ensures
            b == self.spec_is_success(),
    {
        self.0 == SUCCESS
    }

    /// Whether the call completed, but not in the normal way.
    #[verifier::when_used_as_spec(spec_is_warning)]
    pub fn is_warning(&self) -> (b: bool)
        ensures
            b == self.spec_is_warning(),
    {
        self.0 != SUCCESS && self.0 < ERROR_BIT
    }

    /// Whether the call failed.
    #[verifier::when_used_as_spec(spec_is_error)]
    pub fn is_error(&self) -> (b: bool)
        ensures
            b == self.spec_is_error(),
    {
        self.0 >= ERROR_BIT
    }

    /// Every code is in exactly one of the three classes.
    pub proof fn lemma_one_class(self)
        ensures
            self.is_success() || self.is_warning() || self.is_error(),
            !(self.is_success() && self.is_warning()),
            !(self.is_success() && self.is_error()),
            !(self.is_warning() && self.is_error()),
    {
    }

    /// `Ok` for the success code; a warning or an error becomes the failure
    /// that carries it.
    pub fn to_result(self) -> (r: Result)
        ensures
            r == if self.is_success() {
                Ok::<(), Error>(())
            } else {
                Err::<(), Error>(Error { status: self, data: () })
            },
    {
        if self.is_success() {
            Ok(())
        } else {
            Err(Error::from(self))
        }
    }

    /// `Ok` with the value that `val` makes for the success code, and `val`
    /// is not called for any other code, which becomes the failure that
    /// carries it.
    pub fn to_result_with_val<T, F: FnOnce() -> T>(self, val: F) -> (r: Result<T>)
        requires
            self.is_success() ==> val.requires(()),
        ensures
            self.is_success() ==> (r matches Ok(v) && val.ensures((), v)),
            !self.is_success() ==> r == Err::<T, Error>(Error { status: self, data: () }),
    {
        if self.is_success() {
            Ok(val())
        } else {
            Err(Error::from(self))
        }
    }

    /// `Ok` for the success code; any other code becomes the failure that
    /// carries it together with the data that `err` makes for it.
    pub fn to_result_with_err<ErrData, F: FnOnce(Status) -> ErrData>(self, err: F) -> (r: Result<
        (),
        ErrData,
    >)
        requires
            !self.is_success() ==> err.requires((self,)),
        ensures
            self.is_success() ==> r == Ok::<(), Error<ErrData>>(()),
            !self.is_success() ==> (r matches Err(e) && e.status == self && err.ensures(
                (self,),
                e.data,
            )),
    {
        if self.is_success() {
            Ok(())
        } else {
            Err(Error::new(self, err(self)))
        }
    }
}

/// A failed firmware call: the status it reported, with optional data.
#[derive(Debug, PartialEq, Eq)]
pub struct Error<Data = ()> {
    pub status: Status,
    pub data: Data,
}

/// The outcome of a firmware call: `Ok` on success, `Err` on a warning or
/// an error.
pub type Result<Output = (), ErrData = ()> = core::result::Result<Output, Error<ErrData>>;

impl<Data> Error<Data> {
    /// A failure with `status` and `data`.
    pub fn new(status: Status, data: Data) -> (e: Self)
        ensures
            e == (Error { status, data }),
    {
        Error { status, data }
    }

    /// The status that the call reported.
    pub fn status(&self) -> (s: Status)
        ensures
            s == self.status,
    {
        self.status
    }

    /// The data that came with the failure.
    pub fn data(&self) -> (d: &Data)
        ensures
            *d == self.data,
    {
        &self.data
    }

    /// The status and the data, apart.
    pub fn split(self) -> (parts: (Status, Data))
        ensures
            parts == (self.status, self.data),
    {
        (self.status, self.data)
    }
}

impl From<Status> for Error<()> {
    /// The failure that carries `status` and no data.
    fn from(status: Status) -> (e: Self) {
        Error { status, data: () }
    }
}

impl vstd::std_specs::convert::FromSpecImpl<Status> for Error<()> {
    open spec fn obeys_from_spec() -> bool {
        true
    }

    open spec fn from_spec(status: Status) -> Self {
        Error { status, data: () }
    }
}

/// The status of an outcome: the success code for `Ok`, the code that a
/// failure carries for `Err`.
pub open spec fn result_status<Output, ErrData>(r: Result<Output, ErrData>) -> Status {
    match r {
        Ok(_) => Status(SUCCESS),
        Err(e) => e.status,
    }
}

/// An outcome with the data of its failure dropped.
pub open spec fn without_errdata<Output, ErrData>(r: Result<Output, ErrData>) -> Result<Output> {
    match r {
        Ok(o) => Ok(o),
        Err(e) => Err(Error { status: e.status, data: () }),
    }
}

/// Conveniences on the outcome of a firmware call.
pub trait ResultExt<Output, ErrData: core::fmt::Debug> {
    /// The outcome itself.
    spec fn as_result(&self) -> Result<Output, ErrData>;

    /// The status of the outcome.
    fn status(&self) -> (s: Status)
        ensures
            s == result_status(self.as_result()),
    ;

    /// Drops the data of a failure and keeps its status.
    fn discard_errdata(self) -> (r: Result<Output>) where Self: Sized
        ensures
            r == without_errdata(self.as_result()),
    ;

    /// Calls `op` on a failure whose status is a warning and returns what it
    /// gives. A success, and a failure whose status is an error, are
    /// returned unchanged, and `op` is not called.
    fn handle_warning<O>(self, op: O) -> (r: Result<Output, ErrData>) where
        O: FnOnce(Error<ErrData>) -> Result<Output, ErrData>,
        Self: Sized,

        requires
            self.as_result() matches Err(e) ==> (e.status.is_warning() ==> op.requires((e,))),
        ensures
            match self.as_result() {
                Ok(o) => r == Ok::<Output, Error<ErrData>>(o),
                Err(e) => if e.status.is_warning() {
                    op.ensures((e,), r)
                } else {
                    r == Err::<Output, Error<ErrData>>(e)
                },
            },
    ;
}

impl<Output, ErrData: core::fmt::Debug> ResultExt<Output, ErrData> for Result<Output, ErrData> {
    open spec fn as_result(&self) -> Result<Output, ErrData> {
        *self
    }

    fn status(&self) -> (s: Status) {
        match self {
            Ok(_) => Status(SUCCESS),
            Err(e) => e.status(),
        }
    }

    fn discard_errdata(self) -> (r: Result<Output>) {
        match self {
            Ok(o) => Ok(o),
            Err(e) => Err(Error::from(e.status())),
        }
    }

    fn handle_warning<O>(self, op: O) -> (r: Result<Output, ErrData>) where
        O: FnOnce(Error<ErrData>) -> Result<Output, ErrData>,
     {
        match self {
            Ok(output) => Ok(output),
            Err(err) => {
                if err.status().is_warning() {
                    op(err)
                } else {
                    Err(err)
                }
            },
        }
    }
}

/// What becomes of `result` when the warning `expected` is taken for a
/// success with `output`: a failure with exactly that warning becomes
/// `Ok(output)`, and everything else stays as it is.
pub open spec fn warning_accepted<Output, ErrData>(
    result: Result<Output, ErrData>,
    expected: Status,
    output: Output,
) -> Result<Output, ErrData> {
    match result {
        Ok(o) => Ok(o),
        Err(e) => if e.status == expected && expected.is_warning() {
            Ok(output)
        } else {
            Err(e)
        },
    }
}

/// The answer to a warning when `expected` is taken for a success with
/// `output`.
pub open spec fn accepted<Output, ErrData>(
    warning: Error<ErrData>,
    expected: Status,
    output: Output,
) -> Result<Output, ErrData> {
    if warning.status == expected {
        Ok(output)
    } else {
        Err(warning)
    }
}

/// Takes the warning `expected` for a success with `output`, by way of
/// `handle_warning`. Any other warning, and any error, stays the failure
/// that it was.
pub fn accept_warning<Output, ErrData: core::fmt::Debug>(
    result: Result<Output, ErrData>,
    expected: Status,
    output: Output,
) -> (r: Result<Output, ErrData>)
    ensures
        r == warning_accepted(result, expected, output),
{
    let op = |err: Error<ErrData>| -> (o: Result<Output, ErrData>)
        ensures
            o == accepted(err, expected, output),
        {
            if err.status() == expected {
                Ok(output)
            } else {
                Err(err)
            }
        };
    result.handle_warning(op)
}

} // verus!
