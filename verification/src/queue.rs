//! The download-queue service's envelope: a result-or-error response, as the
//! queue returns it for magnet submissions and removals.  Unpacking the
//! envelope into a plain `Result` is the decision verified here; the wire
//! encoding itself stays outside the library.

use vstd::prelude::*;

verus! {

/// Error report of the download-queue service.
#[derive(Debug)]
pub struct Error {
    pub message: String,
    pub code: i32,
}

/// Response envelope of the download-queue service: at most one of `result`
/// and `error` is meaningful.
#[derive(Debug)]
pub struct Response<T> {
    pub id: String,
    pub result: Option<T>,
    pub error: Option<Error>,
}

/// Magnet metadata as the download queue reports it.
#[derive(Debug)]
pub struct MagnetInfoResult {
    pub files_tree: String,
    pub name: String,
    pub info_hash: String,
}

impl<T> Response<T> {
    /// Unpack the envelope: the result when there is one, otherwise the
    /// reported error, or an empty error when the service reported neither.
    pub fn into_result(self) -> (r: Result<T, Error>)
        ensures
            match r {
                Ok(v) => self.result == Some(v),
                Err(e) => {
                    &&& self.result is None
                    &&& match self.error {
                        Some(e0) => e == e0,
                        None => e.message@ == Seq::<char>::empty() && e.code == 0,
                    }
                },
            },
    {
        match self.result {
            Some(v) => Ok(v),
            None => match self.error {
                Some(e) => Err(e),
                None => Err(Error { message: String::new(), code: 0 }),
            },
        }
    }
}

} // verus!
