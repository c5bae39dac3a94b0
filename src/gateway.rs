//! The answer of the ingestion gateway: a code and a message.
use vstd::prelude::*;

verus! {

/// Code 0 is success, 1 a killmail that could not be read, others a store
/// failure.
#[derive(Debug, Clone)]
pub struct Status {
    pub code: u32,
    pub message: String,
}

impl Status {
    /// Success.
    pub fn ok() -> (r: Self)
        ensures
            r.code == 0,
            r.message@ == "Success"@,
    {
        Status { code: 0, message: String::from_str("Success") }
    }

    /// A killmail that could not be read.
    pub fn parse_error(msg: String) -> (r: Self)
        ensures
            r.code == 1,
            r.message@ == msg@,
    {
        Status { code: 1, message: msg }
    }

    pub fn from(code: u32, message: String) -> (r: Self)
        ensures
            r.code == code,
            r.message@ == message@,
    {
        Status { code, message }
    }
}

} // verus!
