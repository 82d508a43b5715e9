use vstd::prelude::*;

verus! {

/// The one-time initialization argument: the admin principal to record and
/// the initial repository names.
#[derive(Debug)]
pub struct ConfigData {
    pub admin: String,
    pub repos: Vec<String>,
}

} // verus!
