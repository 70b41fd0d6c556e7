//! The crates.io web API client, used to fetch a package's description
//! and metadata for presentation. Every call goes over the network, so
//! no outcome is a function of the arguments; the contracts say what
//! holds of every outcome.

use vstd::prelude::*;

verus! {

#[verifier::external_type_specification]
#[verifier::external_body]
pub struct ExRegistry(crates_io::Registry);

#[verifier::external_type_specification]
#[verifier::external_body]
pub struct ExApiCrate(crates_io::Crate);

/// Why no package record came back.
#[derive(Clone, Copy, Debug, PartialEq, Eq, Structural)]
pub enum ClientError {
    /// The API request could not be made or failed.
    RequestFailed,
    /// The API knows no package of the name.
    NotFound,
}

/// Relies on curl::easy::Easy::new, curl::easy::Easy::useragent and
/// crates_io::Registry::new_handle: an API handle for crates.io carrying
/// this tool's user agent, absent when the handle cannot be configured.
#[verifier::external_body]
fn open_api_registry() -> (r: Option<crates_io::Registry>)
{
    let mut handle = curl::easy::Easy::new();
    if handle.useragent("cap package manager (github.com/splittydev/cap)").is_err() {
        return None;
    }
    let host = String::from("https://crates.io");
    Some(crates_io::Registry::new_handle(host, None, handle, false))
}

/// Relies on crates_io::Registry::search: asks the crates.io API for the
/// packages matching a query, up to the given count; the outcome depends
/// on the remote service.
#[verifier::external_body]
fn api_search(reg: &mut crates_io::Registry, query: &str, limit: u32) -> (r: Option<
    Vec<crates_io::Crate>,
>)
{
    match reg.search(query, limit) {
        Ok((crates, _total)) => Some(crates),
        Err(_) => None,
    }
}

/// A client of the crates.io web API.
pub struct CratesIoClient {
    registry: crates_io::Registry,
}

impl CratesIoClient {
    /// Open a client; nothing when the underlying handle cannot be set
    /// up.
    pub fn new() -> (r: Option<CratesIoClient>) {
        match open_api_registry() {
            Some(registry) => Some(CratesIoClient { registry }),
            None => None,
        }
    }

    /// The API record of a package: the first result of searching for
    /// its name. The request failing and the name being unknown are
    /// distinct outcomes, the first a hard error, the second soft.
    /// Whatever list the search returned, the result is that list's
    /// first record, or "not found" on an empty list, as `first_record`
    /// states exactly.
    pub fn get_package_info(&mut self, package_name: &str) -> (r: Result<
        crates_io::Crate,
        ClientError,
    >)
        ensures
            r matches Err(e) ==> e is RequestFailed || e is NotFound,
    {
        let found = match api_search(&mut self.registry, package_name, 1) {
            Some(crates) => crates,
            None => {
                return Err(ClientError::RequestFailed);
            },
        };
        Self::first_record(found)
    }

    /// Pick the package record a search answer yields: the first record
    /// of a non-empty list; "not found" exactly when the list is empty.
    pub fn first_record(crates: Vec<crates_io::Crate>) -> (r: Result<
        crates_io::Crate,
        ClientError,
    >)
        ensures
            r is Ok <==> crates@.len() > 0,
            r matches Ok(c) ==> c == crates@[0],
            r matches Err(e) ==> e is NotFound,
    {
        let mut crates = crates;
        if crates.len() == 0 {
            Err(ClientError::NotFound)
        } else {
            Ok(crates.remove(0))
        }
    }
}

} // verus!
