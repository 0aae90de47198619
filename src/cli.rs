//! The administration commands' arguments, as plain values.
use crate::api::Error;
use vstd::prelude::*;

verus! {

/// View or edit site configuration.
#[derive(Debug, Clone)]
pub enum SitesCommands {
    List,
    Get { site: String },
    Remove { site: String },
    Add(SitesCommandArgs),
    Update(SitesCommandArgs),
}

#[derive(Debug, Clone)]
pub struct SitesCommandArgs {
    pub site: String,
    pub private: Option<bool>,
    pub anonymous: Option<bool>,
    pub moderated: Option<bool>,
}

/// Manage moderators.
#[derive(Debug, Clone)]
pub enum ModeratorsCommands {
    List,
    Add(ModeratorsAddCommandArgs),
    Remove { name: String },
    Update(ModeratorsUpdateCommandArgs),
}

#[derive(Debug, Clone)]
pub struct ModeratorsAddCommandArgs {
    pub name: String,
    pub password: String,
    pub avatar: Option<String>,
    pub op: Option<bool>,
}

#[derive(Debug, Clone)]
pub struct ModeratorsUpdateCommandArgs {
    pub name: String,
    pub password: Option<String>,
    pub avatar: Option<String>,
    pub op: Option<bool>,
}

/// Relies on `std::path::Path::is_file`: whether the path names a regular
/// file now. What is on disk may change, so nothing is promised.
#[verifier::external_body]
fn path_is_file(s: &str) -> (r: bool) {
    std::path::Path::new(s).is_file()
}

/// The outcome of a file argument, once the disk was asked whether it names
/// a file.
pub fn file_argument(s: &str, is_file: bool) -> (r: Result<String, Error>)
    ensures
        is_file ==> (r matches Ok(p) && p@ == s@),
        !is_file ==> r == Err::<String, Error>(Error::NotFound),
{
    if is_file {
        Ok(s.to_owned())
    } else {
        Err(Error::NotFound)
    }
}

/// Accepts a path argument that names an existing file.
pub fn valid_file(s: &str) -> (r: Result<String, Error>)
    ensures
        r matches Ok(p) ==> p@ == s@,
        r is Err ==> r == Err::<String, Error>(Error::NotFound),
{
    let exists = path_is_file(s);
    file_argument(s, exists)
}

} // verus!
