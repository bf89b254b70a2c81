//! Environment variables.
//!
//! Reading the process environment happens outside this crate; these
//! functions decide what a looked-up value means. A lookup is `None` when
//! the variable is not set, `Some(None)` when its value is not Unicode, and
//! `Some(Some(text))` otherwise.

use vstd::prelude::*;

use crate::errors::Error;
use vstd::string::StrSliceExecFns;

verus! {

/// An optional environment variable as a string: a missing or empty variable
/// gives `Ok(None)`; a value that is not Unicode is an error.
pub fn maybe_var(key: &str, lookup: Option<Option<String>>) -> (res: Result<Option<String>, Error>)
    ensures
        match lookup {
            None => res matches Ok(None),
            Some(None) => res matches Err(Error::EnvVarNotUnicode(k)) && k@ == key@,
            Some(Some(v)) => if v@.len() == 0 {
                res matches Ok(None)
            } else {
                res matches Ok(Some(t)) && t@ == v@
            },
        },
{
    match lookup {
        None => Ok(None),
        Some(None) => Err(Error::EnvVarNotUnicode(crate::text::owned(key))),
        Some(Some(v)) => if v.as_str().unicode_len() == 0 {
            Ok(None)
        } else {
            Ok(Some(v))
        },
    }
}

/// A required environment variable as a string: a missing, empty or
/// non-Unicode variable is an error.
pub fn require_var(key: &str, lookup: Option<Option<String>>) -> (res: Result<String, Error>)
    ensures
        match lookup {
            None => res matches Err(Error::MissingEnvVar(k)) && k@ == key@,
            Some(None) => res matches Err(Error::EnvVarNotUnicode(k)) && k@ == key@,
            Some(Some(v)) => if v@.len() == 0 {
                res matches Err(Error::MissingEnvVar(k)) && k@ == key@
            } else {
                res matches Ok(t) && t@ == v@
            },
        },
{
    match maybe_var(key, lookup) {
        Ok(Some(v)) => Ok(v),
        Ok(None) => Err(Error::MissingEnvVar(crate::text::owned(key))),
        Err(e) => Err(e),
    }
}

} // verus!
