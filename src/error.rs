//! The failures that the repository and the resolver report.
use vstd::prelude::*;

use crate::model::ErrorModel;

verus! {

/// Every failure of adding, resolving, loading or saving.
#[derive(Debug, Clone, PartialEq, Eq)]
pub enum Error {
    /// Neither a domain nor a user was given to a lookup.
    NoneSpecified,
    /// The domain holds more than one user and no user was given.
    MultipleMatchingEntry { domain: String, user_list: Vec<String> },
    /// The domain exists but does not hold the user.
    NoMatch { user: String, domain: String },
    /// The domain is not in the store.
    NoMatchingDomain { domain: String },
    /// No domain holds the user.
    NoMatchingUser { user: String },
    /// The pair exists and overwriting was not asked for.
    EntryExists { domain: String, user: String },
    /// The persisted document is not a two-level mapping of strings.
    CorruptStore,
    /// The store could not be written out.
    StoreWriteError,
}

/// The names of a list of users, as a sequence of strings.
pub open spec fn names_view(v: Seq<String>) -> Seq<Seq<char>> {
    v.map_values(|s: String| s@)
}

/// The model of an optional string.
pub open spec fn opt_view(o: Option<String>) -> Option<Seq<char>> {
    match o {
        Some(s) => Some(s@),
        None => None,
    }
}

impl View for Error {
    type V = ErrorModel;

    open spec fn view(&self) -> ErrorModel {
        match self {
            Error::NoneSpecified => ErrorModel::NoneSpecified,
            Error::MultipleMatchingEntry { domain, user_list } => ErrorModel::MultipleMatchingEntry {
                domain: domain@,
                user_list: names_view(user_list@),
            },
            Error::NoMatch { user, domain } => ErrorModel::NoMatch { user: user@, domain: domain@ },
            Error::NoMatchingDomain { domain } => ErrorModel::NoMatchingDomain { domain: domain@ },
            Error::NoMatchingUser { user } => ErrorModel::NoMatchingUser { user: user@ },
            Error::EntryExists { domain, user } => ErrorModel::EntryExists {
                domain: domain@,
                user: user@,
            },
            Error::CorruptStore => ErrorModel::CorruptStore,
            Error::StoreWriteError => ErrorModel::StoreWriteError,
        }
    }
}

/// A credential found by a lookup: never stored as such, always read out of
/// a store.
#[derive(Debug, Clone, PartialEq, Eq)]
pub struct Entry {
    pub domain: String,
    pub user: String,
    pub pwd: String,
}

impl View for Entry {
    type V = (Seq<char>, Seq<char>, Seq<char>);

    open spec fn view(&self) -> (Seq<char>, Seq<char>, Seq<char>) {
        (self.domain@, self.user@, self.pwd@)
    }
}

/// The model of a result whose error is an `Error`.
pub open spec fn result_view<T: View>(r: Result<T, Error>) -> Result<T::V, ErrorModel> {
    match r {
        Ok(t) => Ok(t@),
        Err(e) => Err(e@),
    }
}

} // verus!
