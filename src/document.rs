//! The persisted form of a store: a TOML document whose top-level keys are
//! domains, each a table from user names to password strings.
use vstd::prelude::*;

use crate::error::{opt_view, result_view, Entry, Error};
use crate::model::{
    add_result, from_document, resolve, DocumentV, EntryV, ErrorModel, RawDomainV, RawUserV, StoreV,
};
use crate::store::{domains_view, CredentialStore, DomainRecord};

verus! {

/// A user entry as read from a document, before validation.
pub struct RawUser {
    pub user: String,
    /// `None` where the document holds something other than a string.
    pub password: Option<String>,
}

impl View for RawUser {
    type V = RawUserV;

    open spec fn view(&self) -> RawUserV {
        (self.user@, opt_view(self.password))
    }
}

/// The model of a list of raw user entries.
pub open spec fn raw_users_view(v: Seq<RawUser>) -> Seq<RawUserV> {
    v.map_values(|u: RawUser| u@)
}

/// A domain entry as read from a document, before validation.
pub struct RawDomain {
    pub domain: String,
    /// `None` where the document holds something other than a table.
    pub users: Option<Vec<RawUser>>,
}

impl View for RawDomain {
    type V = RawDomainV;

    open spec fn view(&self) -> RawDomainV {
        (
            self.domain@,
            match self.users {
                Some(v) => Some(raw_users_view(v@)),
                None => None,
            },
        )
    }
}

/// The model of a raw document.
pub open spec fn raw_document_view(v: Seq<RawDomain>) -> DocumentV {
    v.map_values(|d: RawDomain| d@)
}


/// The raw document that `toml::from_str` reads from a text, domains and
/// users in document order; `None` where the text is not valid TOML.
pub uninterp spec fn toml_document(text: Seq<char>) -> Option<DocumentV>;

/// Relies on `toml::from_str` to read the text as a table, and on
/// `Value::as_table` and `Value::as_str` to tell tables and strings from
/// other values.
#[verifier::external_body]
fn parse_document(text: &str) -> (r: Option<Vec<RawDomain>>)
    ensures
        match r {
            Some(v) => toml_document(text@) == Some(raw_document_view(v@)),
            None => toml_document(text@) is None,
        },
{
    let table = toml::from_str::<toml::Table>(text).ok()?;
    Some(table.into_iter().map(|(domain, value)| RawDomain {
        domain,
        users: value.as_table().map(|users| users.iter().map(|(user, pwd)| RawUser {
            user: user.clone(),
            password: pwd.as_str().map(str::to_owned),
        }).collect()),
    }).collect())
}

/// The text that `toml::to_string` writes for a store, one table per
/// domain; `None` where it reports an error.
pub uninterp spec fn toml_text(s: StoreV) -> Option<Seq<char>>;

/// Relies on `toml::to_string` to write the store as a table of tables of
/// strings, in enumeration order.
#[verifier::external_body]
fn render_document(domains: &Vec<DomainRecord>) -> (r: Option<String>)
    ensures
        match r {
            Some(t) => toml_text(domains_view(domains@)) == Some(t@),
            None => toml_text(domains_view(domains@)) is None,
        },
{
    let table: toml::Table = domains.iter().map(|d| (
        d.domain.clone(),
        toml::Value::Table(d.users.iter().map(|c| (
            c.user.clone(),
            toml::Value::String(c.password.clone()),
        )).collect()),
    )).collect();
    toml::to_string(&table).ok()
}

/// The model of the persisted text, `None` where no file exists.
pub open spec fn opt_str_view(o: Option<&str>) -> Option<Seq<char>> {
    match o {
        Some(t) => Some(t@),
        None => None,
    }
}

/// Loading a store: an absent file is an empty store; otherwise the text
/// must read as TOML and validate as a two-level mapping of strings.
pub open spec fn load(contents: Option<Seq<char>>) -> Result<StoreV, ErrorModel> {
    match contents {
        None => Ok(Seq::empty()),
        Some(t) => match toml_document(t) {
            None => Err(ErrorModel::CorruptStore),
            Some(doc) => from_document(doc),
        },
    }
}

/// Saving a store: the text to write in place of the whole file.
pub open spec fn save(s: StoreV) -> Result<Seq<char>, ErrorModel> {
    match toml_text(s) {
        Some(t) => Ok(t),
        None => Err(ErrorModel::StoreWriteError),
    }
}

/// Adding to a persisted store: load, add, and the text to write back.
pub open spec fn add_to_text(
    contents: Option<Seq<char>>,
    d: Seq<char>,
    u: Seq<char>,
    p: Seq<char>,
    force: bool,
) -> Result<Seq<char>, ErrorModel> {
    match load(contents) {
        Err(e) => Err(e),
        Ok(s) => match add_result(s, d, u, p, force) {
            Err(e) => Err(e),
            Ok(s2) => save(s2),
        },
    }
}

/// Resolving a query against a persisted store; a query with neither a
/// domain nor a user fails before the store is read.
pub open spec fn find_in_text(
    contents: Option<Seq<char>>,
    d: Option<Seq<char>>,
    u: Option<Seq<char>>,
) -> Result<EntryV, ErrorModel> {
    if d is None && u is None {
        Err(ErrorModel::NoneSpecified)
    } else {
        match load(contents) {
            Err(e) => Err(e),
            Ok(s) => resolve(s, d, u),
        }
    }
}

/// Loads the store from the persisted text; `None` stands for a missing
/// file, which gives an empty store.
pub fn read_toml_table(contents: Option<&str>) -> (r: Result<CredentialStore, Error>)
    ensures
        match load(opt_str_view(contents)) {
            Ok(s) => r matches Ok(st) && st@ == s && st.wf(),
            Err(e) => r matches Err(x) && x@ == e,
        },
{
    match contents {
        None => Ok(CredentialStore::new()),
        Some(text) => match parse_document(text) {
            None => Err(Error::CorruptStore),
            Some(raw) => CredentialStore::from_document(&raw),
        },
    }
}

/// The text that persists `store`, to be written over the whole file.
pub fn save_table_to_toml(store: &CredentialStore) -> (r: Result<String, Error>)
    ensures
        result_view(r) == save(store@),
{
    match render_document(store.records()) {
        Some(text) => Ok(text),
        None => Err(Error::StoreWriteError),
    }
}

/// Adds `(domain, user, password)` to the store persisted as `contents`
/// and returns the text to write back; nothing is to be written on failure.
pub fn add_entry(
    contents: Option<&str>,
    domain: &str,
    user: &str,
    password: &str,
    force: bool,
) -> (r: Result<String, Error>)
    ensures
        result_view(r) == add_to_text(opt_str_view(contents), domain@, user@, password@, force),
{
    let mut store = read_toml_table(contents)?;
    store.add(domain, user, password, force)?;
    save_table_to_toml(&store)
}

/// Resolves a query against the store persisted as `contents`.
pub fn find_entry(contents: Option<&str>, domain: &Option<String>, user: &Option<String>) -> (r:
    Result<Entry, Error>)
    ensures
        result_view(r) == find_in_text(opt_str_view(contents), opt_view(*domain), opt_view(*user)),
{
    if domain.is_none() && user.is_none() {
        return Err(Error::NoneSpecified);
    }
    let store = read_toml_table(contents)?;
    store.resolve(domain, user)
}

} // verus!
