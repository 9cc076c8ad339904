//! The mathematical model of a credential store and of the operations on it.
use vstd::prelude::*;

verus! {

/// A user record: (user, password).
pub type UserV = (Seq<char>, Seq<char>);

/// The users of one domain, in enumeration order.
pub type UsersV = Seq<UserV>;

/// A domain record: (domain, users).
pub type DomainV = (Seq<char>, UsersV);

/// A whole store, domains in enumeration order.
pub type StoreV = Seq<DomainV>;

/// A found credential: (domain, user, password).
pub type EntryV = (Seq<char>, Seq<char>, Seq<char>);

/// The model of every failure the repository and the resolver report.
pub enum ErrorModel {
    NoneSpecified,
    MultipleMatchingEntry { domain: Seq<char>, user_list: Seq<Seq<char>> },
    NoMatch { user: Seq<char>, domain: Seq<char> },
    NoMatchingDomain { domain: Seq<char> },
    NoMatchingUser { user: Seq<char> },
    EntryExists { domain: Seq<char>, user: Seq<char> },
    CorruptStore,
    StoreWriteError,
}

/// The index of the last record of `s` whose key is `k`.
pub open spec fn last_key_index<V>(s: Seq<(Seq<char>, V)>, k: Seq<char>) -> Option<int>
    decreases s.len(),
{
    if s.len() == 0 {
        None
    } else if s.last().0 == k {
        Some(s.len() - 1)
    } else {
        last_key_index(s.drop_last(), k)
    }
}

/// No two records of `s` share a key.
pub open spec fn keys_unique<V>(s: Seq<(Seq<char>, V)>) -> bool {
    forall|i: int, j: int| 0 <= i < j < s.len() ==> s[i].0 != s[j].0
}

/// A well-formed store: domains are unique, and users are unique within
/// each domain.
pub open spec fn store_wf(s: StoreV) -> bool {
    &&& keys_unique(s)
    &&& forall|i: int| 0 <= i < s.len() ==> keys_unique(#[trigger] s[i].1)
}

/// The users of domain `d`, if the store holds it.
pub open spec fn users_of(s: StoreV, d: Seq<char>) -> Option<UsersV> {
    match last_key_index(s, d) {
        Some(i) => Some(s[i].1),
        None => None,
    }
}

/// The password of user `u` within one domain's users.
pub open spec fn password_in(us: UsersV, u: Seq<char>) -> Option<Seq<char>> {
    match last_key_index(us, u) {
        Some(j) => Some(us[j].1),
        None => None,
    }
}

/// The password stored for `(d, u)`.
pub open spec fn lookup(s: StoreV, d: Seq<char>, u: Seq<char>) -> Option<Seq<char>> {
    match users_of(s, d) {
        Some(us) => password_in(us, u),
        None => None,
    }
}

/// The user names of one domain, in enumeration order.
pub open spec fn user_names(us: UsersV) -> Seq<Seq<char>> {
    us.map_values(|p: UserV| p.0)
}

/// The users of a domain after `(u, p)` is written into it: an existing
/// user keeps its place and takes the new password, a new one is appended.
pub open spec fn set_user(us: UsersV, u: Seq<char>, p: Seq<char>) -> UsersV {
    match last_key_index(us, u) {
        Some(j) => us.update(j, (u, p)),
        None => us.push((u, p)),
    }
}

/// The store after `(d, u, p)` is written into it: a new domain is appended
/// with `u` as its single user.
pub open spec fn put(s: StoreV, d: Seq<char>, u: Seq<char>, p: Seq<char>) -> StoreV {
    match last_key_index(s, d) {
        Some(i) => s.update(i, (d, set_user(s[i].1, u, p))),
        None => s.push((d, seq![(u, p)])),
    }
}

/// The outcome of adding `(d, u, p)`: refused when the pair already exists
/// and `force` is not set, written otherwise.
pub open spec fn add_result(s: StoreV, d: Seq<char>, u: Seq<char>, p: Seq<char>, force: bool) -> Result<
    StoreV,
    ErrorModel,
> {
    if lookup(s, d, u).is_some() && !force {
        Err(ErrorModel::EntryExists { domain: d, user: u })
    } else {
        Ok(put(s, d, u, p))
    }
}

/// The index of the last domain, in enumeration order, that holds user `u`.
pub open spec fn last_domain_with_user(s: StoreV, u: Seq<char>) -> Option<int>
    decreases s.len(),
{
    if s.len() == 0 {
        None
    } else if password_in(s.last().1, u).is_some() {
        Some(s.len() - 1)
    } else {
        last_domain_with_user(s.drop_last(), u)
    }
}

/// What a query for an optional domain and an optional user resolves to.
pub open spec fn resolve(s: StoreV, d: Option<Seq<char>>, u: Option<Seq<char>>) -> Result<
    EntryV,
    ErrorModel,
> {
    match (d, u) {
        (Some(d), Some(u)) => match users_of(s, d) {
            None => Err(ErrorModel::NoMatchingDomain { domain: d }),
            Some(us) => match password_in(us, u) {
                None => Err(ErrorModel::NoMatch { user: u, domain: d }),
                Some(p) => Ok((d, u, p)),
            },
        },
        (Some(d), None) => match users_of(s, d) {
            None => Err(ErrorModel::NoMatchingDomain { domain: d }),
            Some(us) => if us.len() == 1 {
                Ok((d, us[0].0, us[0].1))
            } else {
                Err(ErrorModel::MultipleMatchingEntry { domain: d, user_list: user_names(us) })
            },
        },
        (None, Some(u)) => match last_domain_with_user(s, u) {
            None => Err(ErrorModel::NoMatchingUser { user: u }),
            Some(i) => Ok((s[i].0, u, password_in(s[i].1, u).unwrap())),
        },
        (None, None) => Err(ErrorModel::NoneSpecified),
    }
}

/// Where `last_key_index` points, the key is found; where it finds nothing,
/// no record has the key.
pub proof fn lemma_last_key_index<V>(s: Seq<(Seq<char>, V)>, k: Seq<char>)
    ensures
        match last_key_index(s, k) {
            Some(i) => 0 <= i < s.len() && s[i].0 == k && forall|j: int|
                i < j < s.len() ==> s[j].0 != k,
            None => forall|j: int| 0 <= j < s.len() ==> s[j].0 != k,
        },
    decreases s.len(),
{
    if s.len() > 0 && s.last().0 != k {
        lemma_last_key_index(s.drop_last(), k);
        assert forall|j: int| 0 <= j < s.len() - 1 implies s.drop_last()[j] == s[j] by {}
    }
}

/// With unique keys, any record holding the key is the one found.
pub proof fn lemma_unique_key_index<V>(s: Seq<(Seq<char>, V)>, k: Seq<char>, i: int)
    requires
        keys_unique(s),
        0 <= i < s.len(),
        s[i].0 == k,
    ensures
        last_key_index(s, k) == Some(i),
{
    lemma_last_key_index(s, k);
}

/// Scanning a prefix one record longer.
pub proof fn lemma_last_key_index_take<V>(s: Seq<(Seq<char>, V)>, k: Seq<char>, i: int)
    requires
        0 < i <= s.len(),
    ensures
        last_key_index(s.take(i), k) == if s[i - 1].0 == k {
            Some(i - 1)
        } else {
            last_key_index(s.take(i - 1), k)
        },
{
    assert(s.take(i).drop_last() =~= s.take(i - 1));
}

/// Appending a record whose key is new keeps the keys unique.
pub proof fn lemma_push_unique<V>(s: Seq<(Seq<char>, V)>, x: (Seq<char>, V))
    requires
        keys_unique(s),
        last_key_index(s, x.0) is None,
    ensures
        keys_unique(s.push(x)),
{
    lemma_last_key_index(s, x.0);
    assert forall|i: int, j: int| 0 <= i < j < s.push(x).len() implies s.push(x)[i].0 != s.push(
        x,
    )[j].0 by {
        if j == s.len() {
            assert(s.push(x)[i] == s[i]);
        } else {
            assert(s.push(x)[i] == s[i] && s.push(x)[j] == s[j]);
        }
    }
}


/// A user entry as read from a document: the password is `None` where the
/// document holds something other than a string.
pub type RawUserV = (Seq<char>, Option<Seq<char>>);

/// A domain entry as read from a document: the users are `None` where the
/// document holds something other than a table.
pub type RawDomainV = (Seq<char>, Option<Seq<RawUserV>>);

/// A document as read from the persisted text, before validation.
pub type DocumentV = Seq<RawDomainV>;

/// Every user of a raw domain has a string password, and no user repeats.
pub open spec fn raw_users_ok(us: Seq<RawUserV>) -> bool {
    &&& keys_unique(us)
    &&& forall|j: int| 0 <= j < us.len() ==> (#[trigger] us[j]).1 is Some
}

/// A document is a two-level mapping of strings: every domain holds a table
/// of string passwords, and no key repeats at either level.
pub open spec fn document_ok(doc: DocumentV) -> bool {
    &&& keys_unique(doc)
    &&& forall|i: int|
        0 <= i < doc.len() ==> (#[trigger] doc[i]).1 is Some && raw_users_ok(doc[i].1.unwrap())
}

/// The users that a validated raw domain stands for.
pub open spec fn users_of_raw(us: Seq<RawUserV>) -> UsersV {
    us.map_values(|x: RawUserV| (x.0, x.1.unwrap()))
}

/// The store that a validated document stands for.
pub open spec fn store_of_document(doc: DocumentV) -> StoreV {
    doc.map_values(|x: RawDomainV| (x.0, users_of_raw(x.1.unwrap())))
}

/// Loading a document: the store it stands for, or `CorruptStore`.
pub open spec fn from_document(doc: DocumentV) -> Result<StoreV, ErrorModel> {
    if document_ok(doc) {
        Ok(store_of_document(doc))
    } else {
        Err(ErrorModel::CorruptStore)
    }
}

/// The document that a store is written out as.
pub open spec fn document_of(s: StoreV) -> DocumentV {
    s.map_values(|x: DomainV| (x.0, Some(x.1.map_values(|y: UserV| (y.0, Some(y.1))))))
}


/// Two sequences with the same keys, position by position, find a key at
/// the same place.
pub proof fn lemma_keys_match<V, W>(a: Seq<(Seq<char>, V)>, b: Seq<(Seq<char>, W)>, k: Seq<char>)
    requires
        a.len() == b.len(),
        forall|i: int| 0 <= i < a.len() ==> (#[trigger] a[i]).0 == b[i].0,
    ensures
        last_key_index(a, k) == last_key_index(b, k),
    decreases a.len(),
{
    if a.len() > 0 {
        assert(a.last().0 == b.last().0);
        lemma_keys_match(a.drop_last(), b.drop_last(), k);
    }
}

} // verus!
