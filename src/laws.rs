//! Laws that relate the operations of the store to one another.
use vstd::prelude::*;

use crate::document::{find_in_text, load, toml_document};
use crate::model::{
    add_result, document_of, from_document, keys_unique, last_key_index, lemma_last_key_index,
    lemma_push_unique, lemma_unique_key_index, lookup, password_in, put, raw_users_ok, resolve,
    set_user, store_of_document, store_wf, user_names, users_of, users_of_raw, DomainV, ErrorModel,
    StoreV, UsersV,
};

verus! {

/// Writing `(u, p)` into a domain's users keeps them unique and makes `p`
/// the password of `u`.
proof fn lemma_set_user(us: UsersV, u: Seq<char>, p: Seq<char>)
    requires
        keys_unique(us),
    ensures
        keys_unique(set_user(us, u, p)),
        password_in(set_user(us, u, p), u) == Some(p),
{
    lemma_last_key_index(us, u);
    let us2 = set_user(us, u, p);
    match last_key_index(us, u) {
        Some(j) => {
            assert forall|a: int, b: int| 0 <= a < b < us2.len() implies us2[a].0 != us2[b].0 by {
                assert(us2[a].0 == us[a].0 && us2[b].0 == us[b].0);
            }
            lemma_unique_key_index(us2, u, j);
        },
        None => {
            lemma_push_unique(us, (u, p));
            lemma_unique_key_index(us2, u, us.len() as int);
        },
    }
}

/// Writing `(d, u, p)` into a well-formed store keeps it well-formed and
/// makes `p` the password of `(d, u)`.
pub proof fn lemma_put_lookup(s: StoreV, d: Seq<char>, u: Seq<char>, p: Seq<char>)
    requires
        store_wf(s),
    ensures
        store_wf(put(s, d, u, p)),
        lookup(put(s, d, u, p), d, u) == Some(p),
{
    lemma_last_key_index(s, d);
    let s2 = put(s, d, u, p);
    match last_key_index(s, d) {
        Some(i) => {
            lemma_set_user(s[i].1, u, p);
            assert forall|a: int, b: int| 0 <= a < b < s2.len() implies s2[a].0 != s2[b].0 by {
                assert(s2[a].0 == s[a].0 && s2[b].0 == s[b].0);
            }
            assert forall|k: int| 0 <= k < s2.len() implies keys_unique(#[trigger] s2[k].1) by {
                if k != i {
                    assert(s2[k] == s[k]);
                }
            }
            lemma_unique_key_index(s2, d, i);
        },
        None => {
            lemma_push_unique(s, (d, seq![(u, p)]));
            assert forall|k: int| 0 <= k < s2.len() implies keys_unique(#[trigger] s2[k].1) by {
                if k < s.len() {
                    assert(s2[k] == s[k]);
                }
            }
            lemma_unique_key_index(s2, d, s.len() as int);
            lemma_unique_key_index(seq![(u, p)], u, 0);
        },
    }
}

/// Round trip: the document that a well-formed store is written out as
/// validates, and loads back as the same store; so does any text that reads
/// as that document.
pub proof fn lemma_round_trip(s: StoreV, text: Seq<char>)
    requires
        store_wf(s),
    ensures
        from_document(document_of(s)) == Ok::<StoreV, ErrorModel>(s),
        toml_document(text) == Some(document_of(s)) ==> load(Some(text)) == Ok::<
            StoreV,
            ErrorModel,
        >(s),
{
    let doc = document_of(s);
    assert forall|i: int, j: int| 0 <= i < j < doc.len() implies doc[i].0 != doc[j].0 by {
        assert(doc[i].0 == s[i].0 && doc[j].0 == s[j].0);
    }
    assert forall|i: int| 0 <= i < doc.len() implies (#[trigger] doc[i]).1 is Some
        && raw_users_ok(doc[i].1.unwrap()) by {
        let us = doc[i].1.unwrap();
        assert(keys_unique(s[i].1));
        assert forall|a: int, b: int| 0 <= a < b < us.len() implies us[a].0 != us[b].0 by {
            assert(us[a].0 == s[i].1[a].0 && us[b].0 == s[i].1[b].0);
        }
        assert forall|a: int| 0 <= a < us.len() implies (#[trigger] us[a]).1 is Some by {}
    }
    assert forall|i: int| 0 <= i < s.len() implies (#[trigger] store_of_document(doc)[i]) == s[i] by {
        assert(users_of_raw(doc[i].1.unwrap()) =~= s[i].1);
    }
    assert(store_of_document(doc) =~= s);
}

/// Adding to an empty store: the new pair resolves to its password.
pub proof fn lemma_add_new_domain(d: Seq<char>, u: Seq<char>, p: Seq<char>, force: bool)
    ensures
        add_result(Seq::empty(), d, u, p, force) matches Ok(s) && resolve(s, Some(d), Some(u))
            == Ok::<(Seq<char>, Seq<char>, Seq<char>), ErrorModel>((d, u, p)),
{
    lemma_put_lookup(Seq::empty(), d, u, p);
    assert(lookup(Seq::<DomainV>::empty(), d, u) is None);
}

/// Overwrite policy: adding over an existing pair fails with `EntryExists`
/// unless forced; forced, the new password is the one resolved.
pub proof fn lemma_overwrite_policy(
    s: StoreV,
    d: Seq<char>,
    u: Seq<char>,
    old_pw: Seq<char>,
    new_pw: Seq<char>,
)
    requires
        store_wf(s),
        lookup(s, d, u) == Some(old_pw),
    ensures
        add_result(s, d, u, new_pw, false) == Err::<StoreV, ErrorModel>(
            ErrorModel::EntryExists { domain: d, user: u },
        ),
        add_result(s, d, u, new_pw, true) matches Ok(s2) && store_wf(s2) && resolve(
            s2,
            Some(d),
            Some(u),
        ) == Ok::<(Seq<char>, Seq<char>, Seq<char>), ErrorModel>((d, u, new_pw)),
{
    lemma_put_lookup(s, d, u, new_pw);
}

/// A domain with a single user resolves to that user's entry when no user
/// is given.
pub proof fn lemma_single_user_resolves(s: StoreV, d: Seq<char>, u: Seq<char>, p: Seq<char>)
    requires
        users_of(s, d) == Some(seq![(u, p)]),
    ensures
        resolve(s, Some(d), None) == Ok::<(Seq<char>, Seq<char>, Seq<char>), ErrorModel>(
            (d, u, p),
        ),
{
}

/// A domain with several users is reported with all of their names, in
/// enumeration order, when no user is given.
pub proof fn lemma_multiple_users_ambiguous(s: StoreV, d: Seq<char>, us: UsersV)
    requires
        users_of(s, d) == Some(us),
        us.len() > 1,
    ensures
        resolve(s, Some(d), None) == Err::<(Seq<char>, Seq<char>, Seq<char>), ErrorModel>(
            ErrorModel::MultipleMatchingEntry { domain: d, user_list: user_names(us) },
        ),
{
}

/// Last match wins: when `d1` holding `u` is added before a new domain `d2`
/// holding `u`, a query for `u` alone resolves to `d2`'s entry.
pub proof fn lemma_last_match_wins(
    s: StoreV,
    d1: Seq<char>,
    d2: Seq<char>,
    u: Seq<char>,
    first_pw: Seq<char>,
    second_pw: Seq<char>,
)
    requires
        d1 != d2,
        users_of(s, d2) is None,
    ensures
        resolve(put(put(s, d1, u, first_pw), d2, u, second_pw), None, Some(u)) == Ok::<
            (Seq<char>, Seq<char>, Seq<char>),
            ErrorModel,
        >((d2, u, second_pw)),
{
    let s1 = put(s, d1, u, first_pw);
    lemma_last_key_index(s, d2);
    lemma_last_key_index(s, d1);
    lemma_last_key_index(s1, d2);
    if last_key_index(s1, d2) is Some {
        let i = last_key_index(s1, d2).unwrap();
        if i < s.len() {
            assert(s1[i].0 == s[i].0);
        }
    }
    let s2 = put(s1, d2, u, second_pw);
    assert(s2.last() == (d2, seq![(u, second_pw)]));
    lemma_unique_key_index(seq![(u, second_pw)], u, 0);
    assert(s2.drop_last() == s1);
}

/// A query with neither a domain nor a user fails with `NoneSpecified`,
/// whatever the store, and before the persisted text is read.
pub proof fn lemma_none_specified(s: StoreV, contents: Option<Seq<char>>)
    ensures
        resolve(s, None, None) == Err::<(Seq<char>, Seq<char>, Seq<char>), ErrorModel>(
            ErrorModel::NoneSpecified,
        ),
        find_in_text(contents, None, None) == Err::<(Seq<char>, Seq<char>, Seq<char>), ErrorModel>(
            ErrorModel::NoneSpecified,
        ),
{
}

/// A missing file loads as an empty store.
pub proof fn lemma_missing_file_is_empty()
    ensures
        load(None) == Ok::<StoreV, ErrorModel>(Seq::empty()),
{
}

} // verus!
