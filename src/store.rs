//! The credential repository: an ordered store of domains, each holding an
//! ordered list of users with their passwords.
use vstd::prelude::*;

use crate::document::{raw_document_view, raw_users_view, RawDomain};
use crate::error::{names_view, opt_view, result_view, Entry, Error};
use crate::model::{
    add_result, document_ok, from_document, keys_unique, last_domain_with_user, last_key_index,
    lemma_keys_match, lemma_last_key_index, lemma_last_key_index_take, lemma_push_unique,
    password_in, put, raw_users_ok, resolve, set_user, store_of_document, store_wf, user_names,
    users_of_raw, DomainV, StoreV, UserV, UsersV,
};

verus! {

/// One user of a domain and the password stored for it, kept verbatim.
pub struct Credential {
    pub user: String,
    pub password: String,
}

impl View for Credential {
    type V = UserV;

    open spec fn view(&self) -> UserV {
        (self.user@, self.password@)
    }
}

/// One domain and its users, in the order they were added.
pub struct DomainRecord {
    pub domain: String,
    pub users: Vec<Credential>,
}

/// The model of a list of credentials.
pub open spec fn users_view(v: Seq<Credential>) -> UsersV {
    v.map_values(|c: Credential| c@)
}

impl View for DomainRecord {
    type V = DomainV;

    open spec fn view(&self) -> DomainV {
        (self.domain@, users_view(self.users@))
    }
}

/// One line of a listing: a domain and the names of its users, without
/// passwords.
pub struct DomainUsers {
    pub domain: String,
    pub users: Vec<String>,
}

/// The credential store: domains in enumeration order, each key unique.
pub struct CredentialStore {
    domains: Vec<DomainRecord>,
}

/// The model of a list of domain records.
pub open spec fn domains_view(v: Seq<DomainRecord>) -> StoreV {
    v.map_values(|d: DomainRecord| d@)
}

impl View for CredentialStore {
    type V = StoreV;

    closed spec fn view(&self) -> StoreV {
        domains_view(self.domains@)
    }
}

/// The index of the last credential of `users` for `user`.
pub fn find_user(users: &Vec<Credential>, user: &String) -> (r: Option<usize>)
    ensures
        match r {
            Some(j) => last_key_index(users_view(users@), user@) == Some(j as int),
            None => last_key_index(users_view(users@), user@) is None,
        },
{
    let ghost s = users_view(users@);
    assert(s.take(s.len() as int) =~= s);
    let mut i: usize = users.len();
    while i > 0
        invariant
            i <= users.len(),
            s == users_view(users@),
            last_key_index(s, user@) == last_key_index(s.take(i as int), user@),
        decreases i,
    {
        proof {
            lemma_last_key_index_take(s, user@, i as int);
        }
        if users[i - 1].user == *user {
            return Some(i - 1);
        }
        i = i - 1;
    }
    assert(s.take(0) =~= Seq::<UserV>::empty());
    None
}

/// The index of the last record of `domains` for `domain`.
pub fn find_domain(domains: &Vec<DomainRecord>, domain: &String) -> (r: Option<usize>)
    ensures
        match r {
            Some(i) => last_key_index(domains_view(domains@), domain@) == Some(i as int),
            None => last_key_index(domains_view(domains@), domain@) is None,
        },
{
    let ghost s = domains_view(domains@);
    assert(s.take(s.len() as int) =~= s);
    let mut i: usize = domains.len();
    while i > 0
        invariant
            i <= domains.len(),
            s == domains_view(domains@),
            last_key_index(s, domain@) == last_key_index(s.take(i as int), domain@),
        decreases i,
    {
        proof {
            lemma_last_key_index_take(s, domain@, i as int);
        }
        if domains[i - 1].domain == *domain {
            return Some(i - 1);
        }
        i = i - 1;
    }
    assert(s.take(0) =~= Seq::<DomainV>::empty());
    None
}

impl CredentialStore {
    /// The store holds no duplicate domain, and no domain a duplicate user.
    pub open spec fn wf(&self) -> bool {
        store_wf(self@)
    }

    /// An empty store.
    pub fn new() -> (r: CredentialStore)
        ensures
            r@ == Seq::<DomainV>::empty(),
            r.wf(),
    {
        let r = CredentialStore { domains: Vec::new() };
        assert(r@ =~= Seq::<DomainV>::empty());
        r
    }

    /// The domain records, in enumeration order.
    pub fn records(&self) -> (r: &Vec<DomainRecord>)
        ensures
            domains_view(r@) == self@,
    {
        &self.domains
    }

    /// The number of domains.
    pub fn len(&self) -> (r: usize)
        ensures
            r == self@.len(),
    {
        self.domains.len()
    }

    /// Whether the store holds no domain.
    pub fn is_empty(&self) -> (r: bool)
        ensures
            r == (self@.len() == 0),
    {
        self.domains.len() == 0
    }
}


/// The names of `users`, in enumeration order.
fn user_list(users: &Vec<Credential>) -> (r: Vec<String>)
    ensures
        names_view(r@) == user_names(users_view(users@)),
{
    let mut r: Vec<String> = Vec::new();
    let mut i: usize = 0;
    while i < users.len()
        invariant
            i <= users.len(),
            r@.len() == i,
            forall|k: int| 0 <= k < i ==> #[trigger] r@[k]@ == users@[k].user@,
        decreases users.len() - i,
    {
        r.push(users[i].user.clone());
        i = i + 1;
    }
    assert(names_view(r@) =~= user_names(users_view(users@)));
    r
}

/// Scanning a prefix of the domains one record longer for a user.
proof fn lemma_last_domain_with_user_take(s: StoreV, u: Seq<char>, i: int)
    requires
        0 < i <= s.len(),
    ensures
        last_domain_with_user(s.take(i), u) == if password_in(s[i - 1].1, u) is Some {
            Some(i - 1)
        } else {
            last_domain_with_user(s.take(i - 1), u)
        },
{
    assert(s.take(i).drop_last() =~= s.take(i - 1));
}

impl CredentialStore {
    /// Writes `(domain, user, password)` into the store. A new domain is
    /// appended with this one user, a new user is appended to its domain.
    /// An existing pair is overwritten only when `force` is set; otherwise
    /// the call fails with `EntryExists` and the store is left as it was.
    /// Names are matched exactly; an empty name is stored like any other.
    pub fn add(&mut self, domain: &str, user: &str, password: &str, force: bool) -> (r: Result<
        (),
        Error,
    >)
        requires
            old(self).wf(),
        ensures
            final(self).wf(),
            match add_result(old(self)@, domain@, user@, password@, force) {
                Ok(s) => r is Ok && final(self)@ == s,
                Err(e) => r matches Err(x) && x@ == e && final(self)@ == old(self)@,
            },
    {
        let d = domain.to_owned();
        let u = user.to_owned();
        let p = password.to_owned();
        let ghost s = self@;
        match find_domain(&self.domains, &d) {
            Some(i) => {
                let ghost us = s[i as int].1;
                proof {
                    lemma_last_key_index(s, d@);
                }
                assert(self.domains@[i as int]@ == s[i as int]);
                match find_user(&self.domains[i].users, &u) {
                    Some(j) => {
                        proof {
                            lemma_last_key_index(us, u@);
                        }
                        if !force {
                            return Err(Error::EntryExists { domain: d, user: u });
                        }
                        self.domains[i].users[j].password = p;
                        assert(users_view(self.domains@[i as int].users@) =~= set_user(us, u@, p@));
                        assert(self@ =~= put(s, d@, u@, p@));
                    },
                    None => {
                        self.domains[i].users.push(Credential { user: u, password: p });
                        assert(users_view(self.domains@[i as int].users@) =~= set_user(us, u@, p@));
                        assert(self@ =~= put(s, d@, u@, p@));
                        proof {
                            lemma_push_unique(us, (u@, p@));
                        }
                    },
                }
                assert forall|k: int| 0 <= k < self@.len() implies keys_unique(
                    #[trigger] self@[k].1,
                ) by {
                    if k != i {
                        assert(self@[k] == s[k]);
                    }
                }
            },
            None => {
                let mut users: Vec<Credential> = Vec::new();
                users.push(Credential { user: u, password: p });
                self.domains.push(DomainRecord { domain: d, users });
                assert(users_view(users@) =~= seq![(u@, p@)]);
                assert(self@ =~= put(s, d@, u@, p@));
                proof {
                    lemma_push_unique(s, (d@, seq![(u@, p@)]));
                }
                assert forall|k: int| 0 <= k < self@.len() implies keys_unique(
                    #[trigger] self@[k].1,
                ) by {
                    if k < s.len() {
                        assert(self@[k] == s[k]);
                    }
                }
            },
        }
        Ok(())
    }
}


impl CredentialStore {
    /// Resolves a query for an optional domain and an optional user to one
    /// entry. With both given, the pair is looked up. With a domain alone,
    /// its single user is taken, and a domain with any other number of users
    /// is reported with all their names. With a user alone, the last domain
    /// in enumeration order that holds the user wins. With neither, the
    /// query fails with `NoneSpecified`.
    pub fn resolve(&self, domain: &Option<String>, user: &Option<String>) -> (r: Result<
        Entry,
        Error,
    >)
        ensures
            result_view(r) == resolve(self@, opt_view(*domain), opt_view(*user)),
    {
        let ghost s = self@;
        match domain {
            Some(d) => match find_domain(&self.domains, d) {
                None => Err(Error::NoMatchingDomain { domain: d.clone() }),
                Some(i) => {
                    proof {
                        lemma_last_key_index(s, d@);
                    }
                    let users = &self.domains[i].users;
                    assert(users_view(users@) == s[i as int].1);
                    match user {
                        Some(u) => match find_user(users, u) {
                            None => Err(Error::NoMatch { user: u.clone(), domain: d.clone() }),
                            Some(j) => {
                                proof {
                                    lemma_last_key_index(users_view(users@), u@);
                                }
                                Ok(
                                Entry {
                                    domain: d.clone(),
                                    user: u.clone(),
                                    pwd: users[j].password.clone(),
                                },
                            )
                            },
                        },
                        None => {
                            if users.len() == 1 {
                                Ok(
                                    Entry {
                                        domain: d.clone(),
                                        user: users[0].user.clone(),
                                        pwd: users[0].password.clone(),
                                    },
                                )
                            } else {
                                Err(
                                    Error::MultipleMatchingEntry {
                                        domain: d.clone(),
                                        user_list: user_list(users),
                                    },
                                )
                            }
                        },
                    }
                },
            },
            None => match user {
                Some(u) => {
                    assert(s.take(s.len() as int) =~= s);
                    let mut k: usize = self.domains.len();
                    while k > 0
                        invariant
                            k <= self.domains.len(),
                            s == self@,
                            opt_view(*domain) is None,
                            opt_view(*user) == Some(u@),
                            last_domain_with_user(s, u@) == last_domain_with_user(
                                s.take(k as int),
                                u@,
                            ),
                        decreases k,
                    {
                        proof {
                            lemma_last_domain_with_user_take(s, u@, k as int);
                        }
                        let rec = &self.domains[k - 1];
                        assert(rec@ == s[k - 1]);
                        match find_user(&rec.users, u) {
                            Some(j) => {
                                proof {
                                    lemma_last_key_index(users_view(rec.users@), u@);
                                }
                                assert(users_view(rec.users@) == s[k - 1].1);
                                assert(password_in(s[k - 1].1, u@) == Some(
                                    rec.users@[j as int].password@,
                                ));
                                assert(last_domain_with_user(s, u@) == Some(k - 1));
                                return Ok(
                                    Entry {
                                        domain: rec.domain.clone(),
                                        user: u.clone(),
                                        pwd: rec.users[j].password.clone(),
                                    },
                                );
                            },
                            None => {},
                        }
                        k = k - 1;
                    }
                    assert(s.take(0) =~= Seq::<DomainV>::empty());
                    Err(Error::NoMatchingUser { user: u.clone() })
                },
                None => Err(Error::NoneSpecified),
            },
        }
    }

    /// Every domain with the names of its users, in enumeration order;
    /// passwords are left out.
    pub fn list(&self) -> (r: Vec<DomainUsers>)
        ensures
            r@.len() == self@.len(),
            forall|i: int|
                0 <= i < r@.len() ==> (#[trigger] r@[i]).domain@ == self@[i].0 && names_view(
                    r@[i].users@,
                ) == user_names(self@[i].1),
    {
        let mut r: Vec<DomainUsers> = Vec::new();
        let mut i: usize = 0;
        while i < self.domains.len()
            invariant
                i <= self.domains.len(),
                r@.len() == i,
                forall|k: int|
                    0 <= k < i ==> (#[trigger] r@[k]).domain@ == self@[k].0 && names_view(
                        r@[k].users@,
                    ) == user_names(self@[k].1),
            decreases self.domains.len() - i,
        {
            let rec = &self.domains[i];
            assert(rec@ == self@[i as int]);
            r.push(DomainUsers { domain: rec.domain.clone(), users: user_list(&rec.users) });
            i = i + 1;
        }
        r
    }
}


impl CredentialStore {
    /// Builds the store that a raw document stands for. Fails with
    /// `CorruptStore` where a domain does not hold a table, a password is not
    /// a string, or a key repeats.
    pub fn from_document(raw: &Vec<RawDomain>) -> (r: Result<CredentialStore, Error>)
        ensures
            match from_document(raw_document_view(raw@)) {
                Ok(s) => r matches Ok(st) && st@ == s && st.wf(),
                Err(e) => r matches Err(x) && x@ == e,
            },
    {
        let ghost doc = raw_document_view(raw@);
        let mut domains: Vec<DomainRecord> = Vec::new();
        let mut i: usize = 0;
        while i < raw.len()
            invariant
                i <= raw.len(),
                doc == raw_document_view(raw@),
                domains_view(domains@) == store_of_document(doc.take(i as int)),
                document_ok(doc.take(i as int)),
                store_wf(domains_view(domains@)),
            decreases raw.len() - i,
        {
            let rd = &raw[i];
            assert(rd@ == doc[i as int]);
            match &rd.users {
                None => {
                    assert(!document_ok(doc));
                    return Err(Error::CorruptStore);
                },
                Some(rus) => {
                    let ghost us = raw_users_view(rus@);
                    let mut users: Vec<Credential> = Vec::new();
                    let mut j: usize = 0;
                    while j < rus.len()
                        invariant
                            j <= rus.len(),
                            us == raw_users_view(rus@),
                            doc[i as int].1 == Some(us),
                            i < raw.len(),
                            doc == raw_document_view(raw@),
                            users_view(users@) == users_of_raw(us.take(j as int)),
                            raw_users_ok(us.take(j as int)),
                        decreases rus.len() - j,
                    {
                        let ru = &rus[j];
                        assert(ru@ == us[j as int]);
                        match &ru.password {
                            None => {
                                assert(!raw_users_ok(us));
                                assert(!document_ok(doc));
                                return Err(Error::CorruptStore);
                            },
                            Some(p) => {
                                match find_user(&users, &ru.user) {
                                    Some(k) => {
                                        proof {
                                            lemma_last_key_index(users_view(users@), ru.user@);
                                            assert(us.take(j as int)[k as int] == us[k as int]);
                                        }
                                        assert(!raw_users_ok(us));
                                        assert(!document_ok(doc));
                                        return Err(Error::CorruptStore);
                                    },
                                    None => {},
                                }
                                proof {
                                    lemma_keys_match(users_view(users@), us.take(j as int), ru.user@);
                                    lemma_push_unique(us.take(j as int), us[j as int]);
                                    assert(us.take(j as int).push(us[j as int]) =~= us.take(j + 1));
                                }
                                let ghost before = users_view(users@);
                                users.push(Credential { user: ru.user.clone(), password: p.clone() });
                                j = j + 1;
                                assert(users_view(users@) =~= before.push((us[j - 1].0, us[j - 1].1.unwrap())));
                                assert(users_view(users@) =~= users_of_raw(us.take(j as int)));
                            },
                        }
                    }
                    assert(us.take(j as int) =~= us);
                    match find_domain(&domains, &rd.domain) {
                        Some(k) => {
                            proof {
                                lemma_last_key_index(domains_view(domains@), rd.domain@);
                                assert(doc.take(i as int)[k as int] == doc[k as int]);
                            }
                            assert(!document_ok(doc));
                            return Err(Error::CorruptStore);
                        },
                        None => {},
                    }
                    proof {
                        lemma_keys_match(domains_view(domains@), doc.take(i as int), rd.domain@);
                        lemma_push_unique(doc.take(i as int), doc[i as int]);
                        assert(doc.take(i as int).push(doc[i as int]) =~= doc.take(i + 1));
                        lemma_push_unique(domains_view(domains@), (rd.domain@, users_view(users@)));
                    }
                    let ghost old_domains = domains_view(domains@);
                    let ghost new_users = users_view(users@);
                    domains.push(DomainRecord { domain: rd.domain.clone(), users });
                    i = i + 1;
                    assert(new_users == users_of_raw(us));
                    assert(domains_view(domains@) =~= old_domains.push((doc[i - 1].0, new_users)));
                    assert(domains_view(domains@) =~= store_of_document(doc.take(i as int)));
                    assert forall|k: int| 0 <= k < domains_view(domains@).len() implies keys_unique(
                        #[trigger] domains_view(domains@)[k].1,
                    ) by {
                        if k < old_domains.len() {
                            assert(domains_view(domains@)[k] == old_domains[k]);
                        }
                    }
                },
            }
        }
        assert(doc.take(i as int) =~= doc);
        Ok(CredentialStore { domains })
    }
}

} // verus!
