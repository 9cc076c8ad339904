use pasuwado::document::{add_entry, find_entry, read_toml_table, save_table_to_toml, RawDomain, RawUser};
use pasuwado::error::{Entry, Error};
use pasuwado::store::CredentialStore;

fn s(x: &str) -> Option<String> {
    Some(x.to_string())
}

fn entry(d: &str, u: &str, p: &str) -> Entry {
    Entry { domain: d.to_string(), user: u.to_string(), pwd: p.to_string() }
}

#[test]
fn add_new_domain_then_lookup() {
    let mut store = CredentialStore::new();
    assert_eq!(store.add("github.com", "alice", "hunter2", false), Ok(()));
    assert_eq!(store.resolve(&s("github.com"), &s("alice")), Ok(entry("github.com", "alice", "hunter2")));
    assert_eq!(store.len(), 1);
}

#[test]
fn add_existing_without_force_fails() {
    let mut store = CredentialStore::new();
    store.add("d", "u", "p1", false).unwrap();
    assert_eq!(
        store.add("d", "u", "p2", false),
        Err(Error::EntryExists { domain: "d".to_string(), user: "u".to_string() })
    );
    assert_eq!(store.resolve(&s("d"), &s("u")), Ok(entry("d", "u", "p1")));
}

#[test]
fn add_existing_with_force_overwrites() {
    let mut store = CredentialStore::new();
    store.add("d", "u", "p1", false).unwrap();
    assert_eq!(store.add("d", "u", "p2", true), Ok(()));
    assert_eq!(store.resolve(&s("d"), &s("u")), Ok(entry("d", "u", "p2")));
    let listing = store.list();
    assert_eq!(listing.len(), 1);
    assert_eq!(listing[0].users, vec!["u".to_string()]);
}

#[test]
fn single_user_auto_resolves() {
    let mut store = CredentialStore::new();
    store.add("d", "u1", "p1", false).unwrap();
    store.add("other", "u2", "p2", false).unwrap();
    assert_eq!(store.resolve(&s("d"), &None), Ok(entry("d", "u1", "p1")));
}

#[test]
fn multiple_users_are_ambiguous() {
    let mut store = CredentialStore::new();
    store.add("d", "u1", "p1", false).unwrap();
    store.add("d", "u2", "p2", false).unwrap();
    assert_eq!(
        store.resolve(&s("d"), &None),
        Err(Error::MultipleMatchingEntry {
            domain: "d".to_string(),
            user_list: vec!["u1".to_string(), "u2".to_string()],
        })
    );
}

#[test]
fn last_matching_domain_wins() {
    let mut store = CredentialStore::new();
    store.add("d1", "u", "p1", false).unwrap();
    store.add("d2", "u", "p2", false).unwrap();
    store.add("d3", "x", "p3", false).unwrap();
    assert_eq!(store.resolve(&None, &s("u")), Ok(entry("d2", "u", "p2")));
}

#[test]
fn last_matching_domain_wins_in_document_order() {
    let text = "[zeta]\nu = \"1\"\n\n[alpha]\nu = \"2\"\n";
    assert_eq!(find_entry(Some(text), &None, &s("u")), Ok(entry("alpha", "u", "2")));
}

#[test]
fn neither_domain_nor_user_fails() {
    let store = CredentialStore::new();
    assert_eq!(store.resolve(&None, &None), Err(Error::NoneSpecified));
    assert_eq!(find_entry(Some("not [valid toml"), &None, &None), Err(Error::NoneSpecified));
}

#[test]
fn missing_file_loads_empty() {
    let store = read_toml_table(None).unwrap();
    assert!(store.is_empty());
    assert_eq!(store.list().len(), 0);
}

#[test]
fn unknown_domain_user_and_pair() {
    let mut store = CredentialStore::new();
    store.add("d", "u", "p", false).unwrap();
    assert_eq!(store.resolve(&s("x"), &s("u")), Err(Error::NoMatchingDomain { domain: "x".to_string() }));
    assert_eq!(store.resolve(&s("x"), &None), Err(Error::NoMatchingDomain { domain: "x".to_string() }));
    assert_eq!(
        store.resolve(&s("d"), &s("v")),
        Err(Error::NoMatch { user: "v".to_string(), domain: "d".to_string() })
    );
    assert_eq!(store.resolve(&None, &s("v")), Err(Error::NoMatchingUser { user: "v".to_string() }));
}

#[test]
fn save_then_load_round_trip() {
    let mut store = CredentialStore::new();
    store.add("github.com", "alice", "hunter2", false).unwrap();
    store.add("github.com", "bob", "", false).unwrap();
    store.add("mail", "carol", "p w \"q\"", false).unwrap();
    let text = save_table_to_toml(&store).unwrap();
    assert!(text.contains("[\"github.com\"]"));
    assert!(text.contains("hunter2"));
    let back = read_toml_table(Some(&text)).unwrap();
    let listing = back.list();
    assert_eq!(listing.len(), 2);
    assert_eq!(listing[0].domain, "github.com");
    assert_eq!(listing[0].users, vec!["alice".to_string(), "bob".to_string()]);
    assert_eq!(listing[1].domain, "mail");
    assert_eq!(back.resolve(&s("github.com"), &s("bob")), Ok(entry("github.com", "bob", "")));
    assert_eq!(back.resolve(&s("mail"), &None), Ok(entry("mail", "carol", "p w \"q\"")));
}

#[test]
fn corrupt_documents_are_refused() {
    assert_eq!(read_toml_table(Some("a = 1")).map(|_| ()), Err(Error::CorruptStore));
    assert_eq!(read_toml_table(Some("[d]\nu = 3\n")).map(|_| ()), Err(Error::CorruptStore));
    assert_eq!(read_toml_table(Some("[d\nu = ")).map(|_| ()), Err(Error::CorruptStore));
    assert_eq!(find_entry(Some("a = 1"), &s("a"), &None), Err(Error::CorruptStore));
}

#[test]
fn empty_text_loads_empty() {
    assert!(read_toml_table(Some("")).unwrap().is_empty());
}

#[test]
fn raw_document_with_repeated_keys_is_corrupt() {
    let user = |u: &str, p: Option<&str>| RawUser { user: u.to_string(), password: p.map(|x| x.to_string()) };
    let twice = vec![
        RawDomain { domain: "d".to_string(), users: Some(vec![user("u", Some("1"))]) },
        RawDomain { domain: "d".to_string(), users: Some(vec![user("v", Some("2"))]) },
    ];
    assert!(matches!(CredentialStore::from_document(&twice), Err(Error::CorruptStore)));
    let users_twice = vec![RawDomain {
        domain: "d".to_string(),
        users: Some(vec![user("u", Some("1")), user("u", Some("2"))]),
    }];
    assert!(matches!(CredentialStore::from_document(&users_twice), Err(Error::CorruptStore)));
    let not_table = vec![RawDomain { domain: "d".to_string(), users: None }];
    assert!(matches!(CredentialStore::from_document(&not_table), Err(Error::CorruptStore)));
    let good = vec![RawDomain { domain: "d".to_string(), users: Some(vec![user("u", Some("1"))]) }];
    let store = CredentialStore::from_document(&good).unwrap();
    assert_eq!(store.resolve(&s("d"), &None), Ok(entry("d", "u", "1")));
}

#[test]
fn add_entry_on_persisted_text() {
    let first = add_entry(None, "d", "u", "p1", false).unwrap();
    assert_eq!(find_entry(Some(&first), &s("d"), &s("u")), Ok(entry("d", "u", "p1")));
    assert_eq!(
        add_entry(Some(&first), "d", "u", "p2", false),
        Err(Error::EntryExists { domain: "d".to_string(), user: "u".to_string() })
    );
    let second = add_entry(Some(&first), "d", "u", "p2", true).unwrap();
    assert_eq!(find_entry(Some(&second), &s("d"), &None), Ok(entry("d", "u", "p2")));
    assert_eq!(add_entry(Some("x = 1"), "d", "u", "p", false), Err(Error::CorruptStore));
}
