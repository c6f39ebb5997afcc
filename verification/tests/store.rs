use nixpxe::nar::{Contents, NarError};
use nixpxe::store::{join, Store};

fn field(bytes: &[u8]) -> Vec<u8> {
    let mut out = (bytes.len() as u64).to_le_bytes().to_vec();
    out.extend_from_slice(bytes);
    while out.len() % 8 != 0 {
        out.push(0);
    }
    out
}

fn small_archive() -> Vec<u8> {
    let mut out = Vec::new();
    for w in ["nix-archive-1", "(", "type", "directory", "entry", "(", "name", "f", "node", "(",
        "type", "regular", "contents"]
    {
        out.extend(field(w.as_bytes()));
    }
    out.extend(field(b"payload"));
    for w in [")", ")", ")"] {
        out.extend(field(w.as_bytes()));
    }
    out
}

#[test]
fn join_puts_a_separator_where_one_is_needed() {
    assert_eq!(join("/srv/store", "abc"), "/srv/store/abc");
    assert_eq!(join("/srv/store/", "abc"), "/srv/store/abc");
    assert_eq!(join("", "abc"), "abc");
    assert_eq!(join("/srv/store", ""), "/srv/store/");
    assert_eq!(join("/srv/store", "/etc"), "/etc");
}

#[test]
fn join_agrees_with_the_path_type() {
    let pairs = [("/a", "b"), ("/a/", "b"), ("", "b"), ("/a", "/b"), ("a", ""), ("/", "x")];
    for (base, name) in pairs {
        let expected = std::path::Path::new(base).join(name);
        assert_eq!(join(base, name), expected.to_str().unwrap());
    }
}

#[test]
fn location_is_the_hash_under_the_root() {
    let store = Store::new(String::from("/var/lib/pxe"));
    assert_eq!(
        store.location("0123456789abcdfghijklmnpqrsvwxyz"),
        "/var/lib/pxe/0123456789abcdfghijklmnpqrsvwxyz"
    );
}

#[test]
fn lookup_answers_with_the_location_of_what_is_there() {
    let store = Store::new(String::from("/var/lib/pxe"));
    assert_eq!(store.lookup("abc", true), Some(String::from("/var/lib/pxe/abc")));
    assert_eq!(store.lookup("abc", false), None);
}

#[test]
fn add_stages_then_publishes_where_lookup_looks() {
    let store = Store::new(String::from("/var/lib/pxe"));
    let publication = store.add("abc", "/var/lib/pxe/.tmp123", small_archive()).unwrap();
    assert_eq!(publication.staging, "/var/lib/pxe/.tmp123/abc");
    assert_eq!(publication.target, "/var/lib/pxe/abc");
    assert_eq!(Some(publication.target.clone()), store.lookup("abc", true));
    assert_eq!(publication.entries.len(), 2);
    assert!(matches!(publication.entries[0].contents, Contents::Directory));
    match &publication.entries[1].contents {
        Contents::Regular { data, size, executable } => {
            assert_eq!(data, b"payload");
            assert_eq!(*size, 7);
            assert!(!*executable);
        }
        _ => panic!("not a regular file"),
    }
}

#[test]
fn add_twice_gives_the_same_publication() {
    let store = Store::new(String::from("/s"));
    let first = store.add("abc", "/s/t1", small_archive()).unwrap();
    let second = store.add("abc", "/s/t2", small_archive()).unwrap();
    assert_eq!(first.target, second.target);
    assert_ne!(first.staging, second.staging);
    assert_eq!(first.entries.len(), second.entries.len());
}

#[test]
fn add_publishes_nothing_of_a_broken_archive() {
    let store = Store::new(String::from("/s"));
    let mut data = small_archive();
    data.truncate(data.len() - 8);
    assert_eq!(store.add("abc", "/s/t", data).unwrap_err(), NarError::UnexpectedEof);
    assert_eq!(store.add("abc", "/s/t", Vec::new()).unwrap_err(), NarError::UnexpectedEof);
}
