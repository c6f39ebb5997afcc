use nixpxe::nar::{find, Contents, Entry, NarError, Reader, Teller};

fn field(bytes: &[u8]) -> Vec<u8> {
    let mut out = (bytes.len() as u64).to_le_bytes().to_vec();
    out.extend_from_slice(bytes);
    while out.len() % 8 != 0 {
        out.push(0);
    }
    out
}

fn words(words: &[&str]) -> Vec<u8> {
    let mut out = Vec::new();
    for w in words {
        out.extend(field(w.as_bytes()));
    }
    out
}

fn regular(executable: bool, contents: &[u8]) -> Vec<u8> {
    let mut out = words(&["(", "type", "regular"]);
    if executable {
        out.extend(words(&["executable", ""]));
    }
    out.extend(words(&["contents"]));
    out.extend(field(contents));
    out.extend(words(&[")"]));
    out
}

fn symlink(target: &str) -> Vec<u8> {
    words(&["(", "type", "symlink", "target", target, ")"])
}

fn directory(children: &[(&str, Vec<u8>)]) -> Vec<u8> {
    let mut out = words(&["(", "type", "directory"]);
    for (name, node) in children {
        out.extend(words(&["entry", "(", "name", name, "node"]));
        out.extend(node.iter());
        out.extend(words(&[")"]));
    }
    out.extend(words(&[")"]));
    out
}

fn archive(root: Vec<u8>) -> Vec<u8> {
    let mut out = words(&["nix-archive-1"]);
    out.extend(root);
    out
}

fn kind(entry: &Entry) -> char {
    match entry.contents {
        Contents::Regular { .. } => 'f',
        Contents::Symlink { .. } => 'l',
        Contents::Directory => 'd',
    }
}

fn enumerate_nar(data: Vec<u8>) -> Result<Vec<(Option<String>, char)>, NarError> {
    let mut reader = Reader::new(data);
    let mut result = vec![];
    while let Some(entry) = reader.next()? {
        result.push((entry.path_string(), kind(&entry)));
    }
    Ok(result)
}

#[test]
fn nar_file() {
    let result = enumerate_nar(archive(regular(false, b"hello"))).unwrap();
    assert_eq!(result, vec![(None, 'f')]);
}

#[test]
fn nar_symlink() {
    let result = enumerate_nar(archive(symlink("/foobar"))).unwrap();
    assert_eq!(result, vec![(None, 'l')]);
}

#[test]
fn nar_empty_directory() {
    let result = enumerate_nar(archive(directory(&[]))).unwrap();
    assert_eq!(result, vec![(None, 'd')]);
}

#[test]
fn nar_directory() {
    let nested = directory(&[("world.txt", regular(false, b"World"))]);
    let root = directory(&[("hello.txt", regular(false, b"Hello")), ("nested", nested)]);
    let result = enumerate_nar(archive(root)).unwrap();
    assert_eq!(
        result,
        vec![
            (None, 'd'),
            (Some(String::from("hello.txt")), 'f'),
            (Some(String::from("nested")), 'd'),
            (Some(String::from("nested/world.txt")), 'f')
        ]
    );
}

#[test]
fn executable_file_in_directory() {
    let bin = directory(&[("run", regular(true, b"hello"))]);
    let mut reader = Reader::new(archive(directory(&[("bin", bin)])));

    let root = reader.next().unwrap().unwrap();
    assert_eq!(root.path, Vec::<String>::new());
    assert_eq!(root.path_string(), None);
    assert!(matches!(root.contents, Contents::Directory));

    let bin = reader.next().unwrap().unwrap();
    assert_eq!(bin.path, vec![String::from("bin")]);
    assert!(matches!(bin.contents, Contents::Directory));

    let run = reader.next().unwrap().unwrap();
    assert_eq!(run.path, vec![String::from("bin"), String::from("run")]);
    assert_eq!(run.path_string(), Some(String::from("bin/run")));
    match run.contents {
        Contents::Regular { executable, size, data } => {
            assert!(executable);
            assert_eq!(size, 5);
            assert_eq!(data, b"hello".to_vec());
        }
        _ => panic!("not a regular file"),
    }

    assert!(reader.next().unwrap().is_none());
    assert!(reader.next().unwrap().is_none());
}

#[test]
fn symlink_keeps_its_literal_target() {
    let mut reader = Reader::new(archive(symlink("/nix/store/abc-foo/sub/file")));
    let entry = reader.next().unwrap().unwrap();
    match entry.contents {
        Contents::Symlink { target } => assert_eq!(target, "/nix/store/abc-foo/sub/file"),
        _ => panic!("not a symlink"),
    }
    assert!(reader.next().unwrap().is_none());
}

#[test]
fn payload_padding_is_skipped() {
    for len in 0..20usize {
        let contents: Vec<u8> = (0..len as u8).collect();
        let root = directory(&[("a", regular(false, &contents)), ("b", symlink("a"))]);
        let entries = Reader::new(archive(root)).read_all().unwrap();
        assert_eq!(entries.len(), 3);
        match &entries[1].contents {
            Contents::Regular { executable, size, data } => {
                assert!(!*executable);
                assert_eq!(*size, len as u64);
                assert_eq!(data, &contents);
            }
            _ => panic!("not a regular file"),
        }
        assert_eq!(entries[2].path_string(), Some(String::from("b")));
    }
}

#[test]
fn padding_bytes_are_not_looked_at() {
    let mut data = archive(regular(false, b"abc"));
    let at = data.len() - 16 - 1;
    assert_eq!(data[at], 0);
    data[at] = 0xff;
    let entries = Reader::new(data).read_all().unwrap();
    match &entries[0].contents {
        Contents::Regular { data, .. } => assert_eq!(data, b"abc"),
        _ => panic!("not a regular file"),
    }
}

#[test]
fn empty_stream_is_a_short_read() {
    let mut reader = Reader::new(Vec::new());
    assert_eq!(reader.next().unwrap_err(), NarError::UnexpectedEof);
    assert_eq!(reader.next().unwrap_err(), NarError::UnexpectedEof);
}

#[test]
fn wrong_magic_is_refused() {
    let mut data = words(&["nix-archive-2"]);
    data.extend(directory(&[]));
    assert_eq!(Reader::new(data).next().unwrap_err(), NarError::UnexpectedToken);
}

#[test]
fn unknown_kind_is_refused() {
    let data = archive(words(&["(", "type", "socket", ")"]));
    assert_eq!(Reader::new(data).next().unwrap_err(), NarError::InvalidEntryType);
}

#[test]
fn long_string_is_refused() {
    let mut data = words(&["nix-archive-1", "(", "type", "symlink", "target"]);
    data.extend(field(&vec![b'a'; 4096]));
    data.extend(words(&[")"]));
    assert_eq!(Reader::new(data).next().unwrap_err(), NarError::StringTooLong);

    let mut data = words(&["nix-archive-1", "(", "type", "symlink", "target"]);
    data.extend(field(&vec![b'a'; 4095]));
    data.extend(words(&[")"]));
    assert!(Reader::new(data).next().unwrap().is_some());
}

#[test]
fn invalid_utf8_is_refused() {
    let mut data = words(&["nix-archive-1", "(", "type", "symlink", "target"]);
    data.extend(field(&[0xff, 0xfe]));
    data.extend(words(&[")"]));
    assert_eq!(Reader::new(data).next().unwrap_err(), NarError::InvalidUtf8);
}

#[test]
fn entries_before_a_fault_are_handed_out() {
    let mut data = archive(directory(&[("a", symlink("x")), ("b", symlink("y"))]));
    data.truncate(data.len() - 40);
    let mut reader = Reader::new(data);
    assert_eq!(reader.next().unwrap().unwrap().path_string(), None);
    assert_eq!(reader.next().unwrap().unwrap().path_string(), Some(String::from("a")));
    assert_eq!(reader.next().unwrap_err(), NarError::UnexpectedEof);
    assert_eq!(reader.next().unwrap_err(), NarError::UnexpectedEof);
}

#[test]
fn truncated_payload_is_a_short_read() {
    let mut data = archive(regular(false, b"0123456789"));
    data.truncate(data.len() - 16 - 8);
    assert_eq!(Reader::new(data).next().unwrap_err(), NarError::UnexpectedEof);
}

#[test]
fn missing_close_after_payload_fails_on_the_next_call() {
    let mut data = archive(regular(false, b"0123456789"));
    data.truncate(data.len() - 16);
    let mut reader = Reader::new(data);
    assert!(reader.next().unwrap().is_some());
    assert_eq!(reader.next().unwrap_err(), NarError::UnexpectedEof);
}

#[test]
fn find_returns_the_entry_at_a_path() {
    let nested = directory(&[("world.txt", regular(false, b"World"))]);
    let root = directory(&[("hello.txt", regular(false, b"Hello")), ("nested", nested)]);
    let data = archive(root);

    let mut reader = Reader::new(data.clone());
    let path = vec![String::from("nested"), String::from("world.txt")];
    let entry = find(&mut reader, &path).unwrap().unwrap();
    assert_eq!(entry.path, path);
    match entry.contents {
        Contents::Regular { data, .. } => assert_eq!(data, b"World"),
        _ => panic!("not a regular file"),
    }
    assert!(reader.next().unwrap().is_none());

    let mut reader = Reader::new(data.clone());
    let entry = find(&mut reader, &vec![String::from("hello.txt")]).unwrap().unwrap();
    assert_eq!(kind(&entry), 'f');
    assert_eq!(reader.next().unwrap().unwrap().path_string(), Some(String::from("nested")));

    let mut reader = Reader::new(data.clone());
    assert!(find(&mut reader, &vec![String::from("missing")]).unwrap().is_none());
    assert!(reader.next().unwrap().is_none());

    let mut reader = Reader::new(data);
    assert!(find(&mut reader, &Vec::new()).unwrap().is_none());
}

#[test]
fn find_reports_the_fault_of_a_broken_archive() {
    let mut data = archive(directory(&[("a", symlink("x"))]));
    data.truncate(data.len() - 8);
    let mut reader = Reader::new(data);
    assert_eq!(
        find(&mut reader, &vec![String::from("b")]).unwrap_err(),
        NarError::UnexpectedEof
    );
}

#[test]
fn read_all_gives_no_entries_for_a_broken_archive() {
    let mut data = archive(directory(&[("a", symlink("x"))]));
    data.truncate(data.len() - 8);
    assert_eq!(Reader::new(data).read_all().unwrap_err(), NarError::UnexpectedEof);
}

#[test]
fn teller_counts_what_it_reads() {
    let mut teller = Teller::new(vec![1, 0, 0, 0, 0, 0, 0, 0, 0xaa, 0xbb, 0xcc]);
    assert_eq!(teller.position(), 0);
    assert_eq!(teller.read_u64_le().unwrap(), 1);
    assert_eq!(teller.position(), 8);
    assert_eq!(teller.read_exact(2).unwrap(), vec![0xaa, 0xbb]);
    assert_eq!(teller.position(), 10);
    assert_eq!(teller.remaining(), 1);
    assert_eq!(teller.read_u64_le().unwrap_err(), NarError::UnexpectedEof);
    assert_eq!(teller.position(), 11);
}

#[test]
fn teller_reads_little_endian() {
    let mut teller = Teller::new(vec![0x08, 0x07, 0x06, 0x05, 0x04, 0x03, 0x02, 0x01]);
    assert_eq!(teller.read_u64_le().unwrap(), 0x0102030405060708);
    let mut teller = Teller::new(vec![0xff; 8]);
    assert_eq!(teller.read_u64_le().unwrap(), u64::MAX);
}

#[test]
fn teller_skips_forward() {
    let mut teller = Teller::new(vec![0; 16]);
    teller.skip_to(12).unwrap();
    assert_eq!(teller.position(), 12);
    teller.skip_to(16).unwrap();
    assert_eq!(teller.skip_to(17).unwrap_err(), NarError::UnexpectedEof);
    assert_eq!(teller.position(), 16);
}

fn sample_tree() -> Vec<u8> {
    let docs = directory(&[("a.txt", regular(false, b"A")), ("empty", directory(&[]))]);
    let bin = directory(&[("run", regular(true, b"#!/bin/sh\n")), ("sh", symlink("run"))]);
    archive(directory(&[("bin", bin), ("docs", docs), ("link", symlink("docs/a.txt"))]))
}

#[test]
fn archive_of_a_tree_decodes_to_its_nodes_in_pre_order() {
    let entries = Reader::new(sample_tree()).read_all().unwrap();
    let got: Vec<(Option<String>, char)> =
        entries.iter().map(|e| (e.path_string(), kind(e))).collect();
    let expected: Vec<(Option<String>, char)> = vec![
        (None, 'd'),
        (Some(String::from("bin")), 'd'),
        (Some(String::from("bin/run")), 'f'),
        (Some(String::from("bin/sh")), 'l'),
        (Some(String::from("docs")), 'd'),
        (Some(String::from("docs/a.txt")), 'f'),
        (Some(String::from("docs/empty")), 'd'),
        (Some(String::from("link")), 'l'),
    ];
    assert_eq!(got, expected);
    match &entries[2].contents {
        Contents::Regular { executable, size, data } => {
            assert!(*executable);
            assert_eq!(*size, 10);
            assert_eq!(data, b"#!/bin/sh\n");
        }
        _ => panic!("not a regular file"),
    }
    match &entries[7].contents {
        Contents::Symlink { target } => assert_eq!(target, "docs/a.txt"),
        _ => panic!("not a symlink"),
    }
}

#[test]
fn every_path_of_the_tree_comes_once() {
    let mut reader = Reader::new(sample_tree());
    let mut paths: Vec<Vec<String>> = Vec::new();
    while let Some(entry) = reader.next().unwrap() {
        paths.push(entry.path);
    }
    assert!(paths[0].is_empty());
    let mut rest: Vec<String> = paths[1..].iter().map(|p| p.join("/")).collect();
    assert!(paths[1..].iter().all(|p| !p.is_empty()));
    rest.sort();
    let mut expected =
        vec!["bin", "bin/run", "bin/sh", "docs", "docs/a.txt", "docs/empty", "link"];
    expected.sort();
    assert_eq!(rest, expected);
}

#[test]
fn directory_comes_before_what_it_holds() {
    for cut in [0usize, 8, 40, 120, 200] {
        let mut data = sample_tree();
        let len = data.len();
        data.truncate(len - cut.min(len));
        let mut reader = Reader::new(data);
        let mut seen: Vec<(Vec<String>, char)> = Vec::new();
        while let Ok(Some(entry)) = reader.next() {
            if !seen.is_empty() {
                let parent = entry.path[..entry.path.len() - 1].to_vec();
                assert!(seen.contains(&(parent, 'd')));
            }
            seen.push((entry.path.clone(), kind(&entry)));
        }
        assert!(!seen.is_empty());
    }
}

#[test]
fn names_are_kept_as_separate_segments() {
    let root = directory(&[("a/b", symlink("x")), ("a", directory(&[("b", symlink("y"))]))]);
    let entries = Reader::new(archive(root)).read_all().unwrap();
    assert_eq!(entries[1].path, vec![String::from("a/b")]);
    assert_eq!(entries[3].path, vec![String::from("a"), String::from("b")]);
    assert_ne!(entries[1].path, entries[3].path);
}

#[test]
fn bytes_behind_the_root_are_not_read() {
    let mut data = archive(symlink("x"));
    data.extend_from_slice(b"trailing");
    let mut reader = Reader::new(data);
    assert!(reader.next().unwrap().is_some());
    assert!(reader.next().unwrap().is_none());
}

#[test]
fn keyword_in_the_wrong_place_is_refused() {
    let data = archive(words(&["(", "kind", "regular"]));
    assert_eq!(Reader::new(data).next().unwrap_err(), NarError::UnexpectedToken);
    let data = archive(words(&["(", "type", "regular", "size"]));
    assert_eq!(Reader::new(data).next().unwrap_err(), NarError::UnexpectedToken);
    let data = archive(words(&["(", "type", "regular", "executable", "x", "contents"]));
    assert_eq!(Reader::new(data).next().unwrap_err(), NarError::UnexpectedToken);
    let data = archive(words(&["(", "type", "directory", "item"]));
    let mut reader = Reader::new(data);
    assert!(reader.next().unwrap().is_some());
    assert_eq!(reader.next().unwrap_err(), NarError::UnexpectedToken);
}

#[test]
fn archives_cut_anywhere_fail_with_a_short_read() {
    let whole = sample_tree();
    let all = Reader::new(whole.clone()).read_all().unwrap().len();
    for cut in 0..whole.len() {
        let mut reader = Reader::new(whole[..cut].to_vec());
        let mut seen = 0;
        let end = loop {
            match reader.next() {
                Ok(Some(_)) => seen += 1,
                Ok(None) => break None,
                Err(e) => break Some(e),
            }
        };
        assert_eq!(end, Some(NarError::UnexpectedEof), "cut at {}", cut);
        assert!(seen <= all);
        assert_eq!(reader.next().unwrap_err(), NarError::UnexpectedEof);
    }
}
