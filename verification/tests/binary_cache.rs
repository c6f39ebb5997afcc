use nixpxe::binary_cache::{
    BinaryCache, Compression, CompressionError, Fallback, NarInfo, NarInfoError,
};
use nixpxe::nar::{Contents, Reader};

const SAMPLE: &str = "StorePath: /nix/store/0123456789abcdfghijklmnpqrsvwxyz-hello\n\
URL: nar/1bn7c3bf5z32cdgylhbp9nzhh6ydib5ngsm6mdhsvf233g0nh1ac.nar.xz\n\
Compression: xz\n\
FileHash: sha256:1bn7c3bf5z32cdgylhbp9nzhh6ydib5ngsm6mdhsvf233g0nh1ac\n\
FileSize: 50264\n\
NarHash: sha256:0yzhigwjl6bws649vcs2asa4lbs8hg93hyix187gc7s7a74w5h80\n\
NarSize: 226488\n\
References: a b\n\
Sig: cache.nixos.org-1:abc==\n";

#[test]
fn narinfo_is_read() {
    let info = NarInfo::parse(SAMPLE).unwrap();
    assert_eq!(info.url, "nar/1bn7c3bf5z32cdgylhbp9nzhh6ydib5ngsm6mdhsvf233g0nh1ac.nar.xz");
    assert_eq!(info.compression, "xz");
    assert_eq!(info.file_size, 50264);
    assert_eq!(info.nar_size, 226488);
    assert_eq!(info.codec(), Ok(Compression::Xz));
}

#[test]
fn narinfo_without_final_newline_and_with_carriage_returns_is_read() {
    let info =
        NarInfo::parse("URL: a\r\nNarSize: +7\r\nFileSize: 007\r\nCompression: none").unwrap();
    assert_eq!(info.url, "a");
    assert_eq!(info.nar_size, 7);
    assert_eq!(info.file_size, 7);
    assert_eq!(info.compression, "none");
}

#[test]
fn narinfo_keeps_a_carriage_return_that_ends_the_text() {
    let info = NarInfo::parse("URL: a\nNarSize: 1\nFileSize: 2\nCompression: none\r").unwrap();
    assert_eq!(info.compression, "none\r");
    assert_eq!(info.codec(), Err(CompressionError::Unsupported));
}

#[test]
fn narinfo_takes_the_last_of_repeated_keys() {
    let info =
        NarInfo::parse("URL: a\nURL: b\nNarSize: 1\nFileSize: 2\nCompression: none\n").unwrap();
    assert_eq!(info.url, "b");
}

#[test]
fn narinfo_splits_at_the_first_separator() {
    let info = NarInfo::parse("URL: a: b\nNarSize: 1\nFileSize: 2\nCompression: zstd\n").unwrap();
    assert_eq!(info.url, "a: b");
    let info = NarInfo::parse("URL: \nNarSize: 1\nFileSize: 2\nCompression: zstd\n").unwrap();
    assert_eq!(info.url, "");
}

#[test]
fn narinfo_with_a_line_that_is_no_field_is_refused() {
    assert_eq!(
        NarInfo::parse("URL: a\n\nNarSize: 1\n").unwrap_err(),
        NarInfoError::InvalidLine
    );
    assert_eq!(NarInfo::parse("URL:a\n").unwrap_err(), NarInfoError::InvalidLine);
    assert_eq!(NarInfo::parse("garbage").unwrap_err(), NarInfoError::InvalidLine);
    assert_eq!(NarInfo::parse("\n").unwrap_err(), NarInfoError::InvalidLine);
    assert_eq!(NarInfo::parse("NarSize: x\nbad\n").unwrap_err(), NarInfoError::InvalidLine);
}

#[test]
fn narinfo_with_a_missing_key_is_refused() {
    assert_eq!(NarInfo::parse("").unwrap_err(), NarInfoError::MissingUrl);
    assert_eq!(
        NarInfo::parse("NarSize: 1\nFileSize: 2\nCompression: none\n").unwrap_err(),
        NarInfoError::MissingUrl
    );
    assert_eq!(
        NarInfo::parse("URL: a\nFileSize: 2\nCompression: none\n").unwrap_err(),
        NarInfoError::MissingNarSize
    );
    assert_eq!(
        NarInfo::parse("URL: a\nNarSize: 1\nCompression: none\n").unwrap_err(),
        NarInfoError::MissingFileSize
    );
    assert_eq!(
        NarInfo::parse("URL: a\nNarSize: 1\nFileSize: 2\n").unwrap_err(),
        NarInfoError::MissingCompression
    );
    assert_eq!(
        NarInfo::parse("url: a\nNarSize: 1\nFileSize: 2\nCompression: none\n").unwrap_err(),
        NarInfoError::MissingUrl
    );
}

#[test]
fn narinfo_with_a_size_that_is_no_number_is_refused() {
    for bad in ["", "+", "-1", "1 ", " 1", "0x10", "1.5", "18446744073709551616", "١"] {
        let text = format!("URL: a\nNarSize: {bad}\nFileSize: 2\nCompression: none\n");
        assert_eq!(NarInfo::parse(&text).unwrap_err(), NarInfoError::InvalidNarSize, "{}", bad);
        let text = format!("URL: a\nNarSize: 1\nFileSize: {bad}\nCompression: none\n");
        assert_eq!(NarInfo::parse(&text).unwrap_err(), NarInfoError::InvalidFileSize, "{}", bad);
    }
    let text = "URL: a\nNarSize: 18446744073709551615\nFileSize: 0\nCompression: none\n";
    assert_eq!(NarInfo::parse(text).unwrap().nar_size, u64::MAX);
}

#[test]
fn narinfo_numbers_agree_with_the_standard_parser() {
    let texts =
        ["0", "+0", "00012", "+", "", "12a", "99999999999999999999", "1844674407370955161"];
    for text in texts {
        let info = format!("URL: a\nNarSize: {text}\nFileSize: 2\nCompression: none\n");
        assert_eq!(NarInfo::parse(&info).ok().map(|i| i.nar_size), text.parse::<u64>().ok());
    }
}

#[test]
fn compression_names() {
    assert_eq!(Compression::from_name("none"), Ok(Compression::Plain));
    assert_eq!(Compression::from_name("xz"), Ok(Compression::Xz));
    assert_eq!(Compression::from_name("zstd"), Ok(Compression::Zstd));
    assert_eq!(Compression::from_name("bzip2"), Err(CompressionError::NotImplemented));
    assert_eq!(Compression::from_name("gzip"), Err(CompressionError::NotImplemented));
    assert_eq!(Compression::from_name("br"), Err(CompressionError::Unsupported));
    assert_eq!(Compression::from_name(""), Err(CompressionError::Unsupported));
    assert_eq!(Compression::from_name("XZ"), Err(CompressionError::Unsupported));
}

#[test]
fn uncompressed_archive_of_an_empty_directory() {
    let info = NarInfo::parse("URL: nar/x.nar\nCompression: none\nNarSize: 0\nFileSize: 0\n")
        .unwrap();
    assert_eq!(info.codec(), Ok(Compression::Plain));
    assert_eq!(info.nar_size, 0);

    let mut body = Vec::new();
    for w in ["nix-archive-1", "(", "type", "directory", ")"] {
        body.extend((w.len() as u64).to_le_bytes());
        body.extend(w.as_bytes());
        while body.len() % 8 != 0 {
            body.push(0);
        }
    }
    let mut reader = Reader::new(body);
    let root = reader.next().unwrap().unwrap();
    assert!(root.path.is_empty());
    assert!(matches!(root.contents, Contents::Directory));
    assert!(reader.next().unwrap().is_none());
}

#[test]
fn cache_addresses() {
    let cache = BinaryCache::new(String::from("https://cache.example.org/"));
    assert_eq!(cache.url(), "https://cache.example.org/");
    assert_eq!(
        cache.narinfo_url("0123456789abcdfghijklmnpqrsvwxyz"),
        Some(String::from("https://cache.example.org/0123456789abcdfghijklmnpqrsvwxyz.narinfo"))
    );
    let info = NarInfo::parse("URL: nar/x.nar.xz\nCompression: xz\nNarSize: 1\nFileSize: 1\n")
        .unwrap();
    assert_eq!(
        cache.nar_url(&info),
        Some(String::from("https://cache.example.org/nar/x.nar.xz"))
    );
}

#[test]
fn cache_addresses_replace_the_last_segment_of_a_base_without_slash() {
    let cache = BinaryCache::new(String::from("https://cache.example.org/a/b"));
    assert_eq!(
        cache.narinfo_url("h"),
        Some(String::from("https://cache.example.org/a/h.narinfo"))
    );
}

#[test]
fn cache_without_a_proper_base_has_no_addresses() {
    let cache = BinaryCache::new(String::from("not a url"));
    assert_eq!(cache.narinfo_url("h"), None);
}

#[test]
fn fallback_asks_the_caches_in_order() {
    let mut f = Fallback::new(3);
    assert_eq!(f.next(), Some(0));
    assert_eq!(f.next(), Some(0));
    f.failed(String::from("first down"));
    assert_eq!(f.next(), Some(1));
    f.failed(String::from("second down"));
    assert_eq!(f.next(), Some(2));
    f.failed(String::from("third down"));
    assert_eq!(f.next(), None);
    assert_eq!(f.error(), "third down");
}

#[test]
fn fallback_without_caches_says_so() {
    let f = Fallback::new(0);
    assert_eq!(f.next(), None);
    assert_eq!(f.error(), "No configured binary cache");
}

fn by_the_standard_library(s: &str) -> Option<(String, u64, u64, String)> {
    let mut fields = std::collections::HashMap::new();
    for line in s.lines() {
        let (key, value) = line.split_once(": ")?;
        fields.insert(key, value);
    }
    Some((
        fields.get("URL")?.to_string(),
        fields.get("NarSize")?.parse().ok()?,
        fields.get("FileSize")?.parse().ok()?,
        fields.get("Compression")?.to_string(),
    ))
}

#[test]
fn narinfo_agrees_with_the_standard_library() {
    let pieces = [
        "URL: a", "URL: b: c", "NarSize: 1", "NarSize: x", "NarSize: +2", "FileSize: 3",
        "FileSize: ", "Compression: xz", "Compression: none", "Other: y", "bad", "", ": ", "URL:",
        " URL: z", "URL: a\r",
    ];
    let ends = ["", "\n", "\r\n", "\r"];
    let mut state = 12345u64;
    for _ in 0..4000 {
        let mut text = String::new();
        let lines = 1 + (state >> 60) as usize % 6;
        for _ in 0..lines {
            state = state.wrapping_mul(6364136223846793005).wrapping_add(1442695040888963407);
            text.push_str(pieces[(state >> 33) as usize % pieces.len()]);
            state = state.wrapping_mul(6364136223846793005).wrapping_add(1442695040888963407);
            text.push_str(ends[(state >> 33) as usize % ends.len()]);
        }
        let got = NarInfo::parse(&text)
            .ok()
            .map(|i| (i.url, i.nar_size, i.file_size, i.compression));
        assert_eq!(got, by_the_standard_library(&text), "{:?}", text);
    }
}
