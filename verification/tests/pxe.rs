use nixpxe::config::{Config, Host, Ipmi, Pxe};
use nixpxe::pxe::{
    boot_descriptor, cachix_pin_url, error, find_cachix_pin, host_for_mac, parse_store_path,
    CachixPin, Found, LastRevision, PinError, PxeError, Resolution, ResolveError, Signer, Step,
    StorePathError, MAX_HOPS,
};
use sha2::{Digest, Sha256};

const HASH1: &str = "0123456789abcdfghijklmnpqrsvwxyz";
const HASH2: &str = "zyxwvsrqpnmlkjihgfdcba9876543210";

fn hmac_by_hand(key: &[u8; 32], message: &[u8]) -> Vec<u8> {
    let mut inner_key = [0x36u8; 64];
    let mut outer_key = [0x5cu8; 64];
    for i in 0..32 {
        inner_key[i] ^= key[i];
        outer_key[i] ^= key[i];
    }
    let mut inner = Sha256::new();
    inner.update(inner_key);
    inner.update(message);
    let mut outer = Sha256::new();
    outer.update(outer_key);
    outer.update(inner.finalize());
    outer.finalize().to_vec()
}

fn base64_url_by_hand(bytes: &[u8]) -> String {
    let alphabet = b"ABCDEFGHIJKLMNOPQRSTUVWXYZabcdefghijklmnopqrstuvwxyz0123456789-_";
    let mut out = String::new();
    for chunk in bytes.chunks(3) {
        let b = [chunk[0], *chunk.get(1).unwrap_or(&0), *chunk.get(2).unwrap_or(&0)];
        let n = ((b[0] as u32) << 16) | ((b[1] as u32) << 8) | (b[2] as u32);
        out.push(alphabet[((n >> 18) & 63) as usize] as char);
        out.push(alphabet[((n >> 12) & 63) as usize] as char);
        if chunk.len() > 1 {
            out.push(alphabet[((n >> 6) & 63) as usize] as char);
        } else {
            out.push('=');
        }
        if chunk.len() > 2 {
            out.push(alphabet[(n & 63) as usize] as char);
        } else {
            out.push('=');
        }
    }
    out
}

#[test]
fn store_path_gives_hash_and_rest() {
    let target = format!("/nix/store/{HASH2}-foo/sub/file");
    assert_eq!(
        parse_store_path(&target),
        Ok((String::from(HASH2), String::from("sub/file")))
    );
}

#[test]
fn store_path_of_an_artifact_itself_has_an_empty_rest() {
    let target = format!("/nix/store/{HASH1}-linux-6.1");
    assert_eq!(parse_store_path(&target), Ok((String::from(HASH1), String::new())));
    let target = format!("/nix/store/{HASH1}-linux-6.1/");
    assert_eq!(parse_store_path(&target), Ok((String::from(HASH1), String::new())));
}

#[test]
fn store_path_skips_repeated_separators() {
    let target = format!("/nix/store//{HASH1}-a//b/c");
    assert_eq!(parse_store_path(&target), Ok((String::from(HASH1), String::from("b/c"))));
}

#[test]
fn store_path_outside_the_store_is_refused() {
    assert_eq!(parse_store_path("/etc/passwd"), Err(StorePathError::NotStorePath));
    assert_eq!(parse_store_path("nix/store/x"), Err(StorePathError::NotStorePath));
    assert_eq!(parse_store_path(""), Err(StorePathError::NotStorePath));
    let target = format!("/nix/storeroom/{HASH1}-a");
    assert_eq!(parse_store_path(&target), Err(StorePathError::NotStorePath));
}

#[test]
fn store_path_without_a_component_is_refused() {
    assert_eq!(parse_store_path("/nix/store"), Err(StorePathError::BadPath));
    assert_eq!(parse_store_path("/nix/store/"), Err(StorePathError::BadPath));
}

#[test]
fn store_path_with_a_bad_name_is_refused() {
    assert_eq!(parse_store_path("/nix/store/short-name"), Err(StorePathError::BadSymlink));
    let upper = format!("/nix/store/{}-a", HASH1.to_uppercase());
    assert_eq!(parse_store_path(&upper), Err(StorePathError::BadSymlink));
    let no_name = format!("/nix/store/{HASH1}-");
    assert_eq!(parse_store_path(&no_name), Err(StorePathError::BadSymlink));
    let no_dash = format!("/nix/store/{HASH1}_a");
    assert_eq!(parse_store_path(&no_dash), Err(StorePathError::BadSymlink));
    let bad_char = format!("/nix/store/{HASH1}-a b");
    assert_eq!(parse_store_path(&bad_char), Err(StorePathError::BadSymlink));
    let all_allowed = format!("/nix/store/{HASH1}--.+_?=09azAZ");
    assert_eq!(parse_store_path(&all_allowed), Ok((String::from(HASH1), String::new())));
}

#[test]
fn symlink_into_another_artifact_is_followed_there() {
    let at = Resolution::new(String::from(HASH1), String::from("initrd"));
    let found = Found::Symlink { target: format!("/nix/store/{HASH2}-foo/sub/file") };
    match at.step(found) {
        Step::Follow(next) => {
            assert_eq!(next.hash, HASH2);
            assert_eq!(next.path, "sub/file");
            assert_eq!(next.hops, 1);
        }
        other => panic!("{:?}", other),
    }
}

#[test]
fn regular_file_is_read_and_directory_is_refused() {
    let at = Resolution::new(String::from(HASH1), String::from("cmdline"));
    assert!(matches!(at.step(Found::Regular), Step::Read));
    assert!(matches!(at.step(Found::Directory), Step::Fail(ResolveError::IsDirectory)));
}

#[test]
fn missing_file_is_reported() {
    let at = Resolution::new(String::from(HASH1), String::from("nothing"));
    assert!(matches!(at.step(Found::Missing), Step::Fail(ResolveError::NotFound)));
    let e = PxeError::Unresolved(ResolveError::NotFound);
    assert_eq!(e.status(), 404);
    assert_eq!(e.detail().error, "no such file");
    assert_eq!(PxeError::Unresolved(ResolveError::IsDirectory).status(), 404);
}

#[test]
fn symlink_out_of_the_store_is_refused() {
    let at = Resolution::new(String::from(HASH1), String::from("x"));
    let step = at.step(Found::Symlink { target: String::from("../y") });
    assert!(matches!(
        step,
        Step::Fail(ResolveError::BadTarget(StorePathError::NotStorePath))
    ));
}

#[test]
fn chain_of_symlinks_ends_at_the_file() {
    let hashes: Vec<String> = (0..5).map(|i| format!("{:032}", i)).collect();
    let mut at = Resolution::new(hashes[0].clone(), String::from("f0"));
    for i in 1..5 {
        let target = format!("/nix/store/{}-pkg/f{}", hashes[i], i);
        at = match at.step(Found::Symlink { target }) {
            Step::Follow(next) => next,
            other => panic!("{:?}", other),
        };
        assert_eq!(at.hash, hashes[i]);
        assert_eq!(at.path, format!("f{}", i));
        assert_eq!(at.hops, i as u32);
    }
    assert!(matches!(at.step(Found::Regular), Step::Read));
}

#[test]
fn cycle_of_symlinks_is_given_up() {
    let target = format!("/nix/store/{HASH1}-loop/self");
    let mut at = Resolution::new(String::from(HASH1), String::from("self"));
    for _ in 0..MAX_HOPS {
        at = match at.step(Found::Symlink { target: target.clone() }) {
            Step::Follow(next) => next,
            other => panic!("{:?}", other),
        };
    }
    assert_eq!(at.hops, 32);
    assert!(matches!(
        at.step(Found::Symlink { target }),
        Step::Fail(ResolveError::TooManyLinks)
    ));
}

#[test]
fn digest_is_hmac_sha256_of_hash_then_path() {
    let secret = [7u8; 32];
    let signer = Signer::new(secret);
    let tag = signer.mac_url(HASH1, "bzImage");
    let mut message = HASH1.as_bytes().to_vec();
    message.extend_from_slice(b"bzImage");
    assert_eq!(tag, hmac_by_hand(&secret, &message));
    assert_eq!(tag.len(), 32);
    assert_ne!(tag, message);
}

#[test]
fn digest_has_no_separator_between_hash_and_path() {
    let signer = Signer::new([1u8; 32]);
    assert_eq!(signer.mac_url("ab", "c"), signer.mac_url("a", "bc"));
    assert_ne!(signer.mac_url("ab", "c"), signer.mac_url("c", "ab"));
}

#[test]
fn signature_is_the_digest_in_url_safe_base64() {
    let signer = Signer::new([9u8; 32]);
    let tag = signer.mac_url(HASH1, "initrd");
    let key = signer.sign(HASH1, "initrd");
    assert_eq!(key, base64_url_by_hand(&tag));
    assert_eq!(key.len(), 44);
    assert!(key.ends_with('='));
}

#[test]
fn signature_verifies() {
    let signer = Signer::new([3u8; 32]);
    for (hash, path) in [(HASH1, "bzImage"), (HASH2, "a/b/c"), ("", ""), (HASH1, "")] {
        let key = signer.sign(hash, path);
        assert!(signer.verify(hash, path, &key));
        assert!(signer.verify_file_url(hash, path, &key).is_ok());
        assert!(signer.authorize(hash, path, Some(&key)).is_ok());
    }
}

#[test]
fn signature_with_one_bit_flipped_is_refused() {
    let signer = Signer::new([3u8; 32]);
    let key = signer.sign(HASH1, "bzImage");
    let bytes = key.as_bytes();
    for i in 0..bytes.len() {
        for bit in 0..8 {
            let mut flipped = bytes.to_vec();
            flipped[i] ^= 1 << bit;
            if let Ok(text) = String::from_utf8(flipped) {
                assert!(!signer.verify(HASH1, "bzImage", &text), "{}", text);
            }
        }
    }
}

#[test]
fn signature_for_another_file_is_refused() {
    let signer = Signer::new([3u8; 32]);
    let key = signer.sign(HASH1, "bzImage");
    assert!(!signer.verify(HASH1, "initrd", &key));
    assert!(!signer.verify(HASH2, "bzImage", &key));
    assert!(!signer.verify(HASH1, "bzImage", ""));
    assert!(!signer.verify(HASH1, "bzImage", "not base64!"));
    assert!(!signer.verify(HASH1, "bzImage", &key[..43]));
}

#[test]
fn signature_of_another_signer_is_refused() {
    let key = Signer::new([3u8; 32]).sign(HASH1, "bzImage");
    assert!(!Signer::new([4u8; 32]).verify(HASH1, "bzImage", &key));
    let fresh = Signer::generate();
    let key = fresh.sign(HASH1, "bzImage");
    assert!(fresh.verify(HASH1, "bzImage", &key));
    let other = Signer::generate();
    assert!(!other.verify(HASH1, "bzImage", &key));
}

#[test]
fn request_without_key_is_refused() {
    let signer = Signer::new([3u8; 32]);
    assert!(matches!(
        signer.authorize(HASH1, "bzImage", None),
        Err(PxeError::InvalidAuthentication)
    ));
    assert!(matches!(
        signer.authorize(HASH1, "bzImage", Some("AAAA")),
        Err(PxeError::InvalidAuthentication)
    ));
    assert!(matches!(
        signer.verify_file_url(HASH1, "bzImage", "AAAA"),
        Err(PxeError::InvalidAuthentication)
    ));
}

#[test]
fn file_url_carries_the_signature() {
    let signer = Signer::new([5u8; 32]);
    let key = signer.sign(HASH1, "bzImage");
    assert_eq!(
        signer.file_url(HASH1, "bzImage"),
        format!("/pxe/file/{HASH1}/bzImage?key={key}")
    );
}

#[test]
fn errors_map_to_status_and_message() {
    let e = PxeError::InvalidAuthentication;
    assert_eq!(e.status(), 400);
    assert_eq!(e.detail().error, "key is missing or invalid");
    let e = PxeError::UnknownHost(String::from("aa:bb"));
    assert_eq!(e.status(), 404);
    assert_eq!(e.detail().error, "no PXE configuration for MAC aa:bb");
    let e = PxeError::Internal(String::from("disk on fire"));
    assert_eq!(e.status(), 500);
    assert_eq!(e.detail().error, "internal server error");
    assert_eq!(error(String::from("x")).error, "x");
}

fn pin(name: &str, store_path: &str) -> CachixPin {
    CachixPin {
        name: String::from(name),
        last_revision: LastRevision { store_path: String::from(store_path) },
    }
}

#[test]
fn pin_is_found_by_name() {
    let pins = vec![
        pin("alpha", &format!("/nix/store/{HASH1}-alpha")),
        pin("beta", &format!("/nix/store/{HASH2}-beta")),
        pin("alpha", &format!("/nix/store/{HASH2}-later")),
    ];
    assert_eq!(find_cachix_pin(&pins, "alpha"), Ok(String::from(HASH1)));
    assert_eq!(find_cachix_pin(&pins, "beta"), Ok(String::from(HASH2)));
    assert_eq!(find_cachix_pin(&pins, "gamma"), Err(PinError::NotFound));
    assert_eq!(find_cachix_pin(&Vec::new(), "alpha"), Err(PinError::NotFound));
}

#[test]
fn pin_outside_the_store_is_refused() {
    let pins = vec![pin("alpha", "/tmp/alpha")];
    assert_eq!(
        find_cachix_pin(&pins, "alpha"),
        Err(PinError::BadStorePath(StorePathError::NotStorePath))
    );
}

#[test]
fn pin_url_lies_under_the_cache() {
    assert_eq!(
        cachix_pin_url("mycache"),
        Some(String::from("https://app.cachix.org/api/v1/cache/mycache/pin"))
    );
}

fn config() -> Config {
    Config {
        host: vec![
            (String::from("a"), Host { address: String::from("10.0.0.1"), mac: None }),
            (
                String::from("b"),
                Host { address: String::from("10.0.0.2"), mac: Some(String::from("aa:bb")) },
            ),
            (
                String::from("c"),
                Host { address: String::from("10.0.0.3"), mac: Some(String::from("aa:bb")) },
            ),
        ],
        ipmi: Ipmi { username: String::from("admin"), password: None, password_file: None },
        pxe: Pxe { caches: vec![], cachix: String::from("x"), store: String::from("/srv") },
    }
}

#[test]
fn booting_host_is_found_by_mac() {
    assert_eq!(host_for_mac(&config(), "aa:bb").unwrap(), 1);
    match host_for_mac(&config(), "cc:dd") {
        Err(PxeError::UnknownHost(mac)) => assert_eq!(mac, "cc:dd"),
        other => panic!("{:?}", other),
    }
}

#[test]
fn boot_descriptor_signs_kernel_and_initrd() {
    let signer = Signer::new([5u8; 32]);
    let d = boot_descriptor(&signer, HASH1, b"  console=ttyS0 quiet\n".to_vec()).unwrap();
    assert_eq!(d.cmdline, "console=ttyS0 quiet");
    assert_eq!(d.kernel, signer.file_url(HASH1, "bzImage"));
    assert_eq!(d.initrd, vec![signer.file_url(HASH1, "initrd")]);
}

#[test]
fn boot_descriptor_refuses_a_cmdline_that_is_not_text() {
    let signer = Signer::new([5u8; 32]);
    assert!(matches!(
        boot_descriptor(&signer, HASH1, vec![0xff]),
        Err(PxeError::Internal(_))
    ));
}

#[test]
fn content_hash_shape() {
    assert!(nixpxe::pxe::store_path::check_content_hash(HASH1));
    assert!(!nixpxe::pxe::store_path::check_content_hash(&HASH1[1..]));
    assert!(!nixpxe::pxe::store_path::check_content_hash(&HASH1.to_uppercase()));
    assert!(!nixpxe::pxe::store_path::check_content_hash(""));
}

#[test]
fn store_names_agree_with_the_pattern() {
    let pattern = regex::Regex::new(r"^(?<hash>[0-9a-z]{32})-[-.+_?=0-9a-zA-Z]+$").unwrap();
    let names = [
        format!("{HASH1}-hello-2.12"),
        format!("{HASH1}-a"),
        format!("{HASH1}-"),
        format!("{HASH1}"),
        format!("{HASH1}-a\n"),
        format!("{HASH1}-a b"),
        format!("{HASH1}-ä"),
        format!("{}-a", &HASH1[1..]),
        format!("{}x-a", HASH1),
        format!("{}-a", HASH1.to_uppercase()),
        format!("{HASH1}-A.b+c_d?e=f-0"),
        format!("{HASH1}_a"),
        format!("{HASH1}-a~"),
        String::from("-"),
        String::from("x"),
    ];
    for name in names {
        let expected = pattern
            .captures(&name)
            .map(|m| m.name("hash").unwrap().as_str().to_owned());
        let got = parse_store_path(&format!("/nix/store/{name}")).ok().map(|(hash, _)| hash);
        assert_eq!(got, expected, "{:?}", name);
    }
}

#[test]
fn store_paths_agree_with_path_components() {
    let targets = [
        format!("/nix/store/{HASH1}-a"),
        format!("/nix/store/{HASH1}-a/"),
        format!("/nix/store/{HASH1}-a/b"),
        format!("/nix/store/{HASH1}-a/b/c.txt"),
        format!("/nix/store/{HASH1}-a//b"),
        format!("/nix/store//{HASH1}-a/b"),
        format!("/nix/store/{HASH1}-a/../b"),
        String::from("/nix/store"),
        String::from("/nix/store/"),
        String::from("/nix/stores/x"),
        String::from("/nix"),
        String::from("/etc/passwd"),
        String::from("relative/path"),
    ];
    for target in targets {
        let path = camino::Utf8Path::new(&target);
        let expected = path.strip_prefix("/nix/store").ok().and_then(|rest| {
            let mut components = rest.components();
            match components.next() {
                Some(camino::Utf8Component::Normal(name)) => {
                    Some((name[..32].to_owned(), components.as_path().as_str().to_owned()))
                }
                _ => None,
            }
        });
        assert_eq!(parse_store_path(&target).ok(), expected, "{:?}", target);
    }
}
