use mrpack_install::hashing::{hex_of_bytes, sha1_hex, str_eq_fold_case};
use mrpack_install::mirror::MirrorFetch;

fn urls(n: usize) -> Vec<String> {
    (0..n).map(|i| format!("https://mirror{}.example.com/f", i)).collect()
}

#[test]
fn hex_rendering_exact() {
    assert_eq!(hex_of_bytes(&[]), "");
    assert_eq!(hex_of_bytes(&[0x00, 0xff, 0x1a]), "00ff1a");
}

#[test]
fn sha1_known_value() {
    // SHA-1 of "hello world", a published reference value.
    assert_eq!(
        sha1_hex(b"hello world"),
        "2aae6c35c94fcfb415dbe95f408b9ce91ee846ed"
    );
}

#[test]
fn fold_case_comparison() {
    assert!(str_eq_fold_case("ABCdef01", "abcDEF01"));
    assert!(!str_eq_fold_case("abc", "abd"));
    assert!(!str_eq_fold_case("abc", "ab"));
}

#[test]
fn accepts_without_expected_hash() {
    let m = MirrorFetch::new(urls(1), None);
    assert!(m.accepts(b"anything"));
}

#[test]
fn accepts_case_insensitive_hash() {
    let good = b"payload".to_vec();
    let hex = sha1_hex(&good).to_string().to_uppercase();
    let m = MirrorFetch::new(urls(1), Some(hex));
    assert!(m.accepts(&good));
    assert!(!m.accepts(b"tampered"));
}

#[test]
fn mirror_fallback_returns_correct_bytes() {
    // First n-1 candidates serve wrong-hash bytes, the last serves the
    // right ones: the machine rejects each wrong response, advances, and
    // hands back exactly the correct bytes.
    let good = b"the real content".to_vec();
    let expected = sha1_hex(&good).to_string();
    let mut m = MirrorFetch::new(urls(3), Some(expected));

    let mut got: Option<Vec<u8>> = None;
    let mut attempts = 0;
    while let Some(_url) = m.current_url() {
        attempts += 1;
        let served: Vec<u8> = if attempts < 3 {
            b"wrong bytes".to_vec()
        } else {
            good.clone()
        };
        if let Some(bytes) = m.offer(served) {
            got = Some(bytes);
            break;
        }
    }
    assert_eq!(attempts, 3);
    assert_eq!(got, Some(good));
}

#[test]
fn mirror_exhaustion_when_all_fail() {
    let good = b"content".to_vec();
    let expected = sha1_hex(&good).to_string();
    let mut m = MirrorFetch::new(urls(2), Some(expected));

    let mut got: Option<Vec<u8>> = None;
    while let Some(_url) = m.current_url() {
        if let Some(bytes) = m.offer(b"always wrong".to_vec()) {
            got = Some(bytes);
            break;
        }
    }
    assert_eq!(got, None);
    assert!(m.current_url().is_none());
}

#[test]
fn transport_failures_advance() {
    let mut m = MirrorFetch::new(urls(2), None);
    assert!(m.current_url().is_some());
    m.transport_failed();
    assert!(m.current_url().is_some());
    m.transport_failed();
    assert!(m.current_url().is_none());
}

#[test]
fn exhaustion_names_all_attempted_urls() {
    let good = b"content".to_vec();
    let expected = sha1_hex(&good).to_string();
    let mut m = MirrorFetch::new(urls(3), Some(expected));
    while m.current_url().is_some() {
        if m.offer(b"always wrong".to_vec()).is_some() {
            break;
        }
    }
    assert_eq!(m.attempted_urls(), urls(3));
}
