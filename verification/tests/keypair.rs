use solana_vanity::keypair::{check_keypair, generate_keypair, keypair_file_bytes, try_random_keypair, KeypairBytes};
use solana_vanity::pattern::VanityPattern;

fn hex32(s: &str) -> [u8; 32] {
    let mut out = [0u8; 32];
    for i in 0..32 {
        out[i] = u8::from_str_radix(&s[2 * i..2 * i + 2], 16).unwrap();
    }
    out
}

// RFC 8032, section 7.1, test 1.
fn rfc_keypair() -> KeypairBytes {
    KeypairBytes {
        secret: hex32("9d61b19deffd5a60ba844af492ec2cc44449c5697b326919703bac031cae7f60"),
        public: hex32("d75a980182b10ab7d54bfed3c964073a0ee172f3daa62325af021a68f707511a"),
    }
}

fn derived_public(secret: &[u8; 32]) -> [u8; 32] {
    let sk = ed25519_dalek::SecretKey::from_bytes(secret).unwrap();
    ed25519_dalek::PublicKey::from(&sk).to_bytes()
}

#[test]
fn check_keypair_reports_address_and_secret_text() {
    let k = rfc_keypair();
    let p = VanityPattern::new("FVen", "", false);
    let f = check_keypair(&p, &k).expect("the address starts with FVen");
    assert_eq!(f.address, "FVen3X669xLzsi6N2V91DoiyzHzg1uAgqiT8jZ9nS96Z");
    assert_eq!(
        f.secret_text,
        "49W385L4rePHy6PAaQUovbD2aacgN4HsKXSMeUzRg4fmwXszN91JuMFrQRj3vMDpZuRF3ZknQBuRBoWQJEfXstMw"
    );
    let mut expected = k.secret.to_vec();
    expected.extend_from_slice(&k.public);
    assert_eq!(f.bytes, expected);
}

#[test]
fn check_keypair_rejects_other_prefix_and_suffix() {
    let k = rfc_keypair();
    assert!(check_keypair(&VanityPattern::new("FVeN", "", false), &k).is_none());
    assert!(check_keypair(&VanityPattern::new("", "96Z", false), &k).is_some());
    assert!(check_keypair(&VanityPattern::new("", "96z", false), &k).is_none());
    assert!(check_keypair(&VanityPattern::new("FV", "6Z", false), &k).is_some());
    assert!(check_keypair(&VanityPattern::new("FV", "6X", false), &k).is_none());
}

#[test]
fn check_keypair_ignores_case_when_asked() {
    let k = rfc_keypair();
    assert!(check_keypair(&VanityPattern::new("fven", "96z", true), &k).is_some());
    assert!(check_keypair(&VanityPattern::new("fven", "", false), &k).is_none());
    assert!(check_keypair(&VanityPattern::new("fvex", "", true), &k).is_none());
}

#[test]
fn leading_zero_bytes_become_ones() {
    let mut public = [0u8; 32];
    public[24..].copy_from_slice(&[0x04, 0x30, 0x5e, 0x2b, 0x24, 0x73, 0xf0, 0x58]);
    let k = KeypairBytes { secret: [7u8; 32], public };
    let f = check_keypair(&VanityPattern::new("", "", false), &k).unwrap();
    assert_eq!(f.address, "111111111111111111111111he11owor1d");
    let zero = KeypairBytes { secret: [0u8; 32], public: [0u8; 32] };
    let f = check_keypair(&VanityPattern::new("", "", false), &zero).unwrap();
    assert_eq!(f.address, "11111111111111111111111111111111");
}

#[test]
fn pattern_with_zero_finds_nothing() {
    let p = VanityPattern::new("0", "", false);
    for _ in 0..50 {
        assert!(try_random_keypair(&p).is_none());
    }
    assert!(check_keypair(&p, &rfc_keypair()).is_none());
}

#[test]
fn generated_keypair_is_consistent() {
    let k = generate_keypair();
    assert_eq!(derived_public(&k.secret), k.public);
    let k2 = generate_keypair();
    assert_ne!(k.secret, k2.secret);
}

#[test]
fn keypair_file_bytes_are_secret_then_public() {
    let k = rfc_keypair();
    let b = keypair_file_bytes(&k);
    assert_eq!(b.len(), 64);
    assert_eq!(&b[..32], &k.secret);
    assert_eq!(&b[32..], &k.public);
}

#[test]
fn blank_pattern_always_yields_a_keypair() {
    let p = VanityPattern::new("  ", "", false);
    let f = try_random_keypair(&p).expect("blank pattern");
    assert_eq!(f.bytes.len(), 64);
    let mut secret = [0u8; 32];
    secret.copy_from_slice(&f.bytes[..32]);
    assert_eq!(&derived_public(&secret)[..], &f.bytes[32..]);
    assert_eq!(f.address, bs58::encode(&f.bytes[32..]).into_string());
    assert_eq!(f.secret_text, bs58::encode(&f.bytes).into_string());
}

#[test]
fn random_search_finds_single_char_prefix() {
    // One base58 character: about 58 tries on average.
    let p = VanityPattern::new("A", "", false);
    let mut found = None;
    for _ in 0..100_000 {
        if let Some(f) = try_random_keypair(&p) {
            found = Some(f);
            break;
        }
    }
    let f = found.expect("a match within 100000 tries");
    assert!(f.address.starts_with('A'));
    let mut secret = [0u8; 32];
    secret.copy_from_slice(&f.bytes[..32]);
    assert_eq!(&derived_public(&secret)[..], &f.bytes[32..]);
}
