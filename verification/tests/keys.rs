use indexd::ids::{hash_to_text, key_to_text};
use indexd::logging::{level_named, set_log_level, LogLevel};
use indexd::random::generate_data_key;
use indexd::seed::{generate_recovery_phrase, recovery_phrase, validate_recovery_phrase};
use indexd::signing::AppKey;

fn unhex(s: &str) -> Vec<u8> {
    (0..s.len() / 2).map(|i| u8::from_str_radix(&s[2 * i..2 * i + 2], 16).unwrap()).collect()
}

const SEED: &str = "9d61b19deffd5a60ba844af492ec2cc44449c5697b326919703bac031cae7f60";
const PUBLIC: &str = "d75a980182b10ab7d54bfed3c964073a0ee172f3daa62325af021a68f707511a";
const SIGNATURE: &str = "e5564300c360ac729086e2cc806e828a84877f1eb8e5d974d873e065224901555fb8821590a33bacc61e39701cf9b46bd25bf5f0595bbe24655141438e7a100b";

#[test]
fn seed_gives_its_keypair() {
    let key = AppKey::new(&unhex(SEED)).unwrap();
    assert_eq!(key.export(), unhex(&format!("{}{}", SEED, PUBLIC)));
    assert_eq!(key.public_key(), format!("ed25519:{}", PUBLIC));
}

#[test]
fn exported_key_imports_as_itself() {
    let key = AppKey::new(&[42; 32]).unwrap();
    let again = AppKey::new(&key.export()).unwrap();
    assert_eq!(again.export(), key.export());
    assert_eq!(key.clone().export(), key.export());
    let odd: Vec<u8> = (0..64).collect();
    assert_eq!(AppKey::new(&odd).unwrap().export(), odd);
}

#[test]
fn other_lengths_are_no_keys() {
    for n in [0, 31, 33, 63, 65] {
        match AppKey::new(&vec![1; n]) {
            Err(e) => assert_eq!(e, "app key must be 64 bytes (keypair) or 32 bytes (seed)"),
            Ok(_) => panic!("accepted {} bytes", n),
        }
    }
}

#[test]
fn signatures_verify() {
    let key = AppKey::new(&unhex(SEED)).unwrap();
    let signature = key.sign(b"");
    assert_eq!(signature, unhex(SIGNATURE));
    assert_eq!(key.verify_signature(b"", &signature), Ok(true));
    assert_eq!(key.verify_signature(b"x", &signature), Ok(false));
    assert_eq!(key.try_verify_signature(b"", &signature), Some(Ok(true)));
    let mut bent = signature.clone();
    bent[0] ^= 1;
    assert_eq!(key.verify_signature(b"", &bent), Ok(false));
    let error = Err("signatures must be 64 bytes".to_string());
    assert_eq!(key.verify_signature(b"", &signature[..63]), error);
    assert_eq!(key.try_verify_signature(b"", &signature[..63]), Some(error));
}

#[test]
fn halves_that_do_not_belong_together_do_not_verify() {
    let mut pair = AppKey::new(&[1; 32]).unwrap().export();
    let other = AppKey::new(&[2; 32]).unwrap().export();
    pair[32..].copy_from_slice(&other[32..]);
    let key = AppKey::new(&pair).unwrap();
    let signature = key.sign(b"message");
    assert_eq!(signature, AppKey::new(&[1; 32]).unwrap().sign(b"message"));
    assert_eq!(key.try_verify_signature(b"message", &signature), Some(Ok(false)));
}

#[test]
fn bytes_that_are_no_public_key_are_found_out() {
    let mut pair = AppKey::new(&[1; 32]).unwrap().export();
    pair[32..].copy_from_slice(&[2; 32]);
    let decodes = ed25519_dalek::VerifyingKey::from_bytes(&[2; 32]).is_ok();
    assert!(!decodes);
    let key = AppKey::new(&pair).unwrap();
    assert_eq!(key.try_verify_signature(b"message", &[0; 64]), None);
    let error = Err("signatures must be 64 bytes".to_string());
    assert_eq!(key.verify_signature(b"message", &[0; 3]), error);
    assert_eq!(key.try_verify_signature(b"message", &[0; 3]), Some(error));
}

#[test]
fn phrases_of_known_entropy() {
    let cases = [
        (
            [23, 154, 249, 239, 129, 81, 216, 147, 144, 163, 207, 136, 238, 88, 11, 253],
            "bleak style know actor budget endorse dream ketchup material index actual wide",
        ),
        (
            [125, 190, 141, 81, 70, 235, 204, 217, 162, 19, 65, 96, 237, 125, 157, 255],
            "laundry virtual february miss rubber holiday marriage habit genius hip guess yard",
        ),
    ];
    for (entropy, phrase) in cases {
        assert_eq!(recovery_phrase(entropy), phrase);
        assert_eq!(validate_recovery_phrase(phrase), Ok(()));
    }
}

#[test]
fn generated_phrases_are_valid() {
    let phrase = generate_recovery_phrase();
    assert_eq!(phrase.split(' ').count(), 12);
    assert!(phrase.split(' ').all(|word| !word.is_empty()));
    assert_eq!(validate_recovery_phrase(&phrase), Ok(()));
    assert_ne!(phrase, generate_recovery_phrase());
}

#[test]
fn bad_phrases_are_refused() {
    let parse = Err("failed to parse recovery phrase".to_string());
    assert_eq!(validate_recovery_phrase(""), parse);
    assert_eq!(validate_recovery_phrase("not a phrase"), parse);
    // fifteen words are a phrase, but of more entropy
    let long = "abandon abandon abandon abandon abandon abandon abandon abandon abandon abandon \
                abandon abandon abandon abandon address";
    assert_eq!(
        validate_recovery_phrase(long),
        Err("invalid length of entropy, must be 16 bytes".to_string())
    );
}

#[test]
fn data_keys_are_random() {
    let key = generate_data_key();
    assert_eq!(key.len(), 32);
    assert_ne!(key, generate_data_key());
}

#[test]
fn levels_are_named() {
    assert_eq!(level_named("debug"), LogLevel::Debug);
    assert_eq!(level_named("warn"), LogLevel::Warn);
    assert_eq!(level_named("error"), LogLevel::Error);
    assert_eq!(level_named("info"), LogLevel::Info);
    assert_eq!(level_named(""), LogLevel::Info);
}

#[test]
fn ids_and_keys_have_texts() {
    assert_eq!(hash_to_text(&[0x0f; 32]), "0f".repeat(32));
    assert_eq!(key_to_text(&[0xa0; 32]), format!("ed25519:{}", "a0".repeat(32)));
}

#[test]
fn log_levels_by_name() {
    assert_eq!(set_log_level("debug"), LogLevel::Debug);
    assert_eq!(log::max_level(), log::LevelFilter::Debug);
    assert_eq!(set_log_level("warn"), LogLevel::Warn);
    assert_eq!(log::max_level(), log::LevelFilter::Warn);
    assert_eq!(set_log_level("error"), LogLevel::Error);
    assert_eq!(log::max_level(), log::LevelFilter::Error);
    assert_eq!(set_log_level("info"), LogLevel::Info);
    assert_eq!(log::max_level(), log::LevelFilter::Info);
    assert_eq!(set_log_level("DEBUG"), LogLevel::Info);
    assert_eq!(log::max_level(), log::LevelFilter::Info);
}
