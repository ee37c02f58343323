use std::str::FromStr;

use quickdash::Algorithm;

#[test]
fn hexlen_of_each_algorithm() {
    assert_eq!(Algorithm::CRC32.hexlen(), 8);
    assert_eq!(Algorithm::XXH32.hexlen(), 8);
    assert_eq!(Algorithm::XXH64.hexlen(), 16);
    assert_eq!(Algorithm::XXH3.hexlen(), 16);
    assert_eq!(Algorithm::MD5.hexlen(), 32);
    assert_eq!(Algorithm::SHA1.hexlen(), 40);
    assert_eq!(Algorithm::SHA2224.hexlen(), 56);
    assert_eq!(Algorithm::SHA3224.hexlen(), 56);
    assert_eq!(Algorithm::SHA2256.hexlen(), 64);
    assert_eq!(Algorithm::SHA3256.hexlen(), 64);
    assert_eq!(Algorithm::BLAKE2S.hexlen(), 64);
    assert_eq!(Algorithm::BLAKE3.hexlen(), 64);
    assert_eq!(Algorithm::UNSPECIFIED.hexlen(), 64);
    assert_eq!(Algorithm::SHA2384.hexlen(), 96);
    assert_eq!(Algorithm::SHA3384.hexlen(), 96);
    assert_eq!(Algorithm::SHA2512.hexlen(), 128);
    assert_eq!(Algorithm::SHA3512.hexlen(), 128);
    assert_eq!(Algorithm::BLAKE2B.hexlen(), 128);
    assert_eq!(Algorithm::WhirlPool.hexlen(), 128);
}

#[test]
fn autodetect_placeholders() {
    assert_eq!(Algorithm::autodetect_from_hash(&"-".repeat(64)), Algorithm::BLAKE3);
    assert_eq!(Algorithm::autodetect_from_hash(&"-".repeat(128)), Algorithm::BLAKE2B);
    assert_eq!(Algorithm::autodetect_from_hash(&"-".repeat(40)), Algorithm::SHA1);
    assert_eq!(Algorithm::autodetect_from_hash(&"-".repeat(8)), Algorithm::CRC32);
    assert_eq!(Algorithm::autodetect_from_hash(&"-".repeat(96)), Algorithm::SHA2384);
    // an uncommon placeholder length falls back to BLAKE3
    assert_eq!(Algorithm::autodetect_from_hash(&"-".repeat(10)), Algorithm::BLAKE3);
}

#[test]
fn autodetect_hex_lengths() {
    assert_eq!(Algorithm::autodetect_from_hash(&"a".repeat(8)), Algorithm::CRC32);
    assert_eq!(Algorithm::autodetect_from_hash(&"B".repeat(16)), Algorithm::XXH64);
    assert_eq!(Algorithm::autodetect_from_hash(&"0".repeat(32)), Algorithm::MD5);
    assert_eq!(Algorithm::autodetect_from_hash(&"f".repeat(40)), Algorithm::SHA1);
    assert_eq!(Algorithm::autodetect_from_hash(&"1".repeat(56)), Algorithm::SHA2224);
    assert_eq!(Algorithm::autodetect_from_hash(&"c".repeat(64)), Algorithm::BLAKE3);
    assert_eq!(Algorithm::autodetect_from_hash(&"d".repeat(96)), Algorithm::SHA2384);
    assert_eq!(Algorithm::autodetect_from_hash(&"e".repeat(128)), Algorithm::BLAKE2B);
}

#[test]
fn autodetect_nearest_bucket() {
    assert_eq!(Algorithm::autodetect_from_hash(&"a".repeat(11)), Algorithm::CRC32);
    assert_eq!(Algorithm::autodetect_from_hash(&"a".repeat(12)), Algorithm::MD5);
    assert_eq!(Algorithm::autodetect_from_hash(&"a".repeat(35)), Algorithm::MD5);
    assert_eq!(Algorithm::autodetect_from_hash(&"a".repeat(36)), Algorithm::BLAKE3);
    assert_eq!(Algorithm::autodetect_from_hash(&"a".repeat(51)), Algorithm::BLAKE3);
    assert_eq!(Algorithm::autodetect_from_hash(&"a".repeat(52)), Algorithm::SHA2384);
    assert_eq!(Algorithm::autodetect_from_hash(&"a".repeat(109)), Algorithm::SHA2384);
    assert_eq!(Algorithm::autodetect_from_hash(&"a".repeat(110)), Algorithm::BLAKE2B);
    assert_eq!(Algorithm::autodetect_from_hash(&"a".repeat(200)), Algorithm::BLAKE2B);
}

#[test]
fn autodetect_normalizes_input() {
    let h = format!("  0x{} {}\t", "ab".repeat(10), "cd".repeat(10));
    assert_eq!(Algorithm::autodetect_from_hash(&h), Algorithm::SHA1);
    let h = format!("0X{}", "a".repeat(32));
    assert_eq!(Algorithm::autodetect_from_hash(&h), Algorithm::MD5);
}

#[test]
fn autodetect_falls_back_to_blake3() {
    assert_eq!(Algorithm::autodetect_from_hash(""), Algorithm::BLAKE3);
    assert_eq!(Algorithm::autodetect_from_hash("   "), Algorithm::BLAKE3);
    assert_eq!(Algorithm::autodetect_from_hash(&"z".repeat(8)), Algorithm::BLAKE3);
    assert_eq!(Algorithm::autodetect_from_hash("abcd-1234"), Algorithm::BLAKE3);
}

#[test]
fn parse_algorithm_names() {
    assert_eq!(Algorithm::parse("BLAKE3"), Ok(Algorithm::BLAKE3));
    assert_eq!(Algorithm::parse("MD5"), Ok(Algorithm::MD5));
    assert_eq!(Algorithm::parse("sha3-256"), Ok(Algorithm::SHA3256));
    assert_eq!(Algorithm::parse("SHA3_256"), Ok(Algorithm::SHA3256));
    assert_eq!(Algorithm::parse("Sha-2-512"), Ok(Algorithm::SHA2512));
    assert_eq!(Algorithm::parse("sha_1"), Ok(Algorithm::SHA1));
    assert_eq!(Algorithm::parse("xxHash64"), Ok(Algorithm::XXH64));
    assert_eq!(Algorithm::parse("WhirlPool"), Ok(Algorithm::WhirlPool));
    assert_eq!(Algorithm::parse("unspecified"), Ok(Algorithm::UNSPECIFIED));
}

#[test]
fn parse_unknown_algorithm_names_the_token() {
    assert_eq!(
        Algorithm::parse("sha-999"),
        Err("\"sha-999\" is not a recognised hashing algorithm".to_string())
    );
    assert!(Algorithm::parse("").is_err());
}

#[test]
fn from_str_matches_parse() {
    assert_eq!(Algorithm::from_str("BLAKE2B"), Ok(Algorithm::BLAKE2B));
    assert!(Algorithm::from_str("nope").is_err());
}
