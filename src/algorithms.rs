use vstd::prelude::*;

use crate::text::{
    chars_of, is_digest_char, is_hex, is_hex_digit, is_whitespace, is_ws, lower, to_lower,
};

verus! {

/// A hashing algorithm.
#[derive(Debug, Clone, Copy, Hash, PartialEq, Eq, Structural, PartialOrd, Ord)]
pub enum Algorithm {
    UNSPECIFIED,
    SHA1,
    SHA2224,
    SHA2256,
    SHA2384,
    SHA2512,
    SHA3224,
    SHA3256,
    SHA3384,
    SHA3512,
    XXH32,
    XXH64,
    XXH3,
    CRC32,
    MD5,
    WhirlPool,
    BLAKE2B,
    BLAKE2S,
    BLAKE3,
}

impl Algorithm {
    /// Length, in hex characters, of the digests that an algorithm produces.
    pub open spec fn spec_hexlen(self) -> nat {
        match self {
            Algorithm::CRC32 | Algorithm::XXH32 => 8,
            Algorithm::XXH3 | Algorithm::XXH64 => 16,
            Algorithm::MD5 => 32,
            Algorithm::SHA1 => 40,
            Algorithm::SHA2224 | Algorithm::SHA3224 => 56,
            Algorithm::SHA3256 | Algorithm::SHA2256 | Algorithm::BLAKE2S | Algorithm::BLAKE3
            | Algorithm::UNSPECIFIED => 64,
            Algorithm::SHA2384 | Algorithm::SHA3384 => 96,
            Algorithm::BLAKE2B | Algorithm::SHA3512 | Algorithm::SHA2512
            | Algorithm::WhirlPool => 128,
        }
    }

    /// Length, in characters, of the algorithm's output hex string.
    pub fn hexlen(&self) -> (r: usize)
        ensures
            r == self.spec_hexlen(),
    {
        match *self {
            Algorithm::CRC32 | Algorithm::XXH32 => 8,
            Algorithm::XXH3 | Algorithm::XXH64 => 16,
            Algorithm::MD5 => 32,
            Algorithm::SHA3256 | Algorithm::SHA2256 | Algorithm::BLAKE2S | Algorithm::BLAKE3
            | Algorithm::UNSPECIFIED => 64,
            Algorithm::SHA1 => 40,
            Algorithm::SHA2224 | Algorithm::SHA3224 => 56,
            Algorithm::SHA2384 | Algorithm::SHA3384 => 96,
            Algorithm::BLAKE2B | Algorithm::SHA3512 | Algorithm::SHA2512
            | Algorithm::WhirlPool => 128,
        }
    }
}


/// The string with its leading whitespace removed.
pub open spec fn strip_leading_ws(s: Seq<char>) -> Seq<char>
    decreases s.len(),
{
    if s.len() > 0 && is_ws(s[0]) {
        strip_leading_ws(s.drop_first())
    } else {
        s
    }
}

/// The string without a leading `0x` or `0X`.
pub open spec fn strip_hex_prefix(s: Seq<char>) -> Seq<char> {
    if s.len() >= 2 && s[0] == '0' && (s[1] == 'x' || s[1] == 'X') {
        s.skip(2)
    } else {
        s
    }
}

/// The string with every whitespace character removed.
pub open spec fn remove_ws(s: Seq<char>) -> Seq<char>
    decreases s.len(),
{
    if s.len() == 0 {
        s
    } else if is_ws(s.last()) {
        remove_ws(s.drop_last())
    } else {
        remove_ws(s.drop_last()).push(s.last())
    }
}

/// A digest as autodetection reads it: trimmed, without a `0x` prefix and
/// without inner whitespace.
pub open spec fn normalized_digest(s: Seq<char>) -> Seq<char> {
    remove_ws(strip_hex_prefix(strip_leading_ws(s)))
}

pub open spec fn all_dashes(s: Seq<char>) -> bool {
    forall|i: int| 0 <= i < s.len() ==> s[i] == '-'
}

pub open spec fn all_hex(s: Seq<char>) -> bool {
    forall|i: int| 0 <= i < s.len() ==> is_hex_digit(s[i])
}

/// The preferred algorithm for each common digest length.
pub open spec fn algorithm_of_len(n: nat) -> Option<Algorithm> {
    if n == 8 {
        Some(Algorithm::CRC32)
    } else if n == 16 {
        Some(Algorithm::XXH64)
    } else if n == 32 {
        Some(Algorithm::MD5)
    } else if n == 40 {
        Some(Algorithm::SHA1)
    } else if n == 56 {
        Some(Algorithm::SHA2224)
    } else if n == 64 {
        Some(Algorithm::BLAKE3)
    } else if n == 96 {
        Some(Algorithm::SHA2384)
    } else if n == 128 {
        Some(Algorithm::BLAKE2B)
    } else {
        None
    }
}

/// The algorithm of the nearest common length, for an uncommon one.
pub open spec fn nearest_algorithm(n: nat) -> Algorithm {
    if n < 12 {
        Algorithm::CRC32
    } else if n < 36 {
        Algorithm::MD5
    } else if n < 52 {
        Algorithm::BLAKE3
    } else if n < 110 {
        Algorithm::SHA2384
    } else {
        Algorithm::BLAKE2B
    }
}

/// The algorithm that autodetection infers from a digest string.
pub open spec fn detected_algorithm(hash: Seq<char>) -> Algorithm {
    let n = normalized_digest(hash);
    if n.len() > 0 && all_dashes(n) {
        match algorithm_of_len(n.len()) {
            Some(a) => a,
            None => Algorithm::BLAKE3,
        }
    } else if n.len() > 0 && all_hex(n) {
        match algorithm_of_len(n.len()) {
            Some(a) => a,
            None => nearest_algorithm(n.len()),
        }
    } else {
        Algorithm::BLAKE3
    }
}

/// A token character as the algorithm names are matched: `_` reads as `-`,
/// and letters in lower case.
pub open spec fn token_char(c: char) -> char {
    if c == '_' {
        '-'
    } else {
        lower(c)
    }
}

pub open spec fn fold_token(s: Seq<char>) -> Seq<char> {
    s.map_values(|c: char| token_char(c))
}

/// The algorithm that a folded token names, if any.
pub open spec fn algorithm_named(t: Seq<char>) -> Option<Algorithm> {
    if t == "unspecified"@ {
        Some(Algorithm::UNSPECIFIED)
    } else if t == "sha-1"@ || t == "sha1"@ {
        Some(Algorithm::SHA1)
    } else if t == "sha2224"@ || t == "sha-224"@ || t == "sha-2-224"@ {
        Some(Algorithm::SHA2224)
    } else if t == "sha2256"@ || t == "sha-256"@ || t == "sha-2-256"@ {
        Some(Algorithm::SHA2256)
    } else if t == "sha2384"@ || t == "sha-384"@ || t == "sha-2-384"@ {
        Some(Algorithm::SHA2384)
    } else if t == "sha2512"@ || t == "sha-512"@ || t == "sha-2-512"@ {
        Some(Algorithm::SHA2512)
    } else if t == "sha3224"@ || t == "sha3-224"@ || t == "sha-3-224"@ {
        Some(Algorithm::SHA3224)
    } else if t == "sha3256"@ || t == "sha3-256"@ || t == "sha-3-256"@ {
        Some(Algorithm::SHA3256)
    } else if t == "sha3384"@ || t == "sha3-384"@ || t == "sha-3-384"@ {
        Some(Algorithm::SHA3384)
    } else if t == "sha3512"@ || t == "sha3-512"@ || t == "sha-3-512"@ {
        Some(Algorithm::SHA3512)
    } else if t == "crc32"@ {
        Some(Algorithm::CRC32)
    } else if t == "xxhash64"@ || t == "xxh64"@ {
        Some(Algorithm::XXH64)
    } else if t == "xxhash32"@ || t == "xxh32"@ {
        Some(Algorithm::XXH32)
    } else if t == "xxhash3"@ || t == "xxh3"@ {
        Some(Algorithm::XXH3)
    } else if t == "md5"@ {
        Some(Algorithm::MD5)
    } else if t == "blake2b"@ {
        Some(Algorithm::BLAKE2B)
    } else if t == "blake2s"@ {
        Some(Algorithm::BLAKE2S)
    } else if t == "blake3"@ {
        Some(Algorithm::BLAKE3)
    } else if t == "whirlpool"@ {
        Some(Algorithm::WhirlPool)
    } else {
        None
    }
}

/// The message that names a token which is no algorithm.
pub open spec fn unrecognised_message(s: Seq<char>) -> Seq<char> {
    "\""@ + s + "\" is not a recognised hashing algorithm"@
}

/// Every supported algorithm's digest length is one of the common lengths,
/// and autodetection maps each common length back to an algorithm with
/// that length.
pub proof fn law_hexlen_table(a: Algorithm)
    ensures
        ({
            let n = a.spec_hexlen();
            n == 8 || n == 16 || n == 32 || n == 40 || n == 56 || n == 64 || n == 96 || n == 128
        }),
        algorithm_of_len(a.spec_hexlen()) is Some,
        algorithm_of_len(a.spec_hexlen())->Some_0.spec_hexlen()
            == a.spec_hexlen(),
{
}

/// Whether a character vector holds exactly the characters of a literal.
fn eq_lit(v: &Vec<char>, lit: &str) -> (r: bool)
    ensures
        r == (v@ == lit@),
{
    let l = chars_of(lit);
    if v.len() != l.len() {
        return false;
    }
    let mut i: usize = 0;
    while i < v.len()
        invariant
            v.len() == l.len(),
            i <= v.len(),
            l@ == lit@,
            forall|j: int| 0 <= j < i ==> v@[j] == l@[j],
        decreases v.len() - i,
    {
        if v[i] != l[i] {
            return false;
        }
        i += 1;
    }
    assert(v@ =~= l@);
    true
}

impl Algorithm {
    /// Infers the algorithm that produced a digest, from the digest's shape
    /// and length. Best effort: callers may override the guess.
    pub fn autodetect_from_hash(hash: &str) -> (r: Self)
        ensures
            r == detected_algorithm(hash@),
    {
        let v = chars_of(hash);
        let mut i: usize = 0;
        assert(v@.skip(0) =~= v@);
        while i < v.len() && is_whitespace(v[i])
            invariant
                i <= v.len(),
                strip_leading_ws(v@) == strip_leading_ws(v@.skip(i as int)),
            decreases v.len() - i,
        {
            assert(v@.skip(i as int).drop_first() =~= v@.skip(i + 1));
            i += 1;
        }
        assert(strip_leading_ws(v@.skip(i as int)) == v@.skip(i as int));
        if v.len() - i >= 2 && v[i] == '0' && (v[i + 1] == 'x' || v[i + 1] == 'X') {
            assert(v@.skip(i as int).skip(2) =~= v@.skip(i + 2));
            i += 2;
        }
        let start = i;
        assert(strip_hex_prefix(strip_leading_ws(v@)) == v@.skip(start as int));
        let mut n: Vec<char> = Vec::new();
        while i < v.len()
            invariant
                start <= i <= v.len(),
                n@ == remove_ws(v@.subrange(start as int, i as int)),
            decreases v.len() - i,
        {
            assert(v@.subrange(start as int, i + 1).drop_last() =~= v@.subrange(
                start as int,
                i as int,
            ));
            if !is_whitespace(v[i]) {
                n.push(v[i]);
            }
            i += 1;
        }
        assert(v@.subrange(start as int, v.len() as int) =~= v@.skip(start as int));
        assert(n@ == normalized_digest(hash@));

        let mut dashes = true;
        let mut hex = true;
        let mut j: usize = 0;
        while j < n.len()
            invariant
                j <= n.len(),
                dashes == (forall|k: int| 0 <= k < j ==> n@[k] == '-'),
                hex == (forall|k: int| 0 <= k < j ==> is_hex_digit(n@[k])),
            decreases n.len() - j,
        {
            if n[j] != '-' {
                dashes = false;
            }
            if !is_hex(n[j]) {
                hex = false;
            }
            j += 1;
        }
        let len = n.len();
        if len > 0 && dashes {
            match len {
                8 => Algorithm::CRC32,
                16 => Algorithm::XXH64,
                32 => Algorithm::MD5,
                40 => Algorithm::SHA1,
                56 => Algorithm::SHA2224,
                64 => Algorithm::BLAKE3,
                96 => Algorithm::SHA2384,
                128 => Algorithm::BLAKE2B,
                _ => Algorithm::BLAKE3,
            }
        } else if len > 0 && hex {
            match len {
                8 => Algorithm::CRC32,
                16 => Algorithm::XXH64,
                32 => Algorithm::MD5,
                40 => Algorithm::SHA1,
                56 => Algorithm::SHA2224,
                64 => Algorithm::BLAKE3,
                96 => Algorithm::SHA2384,
                128 => Algorithm::BLAKE2B,
                _ => {
                    if len < 12 {
                        Algorithm::CRC32
                    } else if len < 36 {
                        Algorithm::MD5
                    } else if len < 52 {
                        Algorithm::BLAKE3
                    } else if len < 110 {
                        Algorithm::SHA2384
                    } else {
                        Algorithm::BLAKE2B
                    }
                },
            }
        } else {
            Algorithm::BLAKE3
        }
    }

    /// Parses an algorithm name: case does not matter, and `_` reads as `-`
    /// (`sha3-256`, `SHA3_256`). An unknown name is an error that names it.
    pub fn parse(s: &str) -> (r: Result<Algorithm, String>)
        ensures
            match algorithm_named(fold_token(s@)) {
                Some(a) => r == Ok::<Algorithm, String>(a),
                None => r is Err && r->Err_0@ == unrecognised_message(s@),
            },
    {
        let v = chars_of(s);
        let mut t: Vec<char> = Vec::new();
        let mut i: usize = 0;
        while i < v.len()
            invariant
                i <= v.len(),
                v@ == s@,
                t@ == fold_token(v@.take(i as int)),
            decreases v.len() - i,
        {
            let c = v[i];
            let f = if c == '_' {
                '-'
            } else {
                to_lower(c)
            };
            t.push(f);
            assert(fold_token(v@.take(i + 1)) =~= fold_token(v@.take(i as int)).push(f));
            i += 1;
        }
        assert(v@.take(v.len() as int) =~= v@);
        if eq_lit(&t, "unspecified") {
            Ok(Algorithm::UNSPECIFIED)
        } else if eq_lit(&t, "sha-1") || eq_lit(&t, "sha1") {
            Ok(Algorithm::SHA1)
        } else if eq_lit(&t, "sha2224") || eq_lit(&t, "sha-224") || eq_lit(&t, "sha-2-224") {
            Ok(Algorithm::SHA2224)
        } else if eq_lit(&t, "sha2256") || eq_lit(&t, "sha-256") || eq_lit(&t, "sha-2-256") {
            Ok(Algorithm::SHA2256)
        } else if eq_lit(&t, "sha2384") || eq_lit(&t, "sha-384") || eq_lit(&t, "sha-2-384") {
            Ok(Algorithm::SHA2384)
        } else if eq_lit(&t, "sha2512") || eq_lit(&t, "sha-512") || eq_lit(&t, "sha-2-512") {
            Ok(Algorithm::SHA2512)
        } else if eq_lit(&t, "sha3224") || eq_lit(&t, "sha3-224") || eq_lit(&t, "sha-3-224") {
            Ok(Algorithm::SHA3224)
        } else if eq_lit(&t, "sha3256") || eq_lit(&t, "sha3-256") || eq_lit(&t, "sha-3-256") {
            Ok(Algorithm::SHA3256)
        } else if eq_lit(&t, "sha3384") || eq_lit(&t, "sha3-384") || eq_lit(&t, "sha-3-384") {
            Ok(Algorithm::SHA3384)
        } else if eq_lit(&t, "sha3512") || eq_lit(&t, "sha3-512") || eq_lit(&t, "sha-3-512") {
            Ok(Algorithm::SHA3512)
        } else if eq_lit(&t, "crc32") {
            Ok(Algorithm::CRC32)
        } else if eq_lit(&t, "xxhash64") || eq_lit(&t, "xxh64") {
            Ok(Algorithm::XXH64)
        } else if eq_lit(&t, "xxhash32") || eq_lit(&t, "xxh32") {
            Ok(Algorithm::XXH32)
        } else if eq_lit(&t, "xxhash3") || eq_lit(&t, "xxh3") {
            Ok(Algorithm::XXH3)
        } else if eq_lit(&t, "md5") {
            Ok(Algorithm::MD5)
        } else if eq_lit(&t, "blake2b") {
            Ok(Algorithm::BLAKE2B)
        } else if eq_lit(&t, "blake2s") {
            Ok(Algorithm::BLAKE2S)
        } else if eq_lit(&t, "blake3") {
            Ok(Algorithm::BLAKE3)
        } else if eq_lit(&t, "whirlpool") {
            Ok(Algorithm::WhirlPool)
        } else {
            let mut msg = String::from_str("\"");
            msg.append(s);
            msg.append("\" is not a recognised hashing algorithm");
            Err(msg)
        }
    }
}

impl std::str::FromStr for Algorithm {
    type Err = String;

    fn from_str(s: &str) -> Result<Algorithm, String> {
        Algorithm::parse(s)
    }
}

} // verus!
