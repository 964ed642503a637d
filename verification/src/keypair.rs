//! Ed25519 keypairs: drawing one at random, and checking it against a
//! vanity pattern.

use vstd::prelude::*;
use crate::base58::{base58_text, base58_encode, in_alphabet, lemma_base58_text_in_alphabet};
use crate::pattern::{VanityPattern, accepts_ascii, lemma_unmatchable_prefix_rejects, lemma_unmatchable_suffix_rejects};

verus! {

broadcast use vstd::array::group_array_axioms;

/// The Ed25519 public key that `ed25519_dalek` derives from secret key
/// bytes `secret`.
pub uninterp spec fn ed25519_public_key(secret: Seq<u8>) -> Seq<u8>;

/// The 32 secret and 32 public bytes of an Ed25519 keypair.
pub struct KeypairBytes {
    pub secret: [u8; 32],
    pub public: [u8; 32],
}

impl KeypairBytes {
    /// The public half is the one derived from the secret half.
    pub open spec fn is_consistent(&self) -> bool {
        self.public@ == ed25519_public_key(self.secret@)
    }
}

/// A fresh keypair from the operating system's randomness, by
/// `ed25519_dalek::Keypair::generate` with `rand::rngs::OsRng`.
/// Trusted: the secret key is whatever the generator drew (nothing is
/// said of it); the public key is the one derived from that secret, as
/// `Keypair::generate` builds it with `PublicKey::from(&secret)`.
#[verifier::external_body]
fn random_keypair() -> (k: KeypairBytes)
    ensures
        k.public@ == ed25519_public_key(k.secret@),
{
    let kp = ed25519_dalek::Keypair::generate(&mut rand::rngs::OsRng);
    KeypairBytes { secret: kp.secret.to_bytes(), public: kp.public.to_bytes() }
}

/// A fresh random keypair whose public half belongs to its secret half.
pub fn generate_keypair() -> (k: KeypairBytes)
    ensures
        k.is_consistent(),
{
    random_keypair()
}

/// The 64 bytes that store a keypair: the secret half, then the public
/// half.
pub fn keypair_file_bytes(k: &KeypairBytes) -> (r: Vec<u8>)
    ensures
        r@ == k.secret@ + k.public@,
        r@.len() == 64,
{
    let mut r: Vec<u8> = Vec::with_capacity(64);
    r.extend_from_slice(k.secret.as_slice());
    r.extend_from_slice(k.public.as_slice());
    assert(r@ =~= k.secret@ + k.public@);
    r
}

/// A keypair whose address satisfied the pattern, with the texts the
/// search reports.
pub struct FoundKeypair {
    /// Base58 text of the public key: the address.
    pub address: String,
    /// Base58 text of the 64 keypair bytes.
    pub secret_text: String,
    /// The secret key bytes followed by the public key bytes.
    pub bytes: Vec<u8>,
}

impl FoundKeypair {
    /// This is the record of the keypair with these secret and public
    /// bytes.
    pub open spec fn is_for(&self, secret: Seq<u8>, public: Seq<u8>) -> bool {
        &&& self.bytes@ == secret + public
        &&& self.address@ == base58_text(public)
        &&& self.secret_text@ == base58_text(secret + public)
    }

    /// The stored bytes are 32 secret bytes followed by the public key
    /// derived from them, and the texts are theirs.
    pub open spec fn is_genuine(&self) -> bool {
        &&& self.bytes@.len() == 64
        &&& self.bytes@.subrange(32, 64) == ed25519_public_key(self.bytes@.subrange(0, 32))
        &&& self.is_for(self.bytes@.subrange(0, 32), self.bytes@.subrange(32, 64))
    }
}

/// The record of keypair `k` if its address satisfies `pattern`.
pub fn check_keypair(pattern: &VanityPattern, k: &KeypairBytes) -> (r: Option<FoundKeypair>)
    ensures
        r is Some <==> pattern.accepts_text(base58_text(k.public@)),
        vstd::utf8::is_ascii_chars(pattern.prefix@) && vstd::utf8::is_ascii_chars(pattern.suffix@)
            ==> (r is Some <==> accepts_ascii(
            base58_text(k.public@),
            pattern.prefix@,
            pattern.suffix@,
            pattern.case_insensitive,
        )),
        r matches Some(f) ==> f.is_for(k.secret@, k.public@),
{
    let address = base58_encode(k.public.as_slice());
    proof {
        lemma_base58_text_in_alphabet(k.public@);
        crate::base58::lemma_alphabet_text_is_ascii(address@);
    }
    if pattern.matches(address.as_str()) {
        let bytes = keypair_file_bytes(k);
        let secret_text = base58_encode(bytes.as_slice());
        Some(FoundKeypair { address, secret_text, bytes })
    } else {
        None
    }
}

/// Draws one random keypair and returns its record if its address
/// satisfies `pattern`. A blank pattern is satisfied by every keypair.
pub fn try_random_keypair(pattern: &VanityPattern) -> (r: Option<FoundKeypair>)
    ensures
        r matches Some(f) ==> f.is_genuine() && pattern.accepts_text(f.address@),
        r is None ==> exists|k: KeypairBytes|
            #[trigger] k.is_consistent() && !pattern.accepts_text(base58_text(k.public@)),
        pattern.is_blank() ==> r is Some,
{
    let k = generate_keypair();
    let r = check_keypair(pattern, &k);
    proof {
        if r is None {
            assert(k.is_consistent() && !pattern.accepts_text(base58_text(k.public@)));
        }
        if r is Some {
            let f = r->0;
            assert(f.bytes@.subrange(0, 32) =~= k.secret@);
            assert(f.bytes@.subrange(32, 64) =~= k.public@);
        }
    }
    r
}

/// A pattern compared exactly that holds a character outside the base58
/// alphabet, in its prefix or its suffix, is satisfied by no keypair:
/// no address carries such a character.
pub proof fn lemma_unmatchable_pattern_finds_nothing(pattern: VanityPattern, k: KeypairBytes)
    requires
        !pattern.case_insensitive,
        (exists|i: int| 0 <= i < pattern.prefix@.len() && !in_alphabet(#[trigger] pattern.prefix@[i]))
            || (exists|i: int|
            0 <= i < pattern.suffix@.len() && !in_alphabet(#[trigger] pattern.suffix@[i])),
    ensures
        !pattern.accepts_text(base58_text(k.public@)),
{
    let a = base58_text(k.public@);
    lemma_base58_text_in_alphabet(k.public@);
    if exists|i: int| 0 <= i < pattern.prefix@.len() && !in_alphabet(#[trigger] pattern.prefix@[i]) {
        let i = choose|i: int| 0 <= i < pattern.prefix@.len() && !in_alphabet(#[trigger] pattern.prefix@[i]);
        lemma_unmatchable_prefix_rejects(a, pattern.prefix@, pattern.suffix@, i);
    } else {
        let i = choose|i: int| 0 <= i < pattern.suffix@.len() && !in_alphabet(#[trigger] pattern.suffix@[i]);
        lemma_unmatchable_suffix_rejects(a, pattern.prefix@, pattern.suffix@, i);
    }
}

} // verus!
