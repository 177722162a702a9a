use vstd::prelude::*;
use crate::crypto::error::ZeroError;
use crate::crypto::keypair::StaticKeypair;

verus! {

/// The English BIP39 mnemonic sentence of `entropy`, as the `bip39` crate writes it.
pub uninterp spec fn bip39_phrase(entropy: Seq<u8>) -> Seq<char>;

/// The entropy that the `bip39` crate reads back from a mnemonic sentence,
/// or `None` when the sentence does not parse.
pub uninterp spec fn bip39_phrase_entropy(phrase: Seq<char>) -> Option<Seq<u8>>;

/// Encodes 32 bytes of entropy with `bip39::Mnemonic::from_entropy` and
/// writes the 24-word sentence with its `Display` impl. The crate accepts
/// any 16 to 32 bytes in steps of 4, so 32 bytes always succeed; the sentence
/// is named `bip39_phrase`, and (as BIP39 defines) parsing it gives the
/// entropy back.
#[verifier::external_body]
fn mnemonic_sentence(entropy: &[u8; 32]) -> (phrase: Option<String>)
    ensures
        phrase is Some,
        phrase matches Some(p) ==> p@ == bip39_phrase(entropy@) && bip39_phrase_entropy(p@) == Some(entropy@),
{
    match bip39::Mnemonic::from_entropy(entropy) {
        Ok(m) => Some(m.to_string()),
        Err(_) => None,
    }
}

/// Parses a mnemonic sentence with `str::parse::<bip39::Mnemonic>` and returns
/// `Mnemonic::to_entropy`. The result is named `bip39_phrase_entropy`.
#[verifier::external_body]
fn mnemonic_entropy(phrase: &str) -> (entropy: Option<Vec<u8>>)
    ensures
        entropy is Some <==> bip39_phrase_entropy(phrase@) is Some,
        entropy matches Some(e) ==> bip39_phrase_entropy(phrase@) == Some(e@),
{
    match phrase.parse::<bip39::Mnemonic>() {
        Ok(m) => Some(m.to_entropy()),
        Err(_) => None,
    }
}

/// Generates a 24-word BIP39 mnemonic recovery phrase from the identity keypair.
///
/// The phrase encodes the keypair's master seed, from which the whole
/// keypair is restored.
pub fn generate_recovery_phrase(keypair: &StaticKeypair) -> (res: Result<String, ZeroError>)
    ensures
        res matches Ok(p) && p@ == bip39_phrase(keypair.seed@)
            && bip39_phrase_entropy(p@) == Some(keypair.seed@),
{
    match mnemonic_sentence(&keypair.seed) {
        Some(p) => Ok(p),
        None => Err(ZeroError::InvalidKeyLength),
    }
}

/// Recovers a StaticKeypair from a 24-word BIP39 mnemonic phrase.
pub fn recover_from_phrase(phrase: &str) -> (res: Result<StaticKeypair, ZeroError>)
    ensures
        res is Ok <==> (bip39_phrase_entropy(phrase@) matches Some(e) && e.len() == 32),
        res matches Ok(kp) ==> Some(kp.seed@) == bip39_phrase_entropy(phrase@) && kp.wf(),
        res matches Err(e) ==> e is InvalidKeyLength,
{
    let entropy = match mnemonic_entropy(phrase) {
        Some(e) => e,
        None => return Err(ZeroError::InvalidKeyLength),
    };
    if entropy.len() != 32 {
        return Err(ZeroError::InvalidKeyLength);
    }
    let mut bytes = [0u8; 32];
    let mut i: usize = 0;
    while i < 32
        invariant
            i <= 32,
            entropy@.len() == 32,
            bytes@.len() == 32,
            forall|j: int| 0 <= j < i ==> bytes@[j] == entropy@[j],
        decreases 32 - i,
    {
        bytes[i] = entropy[i];
        i = i + 1;
    }
    assert(bytes@ =~= entropy@);
    Ok(StaticKeypair::from_bytes(bytes))
}

/// Recovery restores the identity: the phrase generated for a keypair parses
/// back to that keypair's seed, so recovering from it rebuilds the same seed,
/// private key and public key.
pub proof fn lemma_recovery_roundtrip(keypair: StaticKeypair, phrase: Seq<char>, recovered: StaticKeypair)
    requires
        keypair.wf(),
        phrase == bip39_phrase(keypair.seed@),
        bip39_phrase_entropy(phrase) == Some(keypair.seed@),
        Some(recovered.seed@) == bip39_phrase_entropy(phrase),
        recovered.wf(),
    ensures
        recovered.seed == keypair.seed,
        recovered.private == keypair.private,
        recovered.public == keypair.public,
{
    assert(recovered.seed@ =~= keypair.seed@);
    assert(recovered.private@ =~= keypair.private@);
    assert(recovered.public@ =~= keypair.public@);
}

} // verus!
