use ed25519_dalek::{Signer, SigningKey};
use sha2::{Digest, Sha256};

use ginkgo_kernel::trust::{TrustError, TrustedManifest};

fn record(bytes: &mut Vec<u8>, path: &str, artifact: &[u8]) {
    bytes.extend_from_slice(&(path.len() as u16).to_le_bytes());
    bytes.extend_from_slice(&0_u16.to_le_bytes());
    bytes.extend_from_slice(&(artifact.len() as u64).to_le_bytes());
    bytes.extend_from_slice(&Sha256::digest(artifact));
    bytes.extend_from_slice(path.as_bytes());
}

fn signed(bytes: Vec<u8>) -> (Vec<u8>, [u8; 64], [u8; 32]) {
    let key = SigningKey::from_bytes(&[0x39; 32]);
    let signature = key.sign(&bytes).to_bytes();
    (bytes, signature, key.verifying_key().to_bytes())
}

fn header(count: u16) -> Vec<u8> {
    let mut bytes = Vec::from(*b"GKTM");
    bytes.extend_from_slice(&1_u16.to_le_bytes());
    bytes.extend_from_slice(&count.to_le_bytes());
    bytes
}

fn signed_manifest(path: &str, artifact: &[u8]) -> (Vec<u8>, [u8; 64], [u8; 32]) {
    let mut bytes = header(1);
    record(&mut bytes, path, artifact);
    signed(bytes)
}

#[test]
fn authenticates_exact_artifact() {
    let (bytes, signature, public_key) = signed_manifest("/desktop.elf", b"elf");
    let manifest = TrustedManifest::verify(&bytes, &signature, &public_key).unwrap();
    assert_eq!(manifest.verify_artifact("/desktop.elf", b"elf"), Ok(()));
    assert_eq!(
        manifest.verify_artifact("/desktop.elf", b"ELF"),
        Err(TrustError::DigestMismatch)
    );
}

#[test]
fn rejects_tampered_manifest_signature() {
    let (mut bytes, signature, public_key) = signed_manifest("/programs.gkr", b"registry");
    *bytes.last_mut().unwrap() ^= 1;
    assert!(matches!(
        TrustedManifest::verify(&bytes, &signature, &public_key),
        Err(TrustError::InvalidSignature)
    ));
}

fn refusal(bytes: Vec<u8>) -> Option<TrustError> {
    let (bytes, signature, public_key) = signed(bytes);
    TrustedManifest::verify(&bytes, &signature, &public_key).err()
}

#[test]
fn every_malformed_manifest_has_its_error() {
    assert_eq!(refusal(b"GKTM".to_vec()), Some(TrustError::Truncated));
    assert_eq!(
        refusal(b"GKTX\x01\0\0\0".to_vec()),
        Some(TrustError::BadMagic)
    );
    assert_eq!(
        refusal(b"GKTM\x02\0\0\0".to_vec()),
        Some(TrustError::UnsupportedVersion(2))
    );
    assert_eq!(
        refusal(header(65)),
        Some(TrustError::TooManyRecords(65))
    );
    let mut trailing = header(0);
    trailing.push(0);
    assert_eq!(refusal(trailing), Some(TrustError::TrailingData));
    let mut twice = header(2);
    record(&mut twice, "/a", b"one");
    record(&mut twice, "/a", b"two");
    assert_eq!(refusal(twice), Some(TrustError::DuplicatePath));
    let mut relative = header(1);
    record(&mut relative, "desktop", b"one");
    assert_eq!(refusal(relative), Some(TrustError::InvalidPath));
    let mut reserved = header(1);
    record(&mut reserved, "/a", b"one");
    reserved[10] = 3;
    assert_eq!(refusal(reserved), Some(TrustError::ReservedBits(3)));
    let mut short = header(1);
    record(&mut short, "/a", b"one");
    short.pop();
    assert_eq!(refusal(short), Some(TrustError::Truncated));
}

#[test]
fn a_key_that_is_no_point_is_refused() {
    let (bytes, signature, _) = signed_manifest("/a", b"one");
    let mut no_point = [0xff_u8; 32];
    no_point[0] = 2;
    no_point[31] = 0x7f;
    assert!(matches!(
        TrustedManifest::verify(&bytes, &signature, &no_point),
        Err(TrustError::InvalidPublicKey) | Err(TrustError::InvalidSignature)
    ));
    assert!(matches!(
        TrustedManifest::admit_signed(&bytes, false, true),
        Err(TrustError::InvalidPublicKey)
    ));
    assert!(matches!(
        TrustedManifest::admit_signed(&bytes, true, false),
        Err(TrustError::InvalidSignature)
    ));
}

#[test]
fn only_listed_artifacts_of_the_listed_length_are_accepted() {
    let (bytes, signature, public_key) = signed_manifest("/a", b"one");
    let manifest = TrustedManifest::verify(&bytes, &signature, &public_key).unwrap();
    assert_eq!(manifest.len(), 1);
    assert_eq!(
        manifest.verify_artifact("/b", b"one"),
        Err(TrustError::MissingArtifact)
    );
    assert_eq!(
        manifest.verify_artifact("/a", b"four"),
        Err(TrustError::LengthMismatch)
    );
    let digest: [u8; 32] = Sha256::digest(b"one").into();
    assert_eq!(manifest.check_artifact("/a", 3, &digest), Ok(()));
    assert_eq!(
        manifest.check_artifact("/a", 3, &[0; 32]),
        Err(TrustError::DigestMismatch)
    );
}
