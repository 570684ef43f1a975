//! Signed manifests of system artifacts.
//!
//! A manifest signature authenticates paths, lengths and SHA-256 digests. Each
//! artifact is checked after it was read and before it is used. The signature
//! identifies approved code; authority still comes from capabilities.
//!
//! ```text
//! magic[4] = "GKTM" | version: u16 | record_count: u16
//! path_len: u16 | reserved: u16 | length: u64 | digest[32] | path bytes
//! ```
use ed25519_dalek::{Signature, VerifyingKey};
use sha2::{Digest, Sha256};
use vstd::prelude::*;
use vstd::utf8::{encode_utf8, valid_utf8};

use crate::bytes::{le16_at, le64_at, read_u16, read_u64};
use crate::text::{has_plain_parts, plain_parts, same_bytes, utf8_text};

verus! {

/// The format version.
pub const VERSION: u16 = 1;

/// Size of the header.
pub const HEADER_SIZE: usize = 8;

/// Size of a record before its path.
pub const RECORD_HEADER_SIZE: usize = 44;

/// Most records of a manifest.
pub const MAX_RECORDS: usize = 64;

/// Longest path of a record.
pub const MAX_PATH_BYTES: usize = 255;

/// Why a manifest or an artifact is not trusted.
#[derive(Clone, Copy, Debug, PartialEq, Eq, Structural)]
pub enum TrustError {
    InvalidPublicKey,
    InvalidSignature,
    Truncated,
    BadMagic,
    UnsupportedVersion(u16),
    ReservedBits(u16),
    TooManyRecords(u16),
    InvalidPath,
    DuplicatePath,
    TrailingData,
    MissingArtifact,
    LengthMismatch,
    DigestMismatch,
}

/// Whether `VerifyingKey::from_bytes` accepts a public key.
pub uninterp spec fn public_key_decodes(public_key: Seq<u8>) -> bool;

/// Whether `VerifyingKey::verify_strict` accepts a signature of a message.
pub uninterp spec fn strictly_signed(
    public_key: Seq<u8>,
    message: Seq<u8>,
    signature: Seq<u8>,
) -> bool;

/// What `Sha256::digest` makes of data.
pub uninterp spec fn sha256_digest(data: Seq<u8>) -> Seq<u8>;

/// Calls `VerifyingKey::from_bytes` of `ed25519_dalek`: whether the bytes are a public key.
#[verifier::external_body]
fn key_decodes(public_key: &[u8; 32]) -> (result: bool)
    ensures
        result == public_key_decodes(public_key@),
{
    VerifyingKey::from_bytes(public_key).is_ok()
}

/// Calls `VerifyingKey::verify_strict` of `ed25519_dalek`: whether the key signed the message.
///
/// The key and the signature are decoded from their bytes; every signature decodes.
#[verifier::external_body]
fn verify_strict(public_key: &[u8; 32], message: &[u8], signature: &[u8; 64]) -> (result: bool)
    requires
        public_key_decodes(public_key@),
    ensures
        result == strictly_signed(public_key@, message@, signature@),
{
    match VerifyingKey::from_bytes(public_key) {
        Ok(key) => key.verify_strict(message, &Signature::from_bytes(signature)).is_ok(),
        Err(_) => false,
    }
}

/// Calls `Sha256::digest` of `sha2`.
#[verifier::external_body]
fn sha256(data: &[u8]) -> (digest: [u8; 32])
    ensures
        digest@ == sha256_digest(data@),
{
    Sha256::digest(data).into()
}

/// A valid path: absolute, and every part names something.
pub open spec fn path_ok(path: Seq<u8>) -> bool {
    path.len() > 1 && path[0] == 0x2f && plain_parts(path.skip(1))
}

/// Length of the path of the record at `cursor`.
pub open spec fn path_len(bytes: Seq<u8>, cursor: int) -> int {
    le16_at(bytes, cursor)
}

/// Where the record at `cursor` ends.
pub open spec fn record_end(bytes: Seq<u8>, cursor: int) -> int {
    cursor + 44 + path_len(bytes, cursor)
}

/// The path of the record at `cursor`.
pub open spec fn record_path(bytes: Seq<u8>, cursor: int) -> Seq<u8> {
    bytes.subrange(cursor + 44, record_end(bytes, cursor))
}

/// The digest of the record at `cursor`.
pub open spec fn record_digest(bytes: Seq<u8>, cursor: int) -> Seq<u8> {
    bytes.subrange(cursor + 12, cursor + 44)
}

/// Why the record at `cursor` is not valid.
pub open spec fn record_error(bytes: Seq<u8>, cursor: int) -> Option<TrustError> {
    if cursor + 44 > bytes.len() {
        Some(TrustError::Truncated)
    } else if le16_at(bytes, cursor + 2) != 0 {
        Some(TrustError::ReservedBits(le16_at(bytes, cursor + 2) as u16))
    } else if path_len(bytes, cursor) == 0 || path_len(bytes, cursor) > MAX_PATH_BYTES {
        Some(TrustError::InvalidPath)
    } else if record_end(bytes, cursor) > bytes.len() {
        Some(TrustError::Truncated)
    } else if !valid_utf8(record_path(bytes, cursor)) || !path_ok(record_path(bytes, cursor)) {
        Some(TrustError::InvalidPath)
    } else {
        None
    }
}

/// Where record `index` begins.
pub open spec fn cursor_of(bytes: Seq<u8>, index: nat) -> int
    decreases index,
{
    if index == 0 {
        8
    } else {
        record_end(bytes, cursor_of(bytes, (index - 1) as nat))
    }
}

/// The path of record `index`.
pub open spec fn path_of(bytes: Seq<u8>, index: int) -> Seq<u8> {
    record_path(bytes, cursor_of(bytes, index as nat))
}

/// One of the first `count` records has this path.
pub open spec fn listed(bytes: Seq<u8>, path: Seq<u8>, count: int) -> bool {
    exists|i: int| 0 <= i < count && #[trigger] path_of(bytes, i) == path
}

/// The first error among the first `count` records.
pub open spec fn first_error(bytes: Seq<u8>, count: nat) -> Option<TrustError>
    decreases count,
{
    if count == 0 {
        None
    } else {
        let index = (count - 1) as nat;
        match first_error(bytes, index) {
            Some(error) => Some(error),
            None => match record_error(bytes, cursor_of(bytes, index)) {
                Some(error) => Some(error),
                None => if listed(bytes, path_of(bytes, index as int), index as int) {
                    Some(TrustError::DuplicatePath)
                } else {
                    None
                },
            },
        }
    }
}

/// Number of records that the header announces.
pub open spec fn record_count(bytes: Seq<u8>) -> int {
    le16_at(bytes, 6)
}

/// Why a manifest is not valid.
pub open spec fn manifest_error(bytes: Seq<u8>) -> Option<TrustError> {
    if bytes.len() < 8 {
        Some(TrustError::Truncated)
    } else if !(bytes[0] == 0x47 && bytes[1] == 0x4b && bytes[2] == 0x54 && bytes[3] == 0x4d) {
        Some(TrustError::BadMagic)
    } else if le16_at(bytes, 4) != VERSION {
        Some(TrustError::UnsupportedVersion(le16_at(bytes, 4) as u16))
    } else if record_count(bytes) > MAX_RECORDS {
        Some(TrustError::TooManyRecords(record_count(bytes) as u16))
    } else if first_error(bytes, record_count(bytes) as nat) is Some {
        first_error(bytes, record_count(bytes) as nat)
    } else if cursor_of(bytes, record_count(bytes) as nat) != bytes.len() {
        Some(TrustError::TrailingData)
    } else {
        None
    }
}

/// Why an artifact of this length and digest is not the one listed under `path`.
pub open spec fn artifact_error(
    bytes: Seq<u8>,
    path: Seq<u8>,
    length: int,
    digest: Seq<u8>,
) -> Option<TrustError> {
    if !listed(bytes, path, record_count(bytes)) {
        Some(TrustError::MissingArtifact)
    } else {
        let index = choose|i: int|
            0 <= i < record_count(bytes) && #[trigger] path_of(bytes, i) == path;
        let cursor = cursor_of(bytes, index as nat);
        if le64_at(bytes, cursor + 4) != length {
            Some(TrustError::LengthMismatch)
        } else if record_digest(bytes, cursor) != digest {
            Some(TrustError::DigestMismatch)
        } else {
            None
        }
    }
}

/// Records without error lie one after the other within the bytes.
proof fn lemma_cursor(bytes: Seq<u8>, index: nat, count: nat)
    requires
        first_error(bytes, count) is None,
        index <= count,
        bytes.len() >= 8,
    ensures
        8 <= cursor_of(bytes, index) <= bytes.len(),
        first_error(bytes, index) is None,
        index < count ==> record_error(bytes, cursor_of(bytes, index)) is None && !listed(
            bytes,
            path_of(bytes, index as int),
            index as int,
        ),
    decreases count,
{
    if index < count {
        lemma_cursor(bytes, index, (count - 1) as nat);
    } else if index > 0 {
        lemma_cursor(bytes, (index - 1) as nat, (count - 1) as nat);
    }
}

/// The first error stays the first error of more records.
proof fn lemma_first_error_stays(bytes: Seq<u8>, short: nat, long: nat)
    requires
        short <= long,
        first_error(bytes, short) is Some,
    ensures
        first_error(bytes, long) == first_error(bytes, short),
    decreases long,
{
    if short < long {
        lemma_first_error_stays(bytes, short, (long - 1) as nat);
    }
}

/// A path stands in at most one record of a valid manifest.
pub proof fn law_paths_are_unique(bytes: Seq<u8>, i: int, j: int)
    requires
        manifest_error(bytes) is None,
        0 <= i < record_count(bytes),
        0 <= j < record_count(bytes),
        path_of(bytes, i) == path_of(bytes, j),
    ensures
        i == j,
{
    if i < j {
        lemma_cursor(bytes, j as nat, record_count(bytes) as nat);
        assert(listed(bytes, path_of(bytes, j), j));
    }
    if j < i {
        lemma_cursor(bytes, i as nat, record_count(bytes) as nat);
        assert(listed(bytes, path_of(bytes, i), i));
    }
}

/// Whether a path is valid.
fn valid_path(path: &[u8]) -> (result: bool)
    ensures
        result == path_ok(path@),
{
    if path.len() <= 1 || path[0] != 0x2f {
        return false;
    }
    let rest: &[u8] = vstd::slice::slice_subrange(path, 1, path.len());
    assert(rest@ =~= path@.skip(1));
    has_plain_parts(rest)
}

/// A record as it stands in a manifest.
struct Record<'a> {
    path: &'a [u8],
    length: u64,
    digest: &'a [u8],
}

/// Reads the record at `cursor`.
fn parse_record<'a>(bytes: &'a [u8], cursor: usize) -> (result: Result<
    (Record<'a>, usize),
    TrustError,
>)
    ensures
        match record_error(bytes@, cursor as int) {
            Some(error) => result matches Err(found) && found == error,
            None => {
                &&& result matches Ok((record, end))
                &&& end == record_end(bytes@, cursor as int)
                &&& record.path@ == record_path(bytes@, cursor as int)
                &&& record.length == le64_at(bytes@, cursor + 4)
                &&& record.digest@ == record_digest(bytes@, cursor as int)
            },
        },
{
    if bytes.len() < RECORD_HEADER_SIZE || cursor > bytes.len() - RECORD_HEADER_SIZE {
        return Err(TrustError::Truncated);
    }
    let header_end: usize = cursor + RECORD_HEADER_SIZE;
    let path_bytes: usize = read_u16(bytes, cursor) as usize;
    let reserved: u16 = read_u16(bytes, cursor + 2);
    if reserved != 0 {
        return Err(TrustError::ReservedBits(reserved));
    }
    if path_bytes == 0 || path_bytes > MAX_PATH_BYTES {
        return Err(TrustError::InvalidPath);
    }
    if path_bytes > bytes.len() - header_end {
        return Err(TrustError::Truncated);
    }
    let path_end: usize = header_end + path_bytes;
    let path: &'a [u8] = vstd::slice::slice_subrange(bytes, header_end, path_end);
    if utf8_text(path).is_none() {
        return Err(TrustError::InvalidPath);
    }
    if !valid_path(path) {
        return Err(TrustError::InvalidPath);
    }
    let length: u64 = read_u64(bytes, cursor + 4);
    let digest: &'a [u8] = vstd::slice::slice_subrange(bytes, cursor + 12, header_end);
    Ok((Record { path, length, digest }, path_end))
}

/// An authenticated, fully validated manifest.
pub struct TrustedManifest<'a> {
    bytes: &'a [u8],
    record_count: usize,
}

impl<'a> TrustedManifest<'a> {
    /// The bytes of this manifest.
    pub closed spec fn source(self) -> Seq<u8> {
        self.bytes@
    }

    /// Every manifest that exists is valid.
    #[verifier::type_invariant]
    spec fn valid(self) -> bool {
        manifest_error(self.bytes@) is None && self.record_count == crate::trust::record_count(
            self.bytes@,
        )
    }

    /// Authenticates and reads a manifest.
    pub fn verify(bytes: &'a [u8], signature: &[u8; 64], public_key: &[u8; 32]) -> (result: Result<
        Self,
        TrustError,
    >)
        ensures
            if !public_key_decodes(public_key@) {
                result matches Err(error) && error == TrustError::InvalidPublicKey
            } else if !strictly_signed(public_key@, bytes@, signature@) {
                result matches Err(error) && error == TrustError::InvalidSignature
            } else {
                match manifest_error(bytes@) {
                    Some(error) => result matches Err(found) && found == error,
                    None => result matches Ok(manifest) && manifest.source() == bytes@,
                }
            },
    {
        let decodes: bool = key_decodes(public_key);
        let signed: bool = if decodes {
            verify_strict(public_key, bytes, signature)
        } else {
            false
        };
        Self::admit_signed(bytes, decodes, signed)
    }

    /// Reads a manifest whose key and signature were judged.
    pub fn admit_signed(bytes: &'a [u8], key_decodes: bool, signed: bool) -> (result: Result<
        Self,
        TrustError,
    >)
        ensures
            if !key_decodes {
                result matches Err(error) && error == TrustError::InvalidPublicKey
            } else if !signed {
                result matches Err(error) && error == TrustError::InvalidSignature
            } else {
                match manifest_error(bytes@) {
                    Some(error) => result matches Err(found) && found == error,
                    None => result matches Ok(manifest) && manifest.source() == bytes@,
                }
            },
    {
        if !key_decodes {
            return Err(TrustError::InvalidPublicKey);
        }
        if !signed {
            return Err(TrustError::InvalidSignature);
        }
        Self::parse_authenticated(bytes)
    }

    /// Reads a manifest that is known to be authentic.
    fn parse_authenticated(bytes: &'a [u8]) -> (result: Result<Self, TrustError>)
        ensures
            match manifest_error(bytes@) {
                Some(error) => result matches Err(found) && found == error,
                None => result matches Ok(manifest) && manifest.source() == bytes@,
            },
    {
        if bytes.len() < HEADER_SIZE {
            return Err(TrustError::Truncated);
        }
        if !(bytes[0] == 0x47 && bytes[1] == 0x4b && bytes[2] == 0x54 && bytes[3] == 0x4d) {
            return Err(TrustError::BadMagic);
        }
        let version: u16 = read_u16(bytes, 4);
        if version != VERSION {
            return Err(TrustError::UnsupportedVersion(version));
        }
        let count: u16 = read_u16(bytes, 6);
        if count as usize > MAX_RECORDS {
            return Err(TrustError::TooManyRecords(count));
        }
        let total: usize = count as usize;
        let mut paths: Vec<&'a [u8]> = Vec::new();
        let mut cursor: usize = HEADER_SIZE;
        let mut index: usize = 0;
        while index < total
            invariant
                index <= total <= MAX_RECORDS,
                bytes@.len() >= 8,
                total == record_count(bytes@),
                bytes@[0] == 0x47 && bytes@[1] == 0x4b && bytes@[2] == 0x54 && bytes@[3] == 0x4d,
                le16_at(bytes@, 4) == VERSION,
                first_error(bytes@, index as nat) is None,
                cursor == cursor_of(bytes@, index as nat),
                paths@.len() == index,
                forall|i: int| 0 <= i < index ==> (#[trigger] paths@[i])@ == path_of(bytes@, i),
            decreases total - index,
        {
            let (record, next): (Record<'a>, usize) = match parse_record(bytes, cursor) {
                Err(error) => {
                    proof {
                        lemma_first_error_stays(bytes@, (index + 1) as nat, total as nat);
                    }
                    return Err(error);
                },
                Ok(parsed) => parsed,
            };
            let mut previous: usize = 0;
            while previous < index
                invariant
                    previous <= index < total <= MAX_RECORDS,
                    bytes@.len() >= 8,
                    total == record_count(bytes@),
                    bytes@[0] == 0x47 && bytes@[1] == 0x4b && bytes@[2] == 0x54 && bytes@[3]
                        == 0x4d,
                    le16_at(bytes@, 4) == VERSION,
                    first_error(bytes@, index as nat) is None,
                    record_error(bytes@, cursor_of(bytes@, index as nat)) is None,
                    record.path@ == path_of(bytes@, index as int),
                    paths@.len() == index,
                    forall|i: int| 0 <= i < index ==> (#[trigger] paths@[i])@ == path_of(bytes@, i),
                    forall|i: int|
                        0 <= i < previous ==> #[trigger] path_of(bytes@, i) != record.path@,
                decreases index - previous,
            {
                assert(paths@[previous as int]@ == path_of(bytes@, previous as int));
                if same_bytes(paths[previous], record.path) {
                    proof {
                        assert(listed(bytes@, record.path@, index as int));
                        lemma_first_error_stays(bytes@, (index + 1) as nat, total as nat);
                    }
                    return Err(TrustError::DuplicatePath);
                }
                previous += 1;
            }
            paths.push(record.path);
            cursor = next;
            index += 1;
        }
        if cursor != bytes.len() {
            return Err(TrustError::TrailingData);
        }
        Ok(TrustedManifest { bytes, record_count: total })
    }

    /// Checks that an artifact is the one listed under `path`.
    pub fn verify_artifact(&self, path: &str, artifact: &[u8]) -> (result: Result<(), TrustError>)
        ensures
            result == (match artifact_error(
                self.source(),
                encode_utf8(path@),
                artifact@.len() as int,
                sha256_digest(artifact@),
            ) {
                Some(error) => Err(error),
                None => Ok(()),
            }),
    {
        let digest: [u8; 32] = sha256(artifact);
        self.check_artifact(path, artifact.len(), &digest)
    }

    /// Checks the length and the digest of an artifact against the record of `path`.
    pub fn check_artifact(&self, path: &str, length: usize, digest: &[u8; 32]) -> (result: Result<
        (),
        TrustError,
    >)
        ensures
            result == (match artifact_error(
                self.source(),
                encode_utf8(path@),
                length as int,
                digest@,
            ) {
                Some(error) => Err(error),
                None => Ok(()),
            }),
    {
        proof {
            use_type_invariant(self);
        }
        let bytes: &[u8] = self.bytes;
        let wanted: &[u8] = path.as_bytes();
        let mut cursor: usize = HEADER_SIZE;
        let mut index: usize = 0;
        while index < self.record_count
            invariant
                bytes@ == self.source(),
                wanted@ == encode_utf8(path@),
                manifest_error(bytes@) is None,
                self.record_count == record_count(bytes@),
                index <= self.record_count,
                cursor == cursor_of(bytes@, index as nat),
                forall|i: int| 0 <= i < index ==> #[trigger] path_of(bytes@, i) != wanted@,
            decreases self.record_count - index,
        {
            proof {
                lemma_cursor(bytes@, index as nat, record_count(bytes@) as nat);
            }
            match parse_record(bytes, cursor) {
                Err(error) => {
                    return Err(error);
                },
                Ok((record, next)) => {
                    if same_bytes(record.path, wanted) {
                        proof {
                            assert(path_of(bytes@, index as int) == wanted@);
                            let found = choose|i: int|
                                0 <= i < record_count(bytes@) && #[trigger] path_of(bytes@, i)
                                    == wanted@;
                            law_paths_are_unique(bytes@, found, index as int);
                        }
                        if record.length != length as u64 {
                            return Err(TrustError::LengthMismatch);
                        }
                        let expected: &[u8] = digest;
                        if !same_bytes(expected, record.digest) {
                            return Err(TrustError::DigestMismatch);
                        }
                        return Ok(());
                    }
                    cursor = next;
                },
            }
            index += 1;
        }
        Err(TrustError::MissingArtifact)
    }

    /// Number of records.
    pub fn len(&self) -> (count: usize)
        ensures
            count == record_count(self.source()),
    {
        proof {
            use_type_invariant(self);
        }
        self.record_count
    }
}

/// An artifact is accepted under a path only if a record lists its length and its digest there.
pub proof fn law_accepted_artifact_is_listed(
    bytes: Seq<u8>,
    path: Seq<u8>,
    length: int,
    digest: Seq<u8>,
)
    requires
        artifact_error(bytes, path, length, digest) is None,
    ensures
        exists|i: int|
            0 <= i < record_count(bytes) && #[trigger] path_of(bytes, i) == path && le64_at(
                bytes,
                cursor_of(bytes, i as nat) + 4,
            ) == length && record_digest(bytes, cursor_of(bytes, i as nat)) == digest,
{
}

/// Where a manifest holds what it says: a magic of four bytes, a version and a count of two
/// bytes each, and then the records, each right behind the one before it, up to the end.
pub proof fn law_manifests_hold_their_records_in_a_row(bytes: Seq<u8>, index: nat)
    requires
        manifest_error(bytes) is None,
        index < record_count(bytes),
    ensures
        bytes.len() >= 8,
        bytes.subrange(0, 4) == seq![0x47u8, 0x4b, 0x54, 0x4d],
        bytes[4] == 1 && bytes[5] == 0,
        record_count(bytes) == bytes[6] + 256 * bytes[7],
        record_count(bytes) <= 64,
        cursor_of(bytes, 0) == 8,
        ({
            let at = cursor_of(bytes, index);
            let length = bytes[at] + 256 * bytes[at + 1];
            &&& 8 <= at
            &&& at + 44 + length <= bytes.len()
            &&& 2 <= length <= 255
            &&& bytes[at + 2] == 0 && bytes[at + 3] == 0
            &&& path_of(bytes, index as int) == bytes.subrange(at + 44, at + 44 + length)
            &&& bytes[at + 44] == 0x2f
            &&& record_digest(bytes, at) == bytes.subrange(at + 12, at + 44)
            &&& index + 1 < record_count(bytes) ==> cursor_of(bytes, index + 1) == at + 44 + length
            &&& index + 1 == record_count(bytes) ==> bytes.len() == at + 44 + length
        }),
{
    assert(bytes.subrange(0, 4) =~= seq![0x47u8, 0x4b, 0x54, 0x4d]);
    lemma_records_are_good(bytes, record_count(bytes) as nat, index);
}

/// Every record of an accepted manifest is good.
proof fn lemma_records_are_good(bytes: Seq<u8>, count: nat, index: nat)
    requires
        first_error(bytes, count) is None,
        index < count,
    ensures
        record_error(bytes, cursor_of(bytes, index)) is None,
        cursor_of(bytes, index) >= 8,
    decreases count,
{
    if index + 1 < count {
        lemma_records_are_good(bytes, (count - 1) as nat, index);
    }
    if index > 0 {
        lemma_records_are_good(bytes, (count - 1) as nat, (index - 1) as nat);
    }
}

/// How a manifest's header is refused, by the first thing that is wrong with it.
pub proof fn law_bad_headers_are_named(bytes: Seq<u8>)
    ensures
        bytes.len() < 8 ==> manifest_error(bytes) == Some(TrustError::Truncated),
        bytes.len() >= 8 ==> {
            let magic = bytes[0] == 0x47 && bytes[1] == 0x4b && bytes[2] == 0x54 && bytes[3]
                == 0x4d;
            let version = bytes[4] + 256 * bytes[5];
            let count = bytes[6] + 256 * bytes[7];
            &&& !magic ==> manifest_error(bytes) == Some(TrustError::BadMagic)
            &&& magic && version != 1 ==> manifest_error(bytes) == Some(
                TrustError::UnsupportedVersion(version as u16),
            )
            &&& magic && version == 1 && count > 64 ==> manifest_error(bytes) == Some(
                TrustError::TooManyRecords(count as u16),
            )
            &&& magic && version == 1 && count == 0 && bytes.len() == 8 ==> manifest_error(bytes)
                is None
            &&& magic && version == 1 && count == 0 && bytes.len() > 8 ==> manifest_error(bytes)
                == Some(TrustError::TrailingData)
        },
{
}

/// How a record is refused, by the first thing that is wrong with it.
pub proof fn law_bad_records_are_named(bytes: Seq<u8>, at: int)
    requires
        0 <= at,
    ensures
        at + 44 > bytes.len() ==> record_error(bytes, at) == Some(TrustError::Truncated),
        at + 44 <= bytes.len() ==> {
            let length = bytes[at] + 256 * bytes[at + 1];
            let reserved = bytes[at + 2] + 256 * bytes[at + 3];
            &&& reserved != 0 ==> record_error(bytes, at) == Some(
                TrustError::ReservedBits(reserved as u16),
            )
            &&& reserved == 0 && (length == 0 || length > 255) ==> record_error(bytes, at) == Some(
                TrustError::InvalidPath,
            )
            &&& reserved == 0 && 0 < length <= 255 && at + 44 + length > bytes.len()
                ==> record_error(bytes, at) == Some(TrustError::Truncated)
            &&& reserved == 0 && 0 < length <= 255 && at + 44 + length <= bytes.len() && bytes[at
                + 44] != 0x2f ==> record_error(bytes, at) == Some(TrustError::InvalidPath)
        },
{
}

/// An artifact is compared with the record of its path alone: first its length, then its
/// digest.
pub proof fn law_artifacts_answer_to_their_record(
    bytes: Seq<u8>,
    index: int,
    length: int,
    digest: Seq<u8>,
)
    requires
        manifest_error(bytes) is None,
        0 <= index < record_count(bytes),
    ensures
        ({
            let at = cursor_of(bytes, index as nat);
            let path = path_of(bytes, index);
            let expected = bytes[at + 4] + 0x100 * bytes[at + 5] + 0x1_0000 * bytes[at + 6]
                + 0x100_0000 * bytes[at + 7] + 0x1_0000_0000 * bytes[at + 8] + 0x100_0000_0000
                * bytes[at + 9] + 0x1_0000_0000_0000 * bytes[at + 10] + 0x100_0000_0000_0000
                * bytes[at + 11];
            &&& expected != length ==> artifact_error(bytes, path, length, digest) == Some(
                TrustError::LengthMismatch,
            )
            &&& expected == length && digest != bytes.subrange(at + 12, at + 44) ==> artifact_error(
                bytes,
                path,
                length,
                digest,
            ) == Some(TrustError::DigestMismatch)
            &&& expected == length && digest == bytes.subrange(at + 12, at + 44) ==> artifact_error(
                bytes,
                path,
                length,
                digest,
            ) is None
        }),
{
    let path = path_of(bytes, index);
    let found = choose|i: int|
        0 <= i < record_count(bytes) && #[trigger] path_of(bytes, i) == path;
    law_paths_are_unique(bytes, index, found);
}

/// A path that no record has is missing.
pub proof fn law_unlisted_artifacts_are_missing(
    bytes: Seq<u8>,
    path: Seq<u8>,
    length: int,
    digest: Seq<u8>,
)
    requires
        forall|i: int| 0 <= i < record_count(bytes) ==> #[trigger] path_of(bytes, i) != path,
    ensures
        artifact_error(bytes, path, length, digest) == Some(TrustError::MissingArtifact),
{
}

} // verus!
