//! The artifact container shared by recorder and viewer: five encrypted
//! payload members and one plaintext hash member inside an encrypted archive.
//! `read_artifact_spec` pins down exactly what reading any artifact bytes
//! yields; the packer promises that what it wrote reads back. The reader
//! accepts exactly the canonical payload renderings this producer writes.

use vstd::prelude::*;

use crate::crypto::{decrypt_file, decrypt_spec, encrypt_file, sha256_of, CryptoError};
use crate::meta::{parse_metadata, parse_metadata_spec, Metadata, MetadataV};
use crate::records::{
    events_view, parse_events, parse_events_spec, parse_summary, parse_summary_spec,
    KeystrokeEvent, KeystrokeEventV, SessionSummary,
};
use crate::state::{parse_state_json, parse_state_spec, State};
use crate::text::{hex_of, string_from_utf8, trim_ascii, trim_bytes};
use crate::zips::{files_view, unzip_of, zip_extract, zip_pack, ArchiveError};
use vstd::utf8::{decode_utf8, encode_utf8, valid_utf8};

verus! {

/// Why packaging an artifact failed.
#[derive(Debug, Clone, Copy, PartialEq, Eq, Structural)]
pub enum PackError {
    /// A payload or the archive would not encrypt.
    Crypto(CryptoError),
    /// The archive writer refused the members.
    Archive(ArchiveError),
}

/// The six members an artifact must carry.
#[derive(Debug, Clone, Copy, PartialEq, Eq, Structural)]
pub enum MemberName {
    /// `events.json.enc`
    Events,
    /// `summary.json.enc`
    Summary,
    /// `metadata.json.enc`
    Metadata,
    /// `terminal_output.log.enc`
    TerminalOutput,
    /// `state_copy.json.enc`
    StateCopy,
    /// `integrity.sha256`
    Integrity,
}

/// The archive name of a member.
pub open spec fn member_name_chars(m: MemberName) -> Seq<char> {
    match m {
        MemberName::Events => "events.json.enc"@,
        MemberName::Summary => "summary.json.enc"@,
        MemberName::Metadata => "metadata.json.enc"@,
        MemberName::TerminalOutput => "terminal_output.log.enc"@,
        MemberName::StateCopy => "state_copy.json.enc"@,
        MemberName::Integrity => "integrity.sha256"@,
    }
}

impl MemberName {
    /// The archive file name of this member.
    pub fn file_name(&self) -> (r: String)
        ensures
            r@ == member_name_chars(*self),
    {
        match self {
            MemberName::Events => String::from_str("events.json.enc"),
            MemberName::Summary => String::from_str("summary.json.enc"),
            MemberName::Metadata => String::from_str("metadata.json.enc"),
            MemberName::TerminalOutput => String::from_str("terminal_output.log.enc"),
            MemberName::StateCopy => String::from_str("state_copy.json.enc"),
            MemberName::Integrity => String::from_str("integrity.sha256"),
        }
    }
}

/// Why reading an artifact failed.
#[derive(Debug, Clone, Copy, PartialEq, Eq, Structural)]
pub enum ReadError {
    /// The outer envelope or a member did not decrypt.
    Crypto(CryptoError),
    /// The archive bytes did not parse.
    Archive(ArchiveError),
    /// The named member is not in the archive.
    MissingMember(MemberName),
    /// A member decrypted but is not a canonical payload.
    MalformedMember,
}

/// The archive members an artifact envelope holds, when the envelope decrypts
/// and the archive extracts.
pub open spec fn artifact_members(bytes: Seq<u8>, password: Seq<char>) -> Option<
    Seq<(Seq<char>, Seq<u8>)>,
> {
    match decrypt_spec(bytes, password) {
        Option::Some(z) => unzip_of(z),
        Option::None => Option::None,
    }
}

/// The content of the last member carrying `name`, if any.
pub open spec fn member_lookup(m: Seq<(Seq<char>, Seq<u8>)>, name: Seq<char>) -> Option<Seq<u8>>
    decreases m.len(),
{
    if m.len() == 0 {
        Option::None
    } else if m[m.len() - 1].0 == name {
        Option::Some(m[m.len() - 1].1)
    } else {
        member_lookup(m.drop_last(), name)
    }
}

/// When `m[k]` carries `name` and no later member does, the lookup finds it.
pub proof fn lemma_lookup_found(m: Seq<(Seq<char>, Seq<u8>)>, name: Seq<char>, k: int)
    requires
        0 <= k < m.len(),
        m[k].0 == name,
        forall|j: int| k < j < m.len() ==> (#[trigger] m[j]).0 != name,
    ensures
        member_lookup(m, name) == Some(m[k].1),
    decreases m.len(),
{
    if k == m.len() - 1 {
    } else {
        assert(m[m.len() - 1].0 != name);
        assert(m.drop_last()[k] == m[k]);
        lemma_lookup_found(m.drop_last(), name, k);
    }
}

/// Packs named members into the double-encrypted artifact: a deflate archive
/// of the members, sealed under the password-derived key. The result's
/// members read back as exactly what was packed, and packing fails only on a
/// member beyond the archive format's four-gibibyte plain-size field or an
/// archive beyond the cipher's 2^36-byte ceiling.
pub fn create_password_protected_zip(files: &Vec<(String, Vec<u8>)>, password: &str) -> (r: Result<
    Vec<u8>,
    PackError,
>)
    requires
        forall|i: int|
            0 <= i < files@.len() ==> vstd::utf8::encode_utf8(
                (#[trigger] files@[i]).0@,
            ).len() < 65536,
    ensures
        r matches Ok(bytes) ==> artifact_members(bytes@, password@) == Some(files_view(files@)),
        (r matches Err(e) && e matches PackError::Archive(_)) ==> exists|i: int|
            0 <= i < files@.len() && (#[trigger] files@[i]).1@.len() > 0xFFFFFFFF,
        (r matches Err(e) && e matches PackError::Crypto(_)) ==> crate::zips::zip_of(
            files_view(files@),
        ).len() > 0x1000000000,
{
    let zdata = match zip_pack(files) {
        Ok(z) => z,
        Err(e) => {
            return Err(PackError::Archive(e));
        },
    };
    match encrypt_file(zdata.as_slice(), password) {
        Ok(bytes) => Ok(bytes),
        Err(e) => Err(PackError::Crypto(e)),
    }
}

/// The typed contents of a read artifact.
pub struct DecryptedData {
    /// The keystroke vector.
    pub events: Vec<KeystrokeEvent>,
    /// The derived summary.
    pub summary: SessionSummary,
    /// The session metadata.
    pub metadata: Metadata,
    /// The raw captured terminal output.
    pub terminal_output: Vec<u8>,
    /// The counter snapshot taken at recording time.
    pub state_copy: State,
    /// The stored integrity digest, trimmed.
    pub integrity_hash: String,
}

/// The mathematical view of a read artifact's contents.
#[verifier::ext_equal]
pub struct DecryptedDataV {
    /// The keystroke vector.
    pub events: Seq<KeystrokeEventV>,
    /// The derived summary.
    pub summary: SessionSummary,
    /// The session metadata.
    pub metadata: MetadataV,
    /// The raw captured terminal output.
    pub terminal_output: Seq<u8>,
    /// The counter snapshot taken at recording time.
    pub state_copy: State,
    /// The stored integrity digest, trimmed.
    pub integrity_hash: Seq<char>,
}

impl View for DecryptedData {
    type V = DecryptedDataV;

    open spec fn view(&self) -> DecryptedDataV {
        DecryptedDataV {
            events: events_view(self.events@),
            summary: self.summary,
            metadata: self.metadata@,
            terminal_output: self.terminal_output@,
            state_copy: self.state_copy,
            integrity_hash: self.integrity_hash@,
        }
    }
}

/// What reading artifact bytes under a password yields: the typed payloads
/// exactly when the envelope decrypts, the archive extracts, all six members
/// are present, each inner member decrypts, and each payload is canonical.
#[verifier::opaque]
pub open spec fn read_artifact_spec(bytes: Seq<u8>, password: Seq<char>) -> Option<
    DecryptedDataV,
> {
    match artifact_members(bytes, password) {
        Option::Some(m) => {
            match (member_lookup(m, "events.json.enc"@), member_lookup(m, "summary.json.enc"@)) {
                (Option::Some(ee), Option::Some(se)) => {
                    match (member_lookup(m, "metadata.json.enc"@), member_lookup(
                        m,
                        "terminal_output.log.enc"@,
                    )) {
                        (Option::Some(me), Option::Some(te)) => {
                            match (member_lookup(m, "state_copy.json.enc"@), member_lookup(
                                m,
                                "integrity.sha256"@,
                            )) {
                                (Option::Some(ce), Option::Some(ih)) => {
                                    match (decrypt_spec(ee, password), decrypt_spec(se, password)) {
                                        (Option::Some(ej), Option::Some(sj)) => {
                                            match (decrypt_spec(me, password), decrypt_spec(
                                                te,
                                                password,
                                            )) {
                                                (Option::Some(mj), Option::Some(tb)) => {
                                                    match decrypt_spec(ce, password) {
                                                        Option::Some(cj) => {
                                                            match (parse_events_spec(ej),
                                                            parse_summary_spec(sj)) {
                                                                (
                                                                    Option::Some(events),
                                                                    Option::Some(summary),
                                                                ) => {
                                                                    match (parse_metadata_spec(mj),
                                                                    parse_state_spec(cj)) {
                                                                        (
                                                                            Option::Some(metadata),
                                                                            Option::Some(state),
                                                                        ) => {
                                                                            if valid_utf8(
                                                                                trim_bytes(ih),
                                                                            ) {
                                                                                Option::Some(
                                                                                    DecryptedDataV {
                                                                                        events,
                                                                                        summary,
                                                                                        metadata,
                                                                                        terminal_output:
                                                                                            tb,
                                                                                        state_copy:
                                                                                            state,
                                                                                        integrity_hash:
                                                                                            decode_utf8(
                                                                                            trim_bytes(
                                                                                                ih,
                                                                                            ),
                                                                                        ),
                                                                                    },
                                                                                )
                                                                            } else {
                                                                                Option::None
                                                                            }
                                                                        },
                                                                        _ => Option::None,
                                                                    }
                                                                },
                                                                _ => Option::None,
                                                            }
                                                        },
                                                        Option::None => Option::None,
                                                    }
                                                },
                                                _ => Option::None,
                                            }
                                        },
                                        _ => Option::None,
                                    }
                                },
                                _ => Option::None,
                            }
                        },
                        _ => Option::None,
                    }
                },
                _ => Option::None,
            }
        },
        Option::None => Option::None,
    }
}

/// Whether the stored digest matches the digest of the five inner ciphertexts
/// in their fixed order, when the artifact opens at all.
#[verifier::opaque]
pub open spec fn integrity_ok_spec(bytes: Seq<u8>, password: Seq<char>) -> Option<bool> {
    match artifact_members(bytes, password) {
        Option::Some(m) => {
            match (member_lookup(m, "events.json.enc"@), member_lookup(m, "summary.json.enc"@)) {
                (Option::Some(ee), Option::Some(se)) => {
                    match (member_lookup(m, "metadata.json.enc"@), member_lookup(
                        m,
                        "terminal_output.log.enc"@,
                    )) {
                        (Option::Some(me), Option::Some(te)) => {
                            match (member_lookup(m, "state_copy.json.enc"@), member_lookup(
                                m,
                                "integrity.sha256"@,
                            )) {
                                (Option::Some(ce), Option::Some(ih)) => Option::Some(
                                    trim_bytes(ih) == hex_of(sha256_of(ee + se + me + te + ce)),
                                ),
                                _ => Option::None,
                            }
                        },
                        _ => Option::None,
                    }
                },
                _ => Option::None,
            }
        },
        Option::None => Option::None,
    }
}

/// Finds the last member carrying `name`; returns exactly `member_lookup`.
pub fn find_member(files: &Vec<(String, Vec<u8>)>, name: &str) -> (r: Option<Vec<u8>>)
    ensures
        r matches Some(v) ==> member_lookup(files_view(files@), name@) == Some(v@),
        r is None ==> member_lookup(files_view(files@), name@) is None,
{
    let wanted = String::from_str(name);
    let ghost fv = files_view(files@);
    let mut i: usize = files.len();
    proof {
        assert(fv.take(files@.len() as int) =~= fv);
    }
    while i > 0
        invariant
            i <= files@.len(),
            fv == files_view(files@),
            wanted@ == name@,
            member_lookup(fv, name@) == member_lookup(fv.take(i as int), name@),
        decreases i,
    {
        proof {
            assert(fv[i - 1] == (files@[i - 1].0@, files@[i - 1].1@));
        }
        if files[i - 1].0 == wanted {
            proof {
                assert(fv.take(i as int)[i - 1] == fv[i - 1]);
                assert(fv[i - 1].0 == name@);
            }
            return Some(vstd::slice::slice_to_vec(files[i - 1].1.as_slice()));
        }
        proof {
            assert(fv.take(i as int)[i - 1] == fv[i - 1]);
            assert(fv.take(i as int).drop_last() =~= fv.take(i - 1));
        }
        i = i - 1;
    }
    proof {
        assert(fv.take(0) =~= Seq::<(Seq<char>, Seq<u8>)>::empty());
    }
    None
}

/// The instructor-side reader of one artifact's bytes.
pub struct Decryptor {
    data: Vec<u8>,
}

impl View for Decryptor {
    type V = Seq<u8>;

    closed spec fn view(&self) -> Seq<u8> {
        self.data@
    }
}

impl Decryptor {
    /// A reader over the artifact bytes the caller loaded.
    pub fn new(data: Vec<u8>) -> (r: Decryptor)
        ensures
            r@ == data@,
    {
        Decryptor { data }
    }

    /// Decrypts and types the artifact: returns the payloads exactly when
    /// `read_artifact_spec` yields them, and names what went wrong otherwise.
    pub fn decrypt(&self, password: &str) -> (r: Result<DecryptedData, ReadError>)
        ensures
            r matches Ok(d) ==> read_artifact_spec(self@, password@) == Some(d@),
            r is Err ==> read_artifact_spec(self@, password@) is None,
            r matches Err(e) ==> (e matches ReadError::MissingMember(m) ==> (artifact_members(
                self@,
                password@,
            ) matches Some(mm) && member_lookup(mm, member_name_chars(m)) is None)),
    {
        proof {
            reveal(read_artifact_spec);
        }
        let zdata = match decrypt_file(self.data.as_slice(), password) {
            Ok(z) => z,
            Err(e) => {
                return Err(ReadError::Crypto(e));
            },
        };
        let files = match zip_extract(&zdata) {
            Ok(f) => f,
            Err(e) => {
                return Err(ReadError::Archive(e));
            },
        };
        let ee = match find_member(&files, "events.json.enc") {
            Some(v) => v,
            None => {
                return Err(ReadError::MissingMember(MemberName::Events));
            },
        };
        let se = match find_member(&files, "summary.json.enc") {
            Some(v) => v,
            None => {
                return Err(ReadError::MissingMember(MemberName::Summary));
            },
        };
        let me = match find_member(&files, "metadata.json.enc") {
            Some(v) => v,
            None => {
                return Err(ReadError::MissingMember(MemberName::Metadata));
            },
        };
        let te = match find_member(&files, "terminal_output.log.enc") {
            Some(v) => v,
            None => {
                return Err(ReadError::MissingMember(MemberName::TerminalOutput));
            },
        };
        let ce = match find_member(&files, "state_copy.json.enc") {
            Some(v) => v,
            None => {
                return Err(ReadError::MissingMember(MemberName::StateCopy));
            },
        };
        let ih = match find_member(&files, "integrity.sha256") {
            Some(v) => v,
            None => {
                return Err(ReadError::MissingMember(MemberName::Integrity));
            },
        };
        let ej = match decrypt_file(ee.as_slice(), password) {
            Ok(v) => v,
            Err(e) => {
                return Err(ReadError::Crypto(e));
            },
        };
        let sj = match decrypt_file(se.as_slice(), password) {
            Ok(v) => v,
            Err(e) => {
                return Err(ReadError::Crypto(e));
            },
        };
        let mj = match decrypt_file(me.as_slice(), password) {
            Ok(v) => v,
            Err(e) => {
                return Err(ReadError::Crypto(e));
            },
        };
        let tb = match decrypt_file(te.as_slice(), password) {
            Ok(v) => v,
            Err(e) => {
                return Err(ReadError::Crypto(e));
            },
        };
        let cj = match decrypt_file(ce.as_slice(), password) {
            Ok(v) => v,
            Err(e) => {
                return Err(ReadError::Crypto(e));
            },
        };
        let events = match parse_events(ej.as_slice()) {
            Some(v) => v,
            None => {
                return Err(ReadError::MalformedMember);
            },
        };
        let summary = match parse_summary(sj.as_slice()) {
            Some(v) => v,
            None => {
                return Err(ReadError::MalformedMember);
            },
        };
        let metadata = match parse_metadata(mj.as_slice()) {
            Some(v) => v,
            None => {
                return Err(ReadError::MalformedMember);
            },
        };
        let state_copy = match parse_state_json(cj.as_slice()) {
            Some(v) => v,
            None => {
                return Err(ReadError::MalformedMember);
            },
        };
        let trimmed = trim_ascii(&ih);
        let integrity_hash = match string_from_utf8(trimmed) {
            Some(s) => s,
            None => {
                return Err(ReadError::MalformedMember);
            },
        };
        let d = DecryptedData {
            events,
            summary,
            metadata,
            terminal_output: tb,
            state_copy,
            integrity_hash,
        };
        proof {
            reveal(read_artifact_spec);
            assert(d@ =~~= read_artifact_spec(self@, password@).unwrap());
        }
        Ok(d)
    }

    /// Recomputes the digest of the five inner ciphertexts, in the fixed
    /// order, and compares it with the stored hash member; returns exactly
    /// `integrity_ok_spec`.
    pub fn verify_integrity(&self, password: &str) -> (r: Result<bool, ReadError>)
        ensures
            r matches Ok(b) ==> integrity_ok_spec(self@, password@) == Some(b),
            r is Err ==> integrity_ok_spec(self@, password@) is None,
            r matches Err(e) ==> (e matches ReadError::MissingMember(m) ==> (artifact_members(
                self@,
                password@,
            ) matches Some(mm) && member_lookup(mm, member_name_chars(m)) is None)),
    {
        proof {
            reveal(integrity_ok_spec);
        }
        let zdata = match decrypt_file(self.data.as_slice(), password) {
            Ok(z) => z,
            Err(e) => {
                return Err(ReadError::Crypto(e));
            },
        };
        let files = match zip_extract(&zdata) {
            Ok(f) => f,
            Err(e) => {
                return Err(ReadError::Archive(e));
            },
        };
        let ee = match find_member(&files, "events.json.enc") {
            Some(v) => v,
            None => {
                return Err(ReadError::MissingMember(MemberName::Events));
            },
        };
        let se = match find_member(&files, "summary.json.enc") {
            Some(v) => v,
            None => {
                return Err(ReadError::MissingMember(MemberName::Summary));
            },
        };
        let me = match find_member(&files, "metadata.json.enc") {
            Some(v) => v,
            None => {
                return Err(ReadError::MissingMember(MemberName::Metadata));
            },
        };
        let te = match find_member(&files, "terminal_output.log.enc") {
            Some(v) => v,
            None => {
                return Err(ReadError::MissingMember(MemberName::TerminalOutput));
            },
        };
        let ce = match find_member(&files, "state_copy.json.enc") {
            Some(v) => v,
            None => {
                return Err(ReadError::MissingMember(MemberName::StateCopy));
            },
        };
        let ih = match find_member(&files, "integrity.sha256") {
            Some(v) => v,
            None => {
                return Err(ReadError::MissingMember(MemberName::Integrity));
            },
        };
        let mut all: Vec<u8> = Vec::new();
        all.extend_from_slice(ee.as_slice());
        all.extend_from_slice(se.as_slice());
        all.extend_from_slice(me.as_slice());
        all.extend_from_slice(te.as_slice());
        all.extend_from_slice(ce.as_slice());
        let digest = crate::crypto::sha256(all.as_slice());
        let computed = crate::text::hex_encode(digest.as_slice());
        let stored = trim_ascii(&ih);
        proof {
            assert(all@ =~= ee@ + se@ + me@ + te@ + ce@);
        }
        Ok(crate::text::bytes_eq(stored.as_slice(), computed.as_slice()))
    }
}

/// In a six-member list carrying the canonical artifact names in order, each
/// lookup finds its member.
pub proof fn lemma_artifact_member_lookups(fv: Seq<(Seq<char>, Seq<u8>)>)
    requires
        fv.len() == 6,
        fv[0].0 == "events.json.enc"@,
        fv[1].0 == "summary.json.enc"@,
        fv[2].0 == "metadata.json.enc"@,
        fv[3].0 == "terminal_output.log.enc"@,
        fv[4].0 == "state_copy.json.enc"@,
        fv[5].0 == "integrity.sha256"@,
    ensures
        member_lookup(fv, "events.json.enc"@) == Some(fv[0].1),
        member_lookup(fv, "summary.json.enc"@) == Some(fv[1].1),
        member_lookup(fv, "metadata.json.enc"@) == Some(fv[2].1),
        member_lookup(fv, "terminal_output.log.enc"@) == Some(fv[3].1),
        member_lookup(fv, "state_copy.json.enc"@) == Some(fv[4].1),
        member_lookup(fv, "integrity.sha256"@) == Some(fv[5].1),
{
    reveal_strlit("events.json.enc");
    reveal_strlit("summary.json.enc");
    reveal_strlit("metadata.json.enc");
    reveal_strlit("terminal_output.log.enc");
    reveal_strlit("state_copy.json.enc");
    reveal_strlit("integrity.sha256");
    assert("events.json.enc"@.len() == 15);
    assert("summary.json.enc"@.len() == 16);
    assert("metadata.json.enc"@.len() == 17);
    assert("terminal_output.log.enc"@.len() == 23);
    assert("state_copy.json.enc"@.len() == 19);
    assert("integrity.sha256"@.len() == 16);
    assert("summary.json.enc"@[0] != "integrity.sha256"@[0]);
    lemma_lookup_found(fv, "events.json.enc"@, 0);
    lemma_lookup_found(fv, "summary.json.enc"@, 1);
    lemma_lookup_found(fv, "metadata.json.enc"@, 2);
    lemma_lookup_found(fv, "terminal_output.log.enc"@, 3);
    lemma_lookup_found(fv, "state_copy.json.enc"@, 4);
    lemma_lookup_found(fv, "integrity.sha256"@, 5);
}

/// An artifact whose six canonical members decrypt and parse to the given
/// payloads reads back as exactly those payloads, and its integrity check
/// passes when the stored digest is the digest of the five ciphertexts.
#[verifier::rlimit(100)]
pub proof fn lemma_artifact_read_back(
    bytes: Seq<u8>,
    pw: Seq<char>,
    fv: Seq<(Seq<char>, Seq<u8>)>,
    ej: Seq<u8>,
    sj: Seq<u8>,
    mj: Seq<u8>,
    tb: Seq<u8>,
    cj: Seq<u8>,
    events: Seq<KeystrokeEventV>,
    summary: SessionSummary,
    metadata: MetadataV,
    state: State,
    hash: Seq<char>,
)
    requires
        artifact_members(bytes, pw) == Some(fv),
        fv.len() == 6,
        fv[0].0 == "events.json.enc"@,
        fv[1].0 == "summary.json.enc"@,
        fv[2].0 == "metadata.json.enc"@,
        fv[3].0 == "terminal_output.log.enc"@,
        fv[4].0 == "state_copy.json.enc"@,
        fv[5].0 == "integrity.sha256"@,
        decrypt_spec(fv[0].1, pw) == Some(ej),
        decrypt_spec(fv[1].1, pw) == Some(sj),
        decrypt_spec(fv[2].1, pw) == Some(mj),
        decrypt_spec(fv[3].1, pw) == Some(tb),
        decrypt_spec(fv[4].1, pw) == Some(cj),
        parse_events_spec(ej) == Some(events),
        parse_summary_spec(sj) == Some(summary),
        parse_metadata_spec(mj) == Some(metadata),
        parse_state_spec(cj) == Some(state),
        fv[5].1 == encode_utf8(hash),
        trim_bytes(fv[5].1) == fv[5].1,
        fv[5].1 == hex_of(sha256_of(fv[0].1 + fv[1].1 + fv[2].1 + fv[3].1 + fv[4].1)),
    ensures
        read_artifact_spec(bytes, pw) == Some(
            DecryptedDataV {
                events,
                summary,
                metadata,
                terminal_output: tb,
                state_copy: state,
                integrity_hash: hash,
            },
        ),
        integrity_ok_spec(bytes, pw) == Some(true),
{
    broadcast use vstd::utf8::encode_utf8_valid_utf8, vstd::utf8::encode_utf8_decode_utf8;

    reveal(read_artifact_spec);
    reveal(integrity_ok_spec);
    lemma_artifact_member_lookups(fv);
    assert(valid_utf8(trim_bytes(fv[5].1)));
    assert(decode_utf8(trim_bytes(fv[5].1)) == hash);
}

} // verus!
