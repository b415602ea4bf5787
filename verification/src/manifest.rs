//! The integrity-manifest builder: fingerprints every published file.
//!
//! For each file of the (already validated) output tree the builder records
//! the relative path, the byte length, and the SHA-256 digest of the raw
//! bytes, in the order the files were handed in.  The caller supplies the
//! generation timestamp; everything else is a pure function of the tree.

use vstd::prelude::*;
use crate::digest::{hex_of, sha256_hex, sha256_of};
use crate::validate::FileEntry;

verus! {

/// One fingerprinted file of the output tree.
pub struct ManifestEntry {
    /// Path relative to the output root, as UTF-8 bytes.
    pub relative_path: Vec<u8>,
    /// Length of the file in bytes.
    pub size_bytes: u64,
    /// Lowercase hex SHA-256 digest of the raw bytes (64 hex digits).
    pub digest: Vec<u8>,
}

/// The integrity manifest: a format tag, a generation timestamp, a
/// generator identifier, and one entry per file.
pub struct Manifest {
    /// Version of the manifest format.
    pub format_version: String,
    /// When the manifest was generated (RFC 3339 text, supplied by the
    /// caller).
    pub generated_at: String,
    /// Identifier of the generator.
    pub generator_id: String,
    /// One entry per regular file of the output tree, in hand-in order.
    pub entries: Vec<ManifestEntry>,
}

/// The entry records exactly this file: same path, the content's length,
/// and the hex SHA-256 digest of the content.
pub open spec fn entry_matches(e: ManifestEntry, path: Seq<u8>, content: Seq<u8>) -> bool {
    e.relative_path@ == path && e.size_bytes == content.len() && e.digest@ == hex_of(
        sha256_of(content),
    )
}

/// The manifest records exactly the given files, in order.
pub open spec fn manifest_matches(m: Manifest, files: Seq<FileEntry>) -> bool {
    m.entries@.len() == files.len() && forall|i: int|
        0 <= i < files.len() ==> entry_matches(
            #[trigger] m.entries@[i],
            files[i].path@,
            files[i].content@,
        )
}

/// Builds the integrity manifest for the given output tree.
///
/// One entry per file, in hand-in order; the digest is computed over the
/// raw bytes, exactly as they will be served.  Only the timestamp comes
/// from outside; path, size and digest are functions of the tree alone.
pub fn build_manifest(files: &Vec<FileEntry>, generated_at: String) -> (m: Manifest)
    ensures
        manifest_matches(m, files@),
        m.format_version@ == "1.0"@,
        m.generator_id@ == "secureblog-rs"@,
        m.generated_at@ == generated_at@,
{
    let mut entries: Vec<ManifestEntry> = Vec::new();
    let mut i: usize = 0;
    while i < files.len()
        invariant
            i <= files@.len(),
            entries@.len() == i,
            forall|m2: int|
                0 <= m2 < i ==> entry_matches(
                    #[trigger] entries@[m2],
                    files@[m2].path@,
                    files@[m2].content@,
                ),
        decreases files@.len() - i,
    {
        let f = &files[i];
        let digest = sha256_hex(f.content.as_slice());
        let e = ManifestEntry {
            relative_path: vstd::slice::slice_to_vec(f.path.as_slice()),
            size_bytes: f.content.len() as u64,
            digest,
        };
        entries.push(e);
        i = i + 1;
    }
    Manifest {
        format_version: "1.0".to_owned(),
        generated_at,
        generator_id: "secureblog-rs".to_owned(),
        entries,
    }
}

/// The manifest has one entry per file of the tree: its entry count equals
/// the number of files handed in.
pub proof fn lemma_manifest_entry_count(m: Manifest, files: Seq<FileEntry>)
    requires
        manifest_matches(m, files),
    ensures
        m.entries@.len() == files.len(),
{
}

/// Round-trip integrity: recomputing the SHA-256 digest of any file's bytes
/// yields exactly the digest recorded in the manifest, and the recorded
/// size is the byte length.
pub proof fn lemma_manifest_round_trip(m: Manifest, files: Seq<FileEntry>, i: int)
    requires
        manifest_matches(m, files),
        0 <= i < files.len(),
    ensures
        m.entries@[i].digest@ == hex_of(sha256_of(files[i].content@)),
        m.entries@[i].size_bytes == files[i].content@.len(),
        m.entries@[i].relative_path@ == files[i].path@,
{
}

/// Determinism: two manifests built over the same unchanged tree record the
/// same path, size and digest for every entry, whatever their timestamps.
pub proof fn lemma_manifest_deterministic(m1: Manifest, m2: Manifest, files: Seq<FileEntry>)
    requires
        manifest_matches(m1, files),
        manifest_matches(m2, files),
    ensures
        m1.entries@.len() == m2.entries@.len(),
        forall|i: int|
            0 <= i < files.len() ==> (#[trigger] m1.entries@[i]).relative_path@
                == m2.entries@[i].relative_path@ && m1.entries@[i].size_bytes
                == m2.entries@[i].size_bytes && m1.entries@[i].digest@ == m2.entries@[i].digest@,
{
}

} // verus!
