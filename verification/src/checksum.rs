//! Checksums of package archives: SHA-256, written in lower-case hex.
use vstd::prelude::*;

use sha2::Digest;

use crate::error::RawError;
use crate::index::{index_checksum, index_checksum_of, index_line, index_line_round_trip, pkgfile_key};
use crate::text::{
    chars_of, contains, find, find_line_containing, lacks, lemma_lines_cons, lines, same_text, strip_cr,
};

verus! {

/// The SHA-256 digest of `data`, as the `sha2` crate computes it.
pub uninterp spec fn sha256(data: Seq<u8>) -> Seq<u8>;

/// `sha2::Sha256::digest`: its result is the digest of the whole input,
/// named `sha256`, 32 bytes long (`Sha256`'s output size). What those bytes
/// are is left to that name.
#[verifier::external_body]
fn sha256_digest(data: &[u8]) -> (r: Vec<u8>)
    ensures
        r@ == sha256(data@),
        r@.len() == 32,
{
    sha2::Sha256::digest(data).to_vec()
}

/// The lower-case hex digit of `n` (below 16).
pub open spec fn hex_digit(n: int) -> char {
    seq!['0', '1', '2', '3', '4', '5', '6', '7', '8', '9', 'a', 'b', 'c', 'd', 'e', 'f'][n]
}

/// `data` written in lower-case hex, two digits per byte, high digit first.
pub open spec fn hex_lower(data: Seq<u8>) -> Seq<char>
    decreases data.len(),
{
    if data.len() == 0 {
        seq![]
    } else {
        hex_lower(data.drop_last()) + seq![hex_digit(data.last() as int / 16), hex_digit(data.last() as int % 16)]
    }
}

/// `hex::encode`: each byte as two lower-case hex digits, in order
/// (the crate's table `0123456789abcdef`, high nibble first).
#[verifier::external_body]
fn hex_encode(data: &[u8]) -> (r: String)
    ensures
        r@ == hex_lower(data@),
{
    hex::encode(data)
}

/// A digest written as the index records it: lower-case hex.
pub fn hex_of_digest(digest: &[u8]) -> (r: String)
    ensures
        r@ == hex_lower(digest@),
{
    hex_encode(digest)
}

/// The checksum of an archive's bytes: its SHA-256 in lower-case hex.
pub open spec fn checksum(data: Seq<u8>) -> Seq<char> {
    hex_lower(sha256(data))
}

/// The checksum of an archive's bytes.
pub fn checksum_hex(data: &[u8]) -> (r: String)
    ensures
        r@ == checksum(data@),
        r@.len() == 64,
{
    let d = sha256_digest(data);
    proof { hex_lower_shape(d@); }
    hex_of_digest(&d)
}

/// Checking an archive against the checksum the index records for it.
pub open spec fn verify_checksum(expected: Seq<char>, data: Seq<u8>) -> Result<(), RawError> {
    if expected == checksum(data) {
        Ok(())
    } else {
        Err(RawError::ChecksumMismatch)
    }
}

/// Checks an archive's bytes against the checksum the index records.
pub fn verify_checksum_of(expected: &str, data: &[u8]) -> (r: Result<(), RawError>)
    ensures
        r == verify_checksum(expected@, data@),
{
    let actual = checksum_hex(data);
    if same_text(&chars_of(expected), &chars_of(actual.as_str())) {
        Ok(())
    } else {
        Err(RawError::ChecksumMismatch)
    }
}

/// The integrity check of the archive of package `pkg` against index
/// `index`: the index's error when it records no checksum for `pkg`, else
/// whether the archive's bytes match the recorded checksum.
pub open spec fn archive_check(index: Seq<char>, pkg: Seq<char>, data: Seq<u8>) -> Result<(), RawError> {
    match index_checksum(index, pkg) {
        Err(e) => Err(e),
        Ok(sha) => verify_checksum(sha, data),
    }
}

/// Checks the bytes of the archive of package `pkg` against the checksum
/// index `index` records for it; installing goes on only after `Ok`.
pub fn check_archive(index: &str, pkg: &str, data: &[u8]) -> (r: Result<(), RawError>)
    ensures
        r == archive_check(index@, pkg@, data@),
{
    match index_checksum_of(index, pkg) {
        Err(e) => Err(e),
        Ok(sha) => verify_checksum_of(sha.as_str(), data),
    }
}

/// A hex text has two digits per byte, each one of `0-9a-f`.
pub proof fn hex_lower_shape(data: Seq<u8>)
    ensures
        hex_lower(data).len() == 2 * data.len(),
        forall|k: int| 0 <= k < hex_lower(data).len() ==> {
            let c = #[trigger] hex_lower(data)[k];
            ('0' <= c <= '9') || ('a' <= c <= 'f')
        },
    decreases data.len(),
{
    if data.len() > 0 {
        hex_lower_shape(data.drop_last());
        let b = data.last();
        let hi = b as int / 16;
        let lo = b as int % 16;
        assert(0 <= hi < 16 && 0 <= lo < 16);
        let digits = seq!['0', '1', '2', '3', '4', '5', '6', '7', '8', '9', 'a', 'b', 'c', 'd', 'e', 'f'];
        assert forall|n: int| 0 <= n < 16 implies ('0' <= #[trigger] digits[n] <= '9') || ('a' <= digits[n] <= 'f') by {
        }
        let prev = hex_lower(data.drop_last());
        let tail = seq![hex_digit(hi as int), hex_digit(lo as int)];
        assert forall|k: int| 0 <= k < hex_lower(data).len() implies {
            let c = #[trigger] hex_lower(data)[k];
            ('0' <= c <= '9') || ('a' <= c <= 'f')
        } by {
            if k < prev.len() {
                assert(hex_lower(data)[k] == prev[k]);
            } else {
                assert(hex_lower(data)[k] == tail[k - prev.len()]);
            }
        }
    }
}

} // verus!

verus! {

/// An index written with an archive's checksum lets that archive pass the
/// integrity check: looking package `pkg` up in an index whose first line
/// is the one written for its `Pkgfile` at `path` gives back the archive's
/// checksum, which the archive's bytes then match. This holds when `path`
/// contains `pkg/Pkgfile` and no part of the line holds `|` or a line break.
pub proof fn indexed_archive_verifies(
    path: Seq<char>,
    version: Seq<char>,
    release: Seq<char>,
    data: Seq<u8>,
    rest: Seq<char>,
    pkg: Seq<char>,
)
    requires
        contains(path, pkgfile_key(pkg)),
        lacks(path, '|') && lacks(path, '\n'),
        lacks(version, '|') && lacks(version, '\n'),
        lacks(release, '|') && lacks(release, '\n'),
    ensures
        index_checksum(index_line(path, version, release, checksum(data)) + seq!['\n'] + rest, pkg)
            == Ok::<Seq<char>, RawError>(checksum(data)),
        verify_checksum(checksum(data), data) == Ok::<(), RawError>(()),
        archive_check(index_line(path, version, release, checksum(data)) + seq!['\n'] + rest, pkg, data)
            == Ok::<(), RawError>(()),
{
    let sha = checksum(data);
    hex_lower_shape(sha256(data));
    assert(lacks(sha, '|') && lacks(sha, '\n')) by {
        assert forall|i: int| 0 <= i < sha.len() implies sha[i] != '|' && sha[i] != '\n' by {
            let c = sha[i];
            assert(('0' <= c <= '9') || ('a' <= c <= 'f'));
        }
    }
    let l = index_line(path, version, release, sha);
    index_line_round_trip(path, version, release, sha);
    let bar = seq!['|'];
    assert(lacks(l, '\n')) by {
        assert(l =~= path + bar + version + bar + release + bar + sha);
        assert forall|i: int| 0 <= i < l.len() implies l[i] != '\n' by {
            if i < path.len() {
                assert(l[i] == path[i]);
            } else if i == path.len() {
            } else if i < path.len() + 1 + version.len() {
                assert(l[i] == version[i - path.len() - 1]);
            } else if i == path.len() + 1 + version.len() {
            } else if i < path.len() + 2 + version.len() + release.len() {
                assert(l[i] == release[i - path.len() - 2 - version.len()]);
            } else if i == path.len() + 2 + version.len() + release.len() {
            } else {
                assert(l[i] == sha[i - path.len() - 3 - version.len() - release.len()]);
            }
        }
    }
    lemma_lines_cons(l, rest);
    if l.len() > 0 {
        assert(l.last() != '\r') by {
            assert(l.last() == sha.last() || sha.len() == 0);
            if sha.len() > 0 {
                let c = sha[sha.len() - 1];
                assert(('0' <= c <= '9') || ('a' <= c <= 'f'));
            } else {
                assert(l =~= path + bar + version + bar + release + bar);
            }
        }
    }
    assert(strip_cr(l) == l);
    // `l` contains the key, since `path` (its start) does
    crate::text::lemma_find_from(path, pkgfile_key(pkg), 0);
    let k = find(path, pkgfile_key(pkg));
    let key = pkgfile_key(pkg);
    assert(l.subrange(k, k + key.len()) =~= path.subrange(k, k + key.len()));
    crate::text::lemma_contains_at(l, key, k);
    let ls = lines(l + seq!['\n'] + rest);
    assert(ls[0] == l);
    assert(find_line_containing(ls, key, 0) == 0);
}

} // verus!
