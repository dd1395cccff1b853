//! Recognising compressed archives by their magic numbers.
use vstd::prelude::*;

use crate::error::RawError;

verus! {

/// The kinds of archive the library recognises.
#[derive(Debug, PartialEq, Eq, Clone, Copy, Structural)]
pub enum ArchiveType {
    Zip,
    SevenZip,
    Rar,
    Gzip,
    Bzip2,
    Tar,
    Xz,
    Zstd,
    Unknown,
}

/// A magic number: the bytes `magic` found at byte `offset` of an archive
/// of kind `archive_type`.
pub struct Signature {
    pub archive_type: ArchiveType,
    pub magic: Vec<u8>,
    pub offset: u64,
}

/// The number of known signatures.
pub open spec fn signature_count() -> int {
    9
}

/// The kind of archive of the `k`-th known signature.
pub open spec fn signature_type(k: int) -> ArchiveType {
    if k == 0 || k == 1 {
        ArchiveType::Zip
    } else if k == 2 {
        ArchiveType::SevenZip
    } else if k == 3 {
        ArchiveType::Rar
    } else if k == 4 {
        ArchiveType::Gzip
    } else if k == 5 {
        ArchiveType::Bzip2
    } else if k == 6 {
        ArchiveType::Xz
    } else if k == 7 {
        ArchiveType::Zstd
    } else {
        ArchiveType::Tar
    }
}

/// The magic bytes of the `k`-th known signature.
pub open spec fn signature_magic(k: int) -> Seq<u8> {
    if k == 0 {
        seq![0x50u8, 0x4B, 0x03, 0x04]
    } else if k == 1 {
        seq![0x50u8, 0x4B, 0x05, 0x06]
    } else if k == 2 {
        seq![0x37u8, 0x7A, 0xBC, 0xAF, 0x27, 0x1C]
    } else if k == 3 {
        seq![0x52u8, 0x61, 0x72, 0x21, 0x1A, 0x07]
    } else if k == 4 {
        seq![0x1Fu8, 0x8B]
    } else if k == 5 {
        seq![0x42u8, 0x5A, 0x68]
    } else if k == 6 {
        seq![0xFDu8, 0x37, 0x7A, 0x58, 0x5A, 0x00]
    } else if k == 7 {
        seq![0x28u8, 0xB5, 0x2F, 0xFD]
    } else {
        seq![0x75u8, 0x73, 0x74, 0x61, 0x72]
    }
}

/// The byte offset of the `k`-th known signature (the TAR magic sits at 257).
pub open spec fn signature_offset(k: int) -> int {
    if k == 8 {
        257
    } else {
        0
    }
}

/// The end of the `k`-th signature's bytes.
pub open spec fn signature_end(k: int) -> int {
    signature_offset(k) + signature_magic(k).len()
}

/// The first `bytes_read` bytes of `buf` show the `k`-th signature.
pub open spec fn signature_matches(bytes_read: int, buf: Seq<u8>, k: int) -> bool {
    &&& bytes_read >= signature_end(k)
    &&& signature_end(k) <= buf.len()
    &&& buf.subrange(signature_offset(k), signature_end(k)) == signature_magic(k)
}

/// None of the signatures tried before the `k`-th shows in `buf`.
pub open spec fn no_match_before(bytes_read: int, buf: Seq<u8>, k: int) -> bool {
    forall|j: int| 0 <= j < k ==> !signature_matches(bytes_read, buf, j)
}

/// Trying the signatures in order reads only inside the buffer: whenever
/// enough bytes were read for a signature reached (none before it matched),
/// its bytes lie within `buf`.
pub open spec fn reads_within(bytes_read: int, buf: Seq<u8>) -> bool {
    forall|k: int|
        0 <= k < signature_count() && bytes_read >= signature_end(k) && #[trigger] no_match_before(bytes_read, buf, k)
            ==> signature_end(k) <= buf.len()
}

/// Some known signature shows in the first `bytes_read` bytes of `buf`.
pub open spec fn shows_archive(bytes_read: int, buf: Seq<u8>) -> bool {
    exists|k: int| 0 <= k < signature_count() && signature_matches(bytes_read, buf, k)
}

impl Signature {
    /// The `k`-th known signature.
    pub open spec fn is_known(&self, k: int) -> bool {
        &&& self.archive_type == signature_type(k)
        &&& self.magic@ == signature_magic(k)
        &&& self.offset == signature_offset(k)
    }
}

/// The table of known signatures, in the order in which they are tried.
pub fn signatures() -> (v: Vec<Signature>)
    ensures
        v@.len() == signature_count(),
        forall|k: int| 0 <= k < signature_count() ==> (#[trigger] v@[k]).is_known(k),
{
    let v = vec![
        Signature { archive_type: ArchiveType::Zip, magic: vec![0x50, 0x4B, 0x03, 0x04], offset: 0 },
        Signature { archive_type: ArchiveType::Zip, magic: vec![0x50, 0x4B, 0x05, 0x06], offset: 0 },
        Signature { archive_type: ArchiveType::SevenZip, magic: vec![0x37, 0x7A, 0xBC, 0xAF, 0x27, 0x1C], offset: 0 },
        Signature { archive_type: ArchiveType::Rar, magic: vec![0x52, 0x61, 0x72, 0x21, 0x1A, 0x07], offset: 0 },
        Signature { archive_type: ArchiveType::Gzip, magic: vec![0x1F, 0x8B], offset: 0 },
        Signature { archive_type: ArchiveType::Bzip2, magic: vec![0x42, 0x5A, 0x68], offset: 0 },
        Signature { archive_type: ArchiveType::Xz, magic: vec![0xFD, 0x37, 0x7A, 0x58, 0x5A, 0x00], offset: 0 },
        Signature { archive_type: ArchiveType::Zstd, magic: vec![0x28, 0xB5, 0x2F, 0xFD], offset: 0 },
        Signature { archive_type: ArchiveType::Tar, magic: vec![0x75, 0x73, 0x74, 0x61, 0x72], offset: 257 },
    ];
    assert(v@[0].magic@ =~= signature_magic(0));
    assert(v@[1].magic@ =~= signature_magic(1));
    assert(v@[2].magic@ =~= signature_magic(2));
    assert(v@[3].magic@ =~= signature_magic(3));
    assert(v@[4].magic@ =~= signature_magic(4));
    assert(v@[5].magic@ =~= signature_magic(5));
    assert(v@[6].magic@ =~= signature_magic(6));
    assert(v@[7].magic@ =~= signature_magic(7));
    assert(v@[8].magic@ =~= signature_magic(8));
    v
}

fn bytes_at(buffer: &[u8], start: usize, magic: &[u8]) -> (r: bool)
    requires
        start + magic@.len() <= buffer@.len(),
    ensures
        r == (buffer@.subrange(start as int, start + magic@.len()) == magic@),
{
    let n = buffer.len();
    let mut k: usize = 0;
    while k < magic.len()
        invariant
            n == buffer@.len(),
            start + magic@.len() <= buffer@.len(),
            k <= magic@.len(),
            forall|m: int| 0 <= m < k ==> buffer@[start + m] == magic@[m],
        decreases magic.len() - k,
    {
        if buffer[start + k] != magic[k] {
            assert(buffer@.subrange(start as int, start + magic@.len())[k as int] != magic@[k as int]);
            return false;
        }
        k = k + 1;
    }
    assert(buffer@.subrange(start as int, start + magic@.len()) =~= magic@);
    true
}

/// Whether the first `bytes_read` bytes of `buffer` start (at the right
/// offset) with the magic number of a known archive kind.
pub fn is_archive(bytes_read: usize, buffer: &[u8]) -> (r: Result<bool, RawError>)
    requires
        reads_within(bytes_read as int, buffer@),
    ensures
        r == Ok::<bool, RawError>(shows_archive(bytes_read as int, buffer@)),
{
    let sigs = signatures();
    let mut i: usize = 0;
    while i < sigs.len()
        invariant
            i <= sigs@.len(),
            sigs@.len() == signature_count(),
            forall|k: int| 0 <= k < signature_count() ==> (#[trigger] sigs@[k]).is_known(k),
            reads_within(bytes_read as int, buffer@),
            no_match_before(bytes_read as int, buffer@, i as int),
        decreases sigs.len() - i,
    {
        let sig = &sigs[i];
        assert(sigs@[i as int].is_known(i as int));
        let start = sig.offset as usize;
        let len = sig.magic.len();
        assert(start + len == signature_end(i as int));
        let end = start + len;
        assert(no_match_before(bytes_read as int, buffer@, i as int));
        if bytes_read >= end && bytes_at(buffer, start, &sig.magic) {
            assert(signature_matches(bytes_read as int, buffer@, i as int));
            return Ok(true);
        }
        assert(!signature_matches(bytes_read as int, buffer@, i as int));
        assert(no_match_before(bytes_read as int, buffer@, i + 1));
        i = i + 1;
    }
    Ok(false)
}

} // verus!
