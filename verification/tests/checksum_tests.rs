use raw::checksum::{check_archive, checksum_hex, hex_of_digest, verify_checksum_of};
use raw::error::RawError;
use raw::index::{index_checksum_of, index_line_of};

#[test]
fn sha256_of_abc() {
    assert_eq!(checksum_hex(b"abc"), "ba7816bf8f01cfea414140de5dae2223b00361a396177a9cb410ff61f20015ad");
}

#[test]
fn sha256_of_nothing() {
    assert_eq!(checksum_hex(b""), "e3b0c44298fc1c149afbf4c8996fb92427ae41e4649b934ca495991b7852b855");
}

#[test]
fn hex_is_lower_case_two_digits_per_byte() {
    assert_eq!(hex_of_digest(&[0x00, 0x0f, 0xa0, 0xff]), "000fa0ff");
    assert_eq!(hex_of_digest(&[]), "");
}

#[test]
fn checksum_verification() {
    let good = "ba7816bf8f01cfea414140de5dae2223b00361a396177a9cb410ff61f20015ad";
    assert_eq!(verify_checksum_of(good, b"abc"), Ok(()));
    assert_eq!(verify_checksum_of(good, b"abd"), Err(RawError::ChecksumMismatch));
}

#[test]
fn indexed_archive_passes_integrity_check() {
    let data = b"the bytes of htop.3.5.1#1.raw.tar.gz";
    let sha = checksum_hex(data);
    let index = format!("{}\nbase/nano/Pkgfile|9.0|1|none\n", index_line_of("extra/htop/Pkgfile", "3.5.1", "1", &sha));
    let recorded = index_checksum_of(&index, "htop").unwrap();
    assert_eq!(recorded, sha);
    assert_eq!(verify_checksum_of(&recorded, data), Ok(()));
    assert_eq!(verify_checksum_of(&recorded, b"tampered"), Err(RawError::ChecksumMismatch));
}

#[test]
fn archive_checked_against_index() {
    let data = b"archive bytes";
    let index = format!("{}\n", index_line_of("extra/htop/Pkgfile", "1", "1", &checksum_hex(data)));
    assert_eq!(check_archive(&index, "htop", data), Ok(()));
    assert_eq!(check_archive(&index, "htop", b"other bytes"), Err(RawError::ChecksumMismatch));
    assert_eq!(check_archive(&index, "nano", data), Err(RawError::NotInIndex));
    assert_eq!(check_archive("x/htop/Pkgfile|1|1\n", "htop", data), Err(RawError::ChecksumMissing));
}
