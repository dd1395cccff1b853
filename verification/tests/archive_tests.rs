use raw::archive::{is_archive, signatures, ArchiveType};

fn buffer_with(prefix: &[u8]) -> Vec<u8> {
    let mut b = vec![0u8; 512];
    b[..prefix.len()].copy_from_slice(prefix);
    b
}

#[test]
fn gzip_magic_is_an_archive() {
    let b = buffer_with(&[0x1F, 0x8B, 0x08]);
    assert_eq!(is_archive(512, &b), Ok(true));
}

#[test]
fn zip_and_seven_zip_are_archives() {
    assert_eq!(is_archive(512, &buffer_with(&[0x50, 0x4B, 0x03, 0x04])), Ok(true));
    assert_eq!(is_archive(512, &buffer_with(&[0x50, 0x4B, 0x05, 0x06])), Ok(true));
    assert_eq!(is_archive(512, &buffer_with(&[0x37, 0x7A, 0xBC, 0xAF, 0x27, 0x1C])), Ok(true));
    assert_eq!(is_archive(512, &buffer_with(&[0x28, 0xB5, 0x2F, 0xFD])), Ok(true));
    assert_eq!(is_archive(512, &buffer_with(&[0xFD, 0x37, 0x7A, 0x58, 0x5A, 0x00])), Ok(true));
    assert_eq!(is_archive(512, &buffer_with(&[0x42, 0x5A, 0x68])), Ok(true));
    assert_eq!(is_archive(512, &buffer_with(&[0x52, 0x61, 0x72, 0x21, 0x1A, 0x07])), Ok(true));
}

#[test]
fn tar_magic_sits_at_offset_257() {
    let mut b = vec![0u8; 512];
    b[257..262].copy_from_slice(b"ustar");
    assert_eq!(is_archive(512, &b), Ok(true));
    assert_eq!(is_archive(261, &b), Ok(false));
}

#[test]
fn plain_text_is_not_an_archive() {
    let b = buffer_with(b"#!/bin/sh\necho hello\n");
    assert_eq!(is_archive(512, &b), Ok(false));
}

#[test]
fn too_few_bytes_read_is_not_an_archive() {
    let b = buffer_with(&[0x1F, 0x8B]);
    assert_eq!(is_archive(1, &b), Ok(false));
    assert_eq!(is_archive(2, &b), Ok(true));
}

#[test]
fn short_buffer_is_read_within_bounds() {
    let b = vec![0x1F, 0x8B];
    assert_eq!(is_archive(2, &b), Ok(true));
    assert_eq!(is_archive(0, &[]), Ok(false));
}

#[test]
fn first_matching_signature_decides_before_reading_further() {
    let zip = [0x50, 0x4B, 0x03, 0x04];
    assert_eq!(is_archive(6, &zip), Ok(true));
}

#[test]
fn signature_table_order() {
    let s = signatures();
    assert_eq!(s.len(), 9);
    assert_eq!(s[0].archive_type, ArchiveType::Zip);
    assert_eq!(s[4].archive_type, ArchiveType::Gzip);
    assert_eq!(s[4].magic, vec![0x1F, 0x8B]);
    assert_eq!(s[8].archive_type, ArchiveType::Tar);
    assert_eq!(s[8].offset, 257);
}
