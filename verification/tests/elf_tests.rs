use raw::elf::{needed_libraries, needed_or_none};

#[test]
fn non_elf_needs_nothing() {
    assert!(needed_libraries(b"#!/bin/sh\n").is_empty());
    assert!(needed_libraries(&[]).is_empty());
}

#[test]
fn parsed_libraries_are_kept() {
    let v = vec!["libc.so.6".to_string()];
    assert_eq!(needed_or_none(Some(v.clone())), v);
    assert!(needed_or_none(None).is_empty());
}
