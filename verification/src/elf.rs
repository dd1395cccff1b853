//! The shared libraries an ELF binary needs.
use vstd::prelude::*;

use crate::text::string_views;

verus! {

/// The `DT_NEEDED` libraries of an ELF file as `goblin` reads them, in its
/// order; `None` when `goblin` cannot parse `bytes` as ELF.
pub uninterp spec fn elf_needed(bytes: Seq<u8>) -> Option<Seq<Seq<char>>>;

/// `goblin::elf::Elf::parse` followed by its `libraries` field: the result
/// is named `elf_needed` of the bytes; what a parse gives is left to it.
#[verifier::external_body]
fn parse_elf_needed(bytes: &[u8]) -> (r: Option<Vec<String>>)
    ensures
        match r {
            Some(v) => elf_needed(bytes@) == Some(string_views(v@)),
            None => elf_needed(bytes@) is None,
        },
{
    match goblin::elf::Elf::parse(bytes) {
        Ok(elf) => Some(elf.libraries.iter().map(|s| s.to_string()).collect()),
        Err(_) => None,
    }
}

/// The libraries a file needs, given what the ELF parser made of it:
/// none when it is not an ELF file.
pub fn needed_or_none(parsed: Option<Vec<String>>) -> (r: Vec<String>)
    ensures
        match parsed {
            Some(v) => r@ == v@,
            None => r@.len() == 0,
        },
{
    match parsed {
        Some(v) => v,
        None => Vec::new(),
    }
}

/// The libraries an ELF file needs; none for a file that is not ELF.
pub fn needed_libraries(bytes: &[u8]) -> (r: Vec<String>)
    ensures
        match elf_needed(bytes@) {
            Some(libs) => string_views(r@) == libs,
            None => r@.len() == 0,
        },
{
    needed_or_none(parse_elf_needed(bytes))
}

} // verus!
