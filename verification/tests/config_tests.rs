use raw::config::{
    binary_repo_url_of, checksum_dir_of, community_repo_of, conf_complete_of, is_binary_mode_of,
    is_source_mode_of, local_repo_root_of, parse_conf_of, repo_url_of, tree_root_of,
    uses_local_packages_of,
};
use raw::error::RawError;

const BINARY: &str = "mode=binary\n\nsource=/home/alexis/Onyx\n\nurl=https://remoterepo\n\ncommunity=link\n\nlocal=true\n";
const SOURCE: &str = "mode=source\n\nroot=/home/alexis/Onyx\n\ncommunity=link\n";

#[test]
fn binary_configuration() {
    assert!(conf_complete_of(BINARY));
    assert_eq!(
        parse_conf_of(BINARY),
        Ok(("binary".to_string(), "/home/alexis/Onyx".to_string(), "https://remoterepo".to_string()))
    );
    assert!(is_binary_mode_of(BINARY));
    assert!(!is_source_mode_of(BINARY));
}

#[test]
fn source_configuration() {
    assert!(conf_complete_of(SOURCE));
    assert_eq!(parse_conf_of(SOURCE), Ok(("source".to_string(), "/home/alexis/Onyx".to_string(), String::new())));
}

#[test]
fn no_mode_is_an_error() {
    assert!(conf_complete_of("root=/x\n"));
    assert_eq!(parse_conf_of("root=/x\n"), Err(RawError::ModeNotSpecified));
}

#[test]
fn incomplete_configurations() {
    assert!(!conf_complete_of("mode=binary\nurl=x\n"));
    assert!(!conf_complete_of("mode=source\n"));
}

#[test]
fn repository_urls() {
    assert_eq!(repo_url_of("url=https://r/\n"), Ok("https://r".to_string()));
    assert_eq!(repo_url_of("url=https://r\n"), Ok("https://r".to_string()));
    assert_eq!(repo_url_of("mode=binary\n"), Err(RawError::UrlNotSet));
    assert_eq!(binary_repo_url_of(BINARY), Ok("https://remoterepo".to_string()));
    assert_eq!(binary_repo_url_of(SOURCE), Err(RawError::NotBinaryMode));
    assert_eq!(binary_repo_url_of("mode=binary\n"), Err(RawError::UrlNotSet));
}

#[test]
fn community_repository() {
    assert_eq!(community_repo_of("community=https://git.x/aur/\n", "htop"), Ok("https://git.x/aur/htop".to_string()));
    assert_eq!(community_repo_of(SOURCE, "htop"), Ok("link/htop".to_string()));
    assert_eq!(community_repo_of("mode=source\n", "htop"), Err(RawError::CommunityNotSet));
}

#[test]
fn checksum_directory() {
    assert_eq!(checksum_dir_of(BINARY), Ok("/home/alexis/Onyx".to_string()));
    assert_eq!(checksum_dir_of(SOURCE), Ok("/home/alexis/Onyx".to_string()));
    assert_eq!(checksum_dir_of("mode=binary\n"), Err(RawError::NoSourceOrRoot));
}

#[test]
fn local_repository() {
    assert_eq!(local_repo_root_of("local=true\nroot=/srv\n"), Ok(Some("/srv".to_string())));
    assert_eq!(local_repo_root_of("local=false\nroot=/srv\n"), Ok(None));
    assert_eq!(local_repo_root_of("mode=binary\n"), Ok(None));
    assert_eq!(local_repo_root_of("local=true\n"), Err(RawError::RootNotSet));
    assert_eq!(local_repo_root_of("# local=true\n"), Err(RawError::LocalLineMissing));
    assert!(uses_local_packages_of(BINARY));
    assert!(!uses_local_packages_of(SOURCE));
    assert_eq!(tree_root_of(SOURCE), Ok("/home/alexis/Onyx".to_string()));
    assert_eq!(tree_root_of(BINARY), Err(RawError::RootNotSet));
}
