use raw::error::RawError;
use raw::meta::{
    installed_version_release, meta_dependencies_of, meta_field_of, package_info,
    render_meta_text, required_in_meta_of, with_rundepends_of, Meta,
};

fn sample() -> Meta {
    Meta {
        name: "htop".to_string(),
        version: "3.5.1".to_string(),
        release: "1".to_string(),
        collection: "extra".to_string(),
        description: "A process viewer".to_string(),
        packager: "alexis".to_string(),
        depends: "ncurses glibc".to_string(),
    }
}

#[test]
fn meta_text_layout() {
    assert_eq!(
        render_meta_text(&sample()),
        "Nhtop\nV3.5.1\nr1\ncextra\nDA process viewer\nPalexis\nRncurses glibc\n"
    );
}

#[test]
fn meta_round_trip_on_values() {
    let t = render_meta_text(&sample());
    assert_eq!(meta_field_of(&t, 'N'), Some("htop".to_string()));
    assert_eq!(meta_field_of(&t, 'V'), Some("3.5.1".to_string()));
    assert_eq!(meta_field_of(&t, 'r'), Some("1".to_string()));
    assert_eq!(meta_field_of(&t, 'c'), Some("extra".to_string()));
    assert_eq!(meta_field_of(&t, 'D'), Some("A process viewer".to_string()));
    assert_eq!(meta_field_of(&t, 'P'), Some("alexis".to_string()));
    assert_eq!(meta_field_of(&t, 'R'), Some("ncurses glibc".to_string()));
}

#[test]
fn built_meta_gives_back_version_and_release() {
    let t = render_meta_text(&sample());
    let ok = Ok(("3.5.1".to_string(), "1".to_string()));
    assert_eq!(installed_version_release(&t), ok);
    let with_libs = with_rundepends_of(&t, &["libz".to_string(), "libm".to_string()]);
    assert_eq!(installed_version_release(&with_libs), ok);
    let no_deps = Meta { depends: String::new(), ..sample() };
    let with_libs = with_rundepends_of(&render_meta_text(&no_deps), &["libz".to_string()]);
    assert_eq!(installed_version_release(&with_libs), ok);
}

#[test]
fn carriage_returns_inside_fields_are_kept() {
    let m = Meta {
        version: "3.5\r1".to_string(),
        description: "ends with a return\r".to_string(),
        ..sample()
    };
    let t = render_meta_text(&m);
    let ok = Ok(("3.5\r1".to_string(), "1".to_string()));
    assert_eq!(installed_version_release(&t), ok);
    assert_eq!(installed_version_release(&with_rundepends_of(&t, &["libz".to_string()])), ok);
}

#[test]
fn info_reads_fields() {
    let info = package_info(&render_meta_text(&sample())).unwrap();
    assert_eq!(info.name, "htop");
    assert_eq!(info.version, "3.5.1");
    assert_eq!(info.description, "A process viewer");
    assert_eq!(info.packager, "alexis");
    assert_eq!(info.collection, "extra");
}

#[test]
fn info_reports_first_missing_field() {
    assert_eq!(package_info("Nhtop\nV1\n"), Err(RawError::MetaFieldMissing('D')));
    assert_eq!(package_info("V1\n"), Err(RawError::MetaFieldMissing('N')));
    assert_eq!(package_info("Nx\nV1\nDd\nPp\n"), Err(RawError::MetaFieldMissing('c')));
}

#[test]
fn installed_version_and_release() {
    assert_eq!(installed_version_release("Nx\nV2.0\nr3\n"), Ok(("2.0".to_string(), "3".to_string())));
    assert_eq!(installed_version_release("Nx\nr3\n"), Err(RawError::MetaFieldMissing('V')));
    assert_eq!(installed_version_release("V2\n"), Err(RawError::MetaFieldMissing('r')));
}

#[test]
fn crlf_lines_are_read_without_carriage_return() {
    assert_eq!(meta_field_of("Nx\r\nV9\r\n", 'V'), Some("9".to_string()));
}

#[test]
fn dependencies_of_first_r_line() {
    assert_eq!(meta_dependencies_of("Nx\nR a  b\tc\n"), Some(vec!["a".to_string(), "b".to_string(), "c".to_string()]));
    assert_eq!(meta_dependencies_of("Nx\nR\n"), Some(vec![]));
    assert_eq!(meta_dependencies_of("Nx\n"), None);
}

#[test]
fn required_packages_of_every_r_line() {
    let r = required_in_meta_of("Nx\nRRa b\nVx\nRc\n");
    let r: Vec<String> = r.into_iter().map(|v| v.into_iter().collect()).collect();
    assert_eq!(r, vec!["a", "b", "c"]);
}

#[test]
fn rundepends_are_appended() {
    let t = "Nhtop\nV1\nRncurses\n";
    assert_eq!(
        with_rundepends_of(t, &["glibc".to_string(), "libcap".to_string()]),
        "Nhtop\nV1\nRncurses glibc libcap\n"
    );
}

#[test]
fn rundepends_without_previous_line() {
    assert_eq!(with_rundepends_of("Nhtop\nV1\nR\n", &["glibc".to_string()]), "Nhtop\nV1\nRglibc\n");
    assert_eq!(with_rundepends_of("Nhtop\n", &[]), "Nhtop\nR\n");
}
