use vyos_crowdsec_bouncer::text::is_white_space;
use vyos_crowdsec_bouncer::version::{app_version, read_version_override};

#[test]
fn the_first_entry_of_the_file_counts() {
    let read = |text: &str| read_version_override(text);
    assert_eq!(read("# release\n\n \t 1.2.3 \r\n4.5.6\n"), Some(String::from("1.2.3")));
    assert_eq!(read("  # comment\n1.0"), Some(String::from("1.0")));
    assert_eq!(read("\u{3000}v\u{a0}1\u{2003}"), Some(String::from("v\u{a0}1")));
    assert_eq!(read("# only\n   \n#comments"), None);
    assert_eq!(read(""), None);
    assert_eq!(read("\n\n"), None);
}

#[test]
fn the_package_version_is_the_fallback() {
    assert_eq!(app_version(Some("2.0\n"), "1.0"), "2.0");
    assert_eq!(app_version(Some("#\n"), "1.0"), "1.0");
    assert_eq!(app_version(None, "1.0"), "1.0");
}

#[test]
fn white_space_is_that_of_unicode() {
    for n in 0..=0x10ffff {
        if let Some(c) = char::from_u32(n) {
            assert_eq!(is_white_space(c), c.is_whitespace(), "{n:x}");
        }
    }
}
