use pacmanager::date::{parse_install_date, InstallDate};
use pacmanager::package::Package;
use pacmanager::size::parse_size;

fn lines(v: &[&str]) -> Vec<String> {
    v.iter().map(|s| s.to_string()).collect()
}

fn prop(p: &Package, k: &str) -> Option<String> {
    p.get_property(k.to_string())
}

#[test]
fn parse_joins_continuation_lines() {
    let p = Package::from_raw(lines(&["Name: foo", "Description: a long", "line"]));
    assert_eq!(prop(&p, "Name"), Some("foo".to_string()));
    assert_eq!(prop(&p, "Description"), Some("a longline".to_string()));
}

#[test]
fn parse_keeps_the_last_property() {
    let p = Package::from_raw(lines(&["Name: foo", "Version: 1.0"]));
    assert_eq!(prop(&p, "Version"), Some("1.0".to_string()));
}

#[test]
fn parse_splits_at_first_colon_and_trims() {
    let p = Package::from_raw(lines(&["  Install Date :  Mon 15 Jan 2024 10:30:00 AM CET  "]));
    assert_eq!(prop(&p, "Install Date"), Some("Mon 15 Jan 2024 10:30:00 AM CET".to_string()));
}

#[test]
fn parse_drops_leading_continuation_and_empty_names() {
    let p = Package::from_raw(lines(&["stray", ": nameless", "more", "Name: bar"]));
    assert_eq!(prop(&p, "Name"), Some("bar".to_string()));
    assert_eq!(prop(&p, ""), None);
}

#[test]
fn parse_later_duplicate_wins() {
    let p = Package::from_raw(lines(&["Name: a", "Name: b"]));
    assert_eq!(prop(&p, "Name"), Some("b".to_string()));
}

#[test]
fn parse_trims_unicode_whitespace() {
    let p = Package::from_raw(lines(&["Name:\u{3000}baz\u{a0}", "\tqux "]));
    assert_eq!(prop(&p, "Name"), Some("bazqux".to_string()));
}

#[test]
fn parse_empty_block_has_no_properties() {
    let p = Package::from_raw(vec![]);
    assert_eq!(prop(&p, "Name"), None);
}

#[test]
fn set_property_replaces_value() {
    let mut p = Package::new();
    p.set_property("Installed".to_string(), "False".to_string());
    p.set_property("Installed".to_string(), "True".to_string());
    assert_eq!(prop(&p, "Installed"), Some("True".to_string()));
    p.sync_installed(false);
    assert_eq!(prop(&p, "Installed"), Some("False".to_string()));
}

#[test]
fn size_units_are_normalised_to_bytes() {
    assert_eq!(parse_size("12.50 MiB"), 13_107_200);
    assert_eq!(parse_size("1.5 KiB"), 1536);
    assert_eq!(parse_size("100 B"), 100);
    assert_eq!(parse_size("7"), 7);
    assert_eq!(parse_size("2.00 GiB"), 2_147_483_648);
    assert_eq!(parse_size("1 TiB"), 1_099_511_627_776);
    assert_eq!(parse_size("0.33 KiB"), 337);
}

#[test]
fn unreadable_sizes_are_zero() {
    assert_eq!(parse_size(""), 0);
    assert_eq!(parse_size("   "), 0);
    assert_eq!(parse_size("abc KiB"), 0);
    assert_eq!(parse_size("3 XB"), 0);
    assert_eq!(parse_size("1,5 MiB"), 0);
    assert_eq!(parse_size(".5 KiB"), 0);
    assert_eq!(parse_size("5. KiB"), 0);
    assert_eq!(parse_size("1234567890123456789 B"), 0);
}

#[test]
fn package_size_comes_from_installed_size() {
    let p = Package::from_raw(lines(&["Name: x", "Installed Size  : 3.00 MiB"]));
    assert_eq!(p.get_install_size(), 3 * 1024 * 1024);
    let q = Package::from_raw(lines(&["Name: y"]));
    assert_eq!(q.get_install_size(), 0);
}

#[test]
fn install_date_is_read() {
    let d = parse_install_date("Mon 15 Jan 2024 10:30:05 PM CET");
    assert_eq!(
        d,
        Some(InstallDate { year: 2024, month: 1, day: 15, hour: 22, minute: 30, second: 5 })
    );
}

#[test]
fn unreadable_install_dates_are_none() {
    assert_eq!(parse_install_date(""), None);
    assert_eq!(parse_install_date("   "), None);
    assert_eq!(parse_install_date("ab"), None);
    assert_eq!(parse_install_date("yesterday afternoon"), None);
    assert_eq!(parse_install_date("Mon 15 Jan 2024 10:30:05 PM"), None);
}

#[test]
fn package_date_comes_from_install_date() {
    let p = Package::from_raw(lines(&["Name: x", "Install Date : Tue 02 Jul 2024 09:05:00 AM UTC"]));
    assert_eq!(
        p.get_installed_date(),
        Some(InstallDate { year: 2024, month: 7, day: 2, hour: 9, minute: 5, second: 0 })
    );
}
