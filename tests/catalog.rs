use pacmanager::lanes::SearchWidget;
use pacmanager::query::{FilterState, SorterState};
use pacmanager::server::Server;

fn installed_of(s: &Server, name: &str) -> Option<String> {
    s.get_package(name.to_string()).and_then(|p| p.get_property("Installed".to_string()))
}

fn dump(names: &[&str]) -> String {
    let mut out = String::new();
    for n in names {
        out.push_str(&format!("Repository      : core\nName            : {}\nVersion         : 1.0-1\n\n", n));
    }
    out
}

#[test]
fn test_server() {
    let names = [
        "linux", "kseexpr", "bash", "coreutils", "glibc", "pacman", "vim", "git", "sudo", "grep",
        "sed", "gawk",
    ];
    let available = dump(&names);
    let installed = dump(&["linux", "bash"]);
    let server = Server::intialized(&available, &installed, "linux 6.1-1\nbash 5.2-1\n");
    assert!(server.len() > 10);
    assert!(server.get_package("linux".to_string()).is_some());
    let kseexpr = server.get_package("kseexpr".to_string()).unwrap();
    assert!(kseexpr.get_property("Installed".to_string()).unwrap() == "False".to_string());
}

#[test]
fn scenario_vim_is_found_installed() {
    let server = Server::intialized("Name: vim\nVersion: 9.0", "Name: vim", "vim 9.0-1\n");
    let mut w = SearchWidget::new();
    w.search = "vim".to_string();
    let found = w.handle_search(&server, "extra/vim 9.0-1 [installed]\n    Vi Improved\n");
    assert_eq!(found, vec!["vim".to_string()]);
    let vim = server.get_package(found[0].clone()).unwrap();
    assert_eq!(vim.get_property("Installed".to_string()), Some("True".to_string()));
    assert_eq!(vim.get_property("Version".to_string()), Some("9.0".to_string()));
}

#[test]
fn later_record_replaces_earlier_whole() {
    let mut s = Server::new();
    s.populate("Name: a\nDescription: first\n", "Name: a\nVersion: 2\n");
    let a = s.get_package("a".to_string()).unwrap();
    assert_eq!(a.get_property("Description".to_string()), None);
    assert_eq!(a.get_property("Version".to_string()), Some("2".to_string()));
    assert_eq!(s.len(), 1);
}

#[test]
fn records_without_name_are_not_indexed() {
    let mut s = Server::new();
    s.populate("Version: 1\n\nName:\nVersion: 2\n\n\n\nName: b\n", "");
    assert_eq!(s.len(), 1);
    assert!(s.get_package("b".to_string()).is_some());
    assert!(s.get_package("".to_string()).is_none());
}

#[test]
fn rebuilding_twice_gives_equal_catalogs() {
    let available = dump(&["a", "b", "c"]);
    let installed = dump(&["b"]);
    let mut first = Server::new();
    first.populate(&available, &installed);
    let mut second = Server::new();
    second.populate("Name: stale\n", "");
    second.populate(&available, &installed);
    assert_eq!(first.len(), second.len());
    for n in ["a", "b", "c"] {
        for k in ["Name", "Repository", "Version"] {
            let x = first.get_package(n.to_string()).unwrap().get_property(k.to_string());
            let y = second.get_package(n.to_string()).unwrap().get_property(k.to_string());
            assert_eq!(x, y);
        }
    }
    assert!(second.get_package("stale".to_string()).is_none());
}

#[test]
fn sync_sets_every_installed_flag() {
    let mut s = Server::new();
    s.populate(&dump(&["a", "b", "c"]), "");
    s.check_installed("a 1.0-1\n  c 2.0-1\nzzz 1\n\n");
    assert_eq!(installed_of(&s, "a"), Some("True".to_string()));
    assert_eq!(installed_of(&s, "b"), Some("False".to_string()));
    assert_eq!(installed_of(&s, "c"), Some("True".to_string()));
    assert!(s.get_package("zzz".to_string()).is_none());
}

#[test]
fn sync_one_updates_a_single_record() {
    let mut s = Server::intialized(&dump(&["a", "b"]), "", "a 1\n");
    s.sync_one("a", false);
    s.sync_one("missing", true);
    assert_eq!(installed_of(&s, "a"), Some("False".to_string()));
    assert_eq!(installed_of(&s, "b"), Some("False".to_string()));
    assert_eq!(s.len(), 2);
}

#[test]
fn get_package_trims_the_name() {
    let s = Server::intialized(&dump(&["a"]), "", "");
    assert!(s.get_package("  a\t".to_string()).is_some());
}

#[test]
fn search_output_names_in_catalog() {
    let s = Server::intialized(&dump(&["linux", "vim"]), "", "");
    let out = "core/linux 6.1-1 (base)\n    The Linux kernel and modules\nextra/vim 9.0-1\n    Vi/Improved editor\nextra/absent 1.0\n";
    assert_eq!(s.search(out), vec!["linux".to_string(), "vim".to_string()]);
    assert_eq!(s.search(""), Vec::<String>::new());
}

fn sample() -> Server {
    let available = "Name: small\nInstalled Size : 10.00 KiB\nInstall Date : Mon 01 Jan 2024 10:00:00 AM UTC\n\n\
Name: big\nInstalled Size : 2.00 MiB\nInstall Date : Tue 02 Jan 2024 10:00:00 AM UTC\n\n\
Name: none\n\n\
Name: mid\nInstalled Size : 512.00 KiB\nInstall Date : junk\n";
    Server::intialized(available, "", "small 1\nnone 1\n")
}

const OUT: &str = "x/small 1\nx/big 1\nx/none 1\nx/mid 1\n";

fn run(filter: FilterState, sorter: SorterState) -> Vec<String> {
    let mut w = SearchWidget::new();
    w.filter = filter;
    w.sorter = sorter;
    w.handle_search(&sample(), OUT)
}

#[test]
fn filters_keep_matching_records() {
    assert_eq!(run(FilterState::All, SorterState::Default), vec!["small", "big", "none", "mid"]);
    assert_eq!(run(FilterState::Installed, SorterState::Default), vec!["small", "none"]);
    assert_eq!(run(FilterState::NotInstalled, SorterState::Default), vec!["big", "mid"]);
}

#[test]
fn sort_by_size_is_descending() {
    assert_eq!(run(FilterState::All, SorterState::InstallSize), vec!["big", "mid", "small", "none"]);
}

#[test]
fn sort_by_date_puts_unreadable_last() {
    assert_eq!(run(FilterState::All, SorterState::InstallDate), vec!["big", "small", "none", "mid"]);
    assert_eq!(run(FilterState::NotInstalled, SorterState::InstallDate), vec!["big", "mid"]);
}

#[test]
fn equal_keys_keep_their_order() {
    let s = Server::intialized("Name: p\n\nName: q\n\nName: r\n", "", "");
    let mut w = SearchWidget::new();
    w.sorter = SorterState::InstallSize;
    assert_eq!(w.handle_search(&s, "a/q 1\na/r 1\na/p 1\n"), vec!["q", "r", "p"]);
}
