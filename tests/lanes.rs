use pacmanager::lanes::{
    DisplayAction, Operation, PackageDisplay, PackageViewMessage, SearchAction, SearchMessage,
    SearchWidget,
};
use pacmanager::operation::Outcome;
use pacmanager::package::Package;
use pacmanager::query::{FilterState, SorterState};
use pacmanager::server::Server;

#[test]
fn scenario_empty_name_install_fails_without_command() {
    match Package::install_or_update(String::new()) {
        Err(o) => assert!(!o.success),
        Ok(_) => panic!("a command was issued for an empty name"),
    }
    assert!(Package::uninstall(String::new()).is_err());
}

#[test]
fn install_and_uninstall_commands() {
    let c = Package::install_or_update("vim".to_string()).ok().unwrap();
    assert_eq!(c.program, "pkexec");
    assert_eq!(c.args, vec!["pacman", "-Syy", "vim", "--noconfirm"]);
    let c = Package::uninstall("vim".to_string()).ok().unwrap();
    assert_eq!(c.args, vec!["pacman", "-R", "vim", "--noconfirm"]);
    let c = Server::system_update();
    assert_eq!(c.program, "pkexec");
    assert_eq!(c.args, vec!["pacman", "-Syu", "--noconfirm"]);
}

#[test]
fn outcome_from_stderr() {
    let ok = Outcome::from_stderr(String::new());
    assert!(ok.success);
    let bad = Outcome::from_stderr("error: target not found".to_string());
    assert!(!bad.success);
    assert_eq!(bad.message, "error: target not found");
}

#[test]
fn scenario_newer_search_supersedes_older() {
    let mut w = SearchWidget::new();
    w.update(SearchMessage::SearchChanged("a".to_string()));
    let first = match w.update(SearchMessage::SearchSubmited) {
        SearchAction::Start { ticket, cancel } => {
            assert_eq!(cancel, None);
            ticket
        }
        SearchAction::Nothing => panic!("no search started"),
    };
    w.update(SearchMessage::SearchChanged("ab".to_string()));
    let second = match w.update(SearchMessage::SearchSubmited) {
        SearchAction::Start { ticket, cancel } => {
            assert_eq!(cancel, Some(first));
            ticket
        }
        SearchAction::Nothing => panic!("no search started"),
    };
    assert_ne!(first, second);
    w.update(SearchMessage::SearchFinished(second, vec!["ab-result".to_string()]));
    assert!(!w.loading);
    assert_eq!(w.packages, vec!["ab-result".to_string()]);
    w.update(SearchMessage::SearchFinished(first, vec!["a-result".to_string()]));
    assert_eq!(w.packages, vec!["ab-result".to_string()]);
    assert!(!w.loading);
}

#[test]
fn stale_result_is_discarded_while_running() {
    let mut w = SearchWidget::new();
    let first = match w.update(SearchMessage::SearchSubmited) {
        SearchAction::Start { ticket, .. } => ticket,
        SearchAction::Nothing => panic!("no search started"),
    };
    w.update(SearchMessage::SearchSubmited);
    w.update(SearchMessage::SearchFinished(first, vec!["old".to_string()]));
    assert!(w.loading);
    assert!(w.packages.is_empty());
}

#[test]
fn filter_and_sorter_changes_resubmit() {
    let mut w = SearchWidget::new();
    match w.update(SearchMessage::FilterChanged(FilterState::Installed)) {
        SearchAction::Start { .. } => {}
        SearchAction::Nothing => panic!("no search started"),
    }
    assert_eq!(w.filter, FilterState::Installed);
    assert!(w.loading);
    match w.update(SearchMessage::SorterChanged(SorterState::InstallDate)) {
        SearchAction::Start { cancel, .. } => assert!(cancel.is_some()),
        SearchAction::Nothing => panic!("no search started"),
    }
    assert_eq!(w.sorter, SorterState::InstallDate);
}

#[test]
fn pages_wrap_around() {
    let mut w = SearchWidget::new();
    let t = match w.update(SearchMessage::SearchSubmited) {
        SearchAction::Start { ticket, .. } => ticket,
        SearchAction::Nothing => panic!("no search started"),
    };
    let names: Vec<String> = (0..250).map(|i| format!("p{}", i)).collect();
    w.update(SearchMessage::SearchFinished(t, names));
    assert_eq!(w.get_total_pages(), 2);
    w.update(SearchMessage::PageUp);
    w.update(SearchMessage::PageUp);
    assert_eq!(w.page, 2);
    w.update(SearchMessage::PageUp);
    assert_eq!(w.page, 0);
    w.update(SearchMessage::PageDown);
    assert_eq!(w.page, 2);
}

#[test]
fn operation_lane_sets_and_clears_loading() {
    let mut d = PackageDisplay::new();
    match d.update(PackageViewMessage::Operate(Operation::Install)) {
        DisplayAction::Report { outcome, sync } => {
            assert!(!outcome.success);
            assert!(sync.is_none());
        }
        _ => panic!("an operation without a package must fail"),
    }
    assert!(!d.loading);
    d.update(PackageViewMessage::Selected("vim".to_string()));
    match d.update(PackageViewMessage::Operate(Operation::Uninstall)) {
        DisplayAction::Run { command, package } => {
            assert_eq!(package, "vim");
            assert_eq!(command.args, vec!["pacman", "-R", "vim", "--noconfirm"]);
        }
        _ => panic!("no command"),
    }
    assert!(d.loading);
    match d.update(PackageViewMessage::Finished("vim".to_string(), "error: failed".to_string())) {
        DisplayAction::Report { outcome, sync } => {
            assert!(!outcome.success);
            assert_eq!(outcome.message, "error: failed");
            assert_eq!(sync, Some("vim".to_string()));
        }
        _ => panic!("no report"),
    }
    assert!(!d.loading);
    match d.update(PackageViewMessage::SystemUpdate) {
        DisplayAction::RunSystemUpdate(c) => assert_eq!(c.args, vec!["pacman", "-Syu", "--noconfirm"]),
        _ => panic!("no system update"),
    }
    assert!(d.loading);
    match d.update(PackageViewMessage::FinishedSystemUpdate(String::new())) {
        DisplayAction::Report { outcome, sync } => {
            assert!(outcome.success);
            assert!(sync.is_none());
        }
        _ => panic!("no report"),
    }
    assert!(!d.loading);
}
