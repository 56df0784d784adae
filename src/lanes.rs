//! The search lane and the operation lane, as state machines: each message
//! gives the next state and the action for the caller to perform.

use vstd::prelude::*;

use crate::operation::{missing_name_message, runs_pacman, ExternalCommand, Outcome};
use crate::package::Package;
use crate::query::{
    filter_names, kept, passes, sort_key, sort_names, FilterState, SorterState,
};
use crate::server::{found_names, Server};
use crate::text::{lines_of, string_views};

verus! {

broadcast use vstd::seq_lib::group_to_multiset_ensures;

/// How many results a page shows.
pub const PAGE_SIZE: usize = 100;

/// The state of the search lane.
#[derive(Clone)]
pub struct SearchWidget {
    /// The query text.
    pub search: String,
    /// The names of the current results.
    pub packages: Vec<String>,
    /// A search is in flight.
    pub loading: bool,
    /// The page of results shown.
    pub page: i32,
    pub filter: FilterState,
    pub sorter: SorterState,
    /// The ticket that the next search will carry.
    pub next_ticket: u64,
    /// The ticket of the search in flight, whose result alone is taken.
    pub running: Option<u64>,
}

/// A message to the search lane.
pub enum SearchMessage {
    SearchChanged(String),
    SearchSubmited,
    /// A search finished: its ticket and the names it found.
    SearchFinished(u64, Vec<String>),
    FilterChanged(FilterState),
    SorterChanged(SorterState),
    PageUp,
    PageDown,
}

/// What the caller does after a message to the search lane.
pub enum SearchAction {
    Nothing,
    /// Cancel the search of ticket `cancel`, if any, then search with the
    /// lane's query, filter and sorter, and report under `ticket`.
    Start { ticket: u64, cancel: Option<u64> },
}

/// The number of the last page for `len` results.
pub open spec fn total_pages(len: nat) -> int {
    let p = len / (PAGE_SIZE as nat);
    if p > i32::MAX {
        i32::MAX as int
    } else {
        p as int
    }
}

/// The ticket after `t`.
pub open spec fn following(t: u64) -> u64 {
    if t == u64::MAX {
        0
    } else {
        (t + 1) as u64
    }
}

/// The names that a search yields over `catalog` from the package manager's
/// search output: the catalog names found there, kept by the filter.
pub open spec fn search_result(
    catalog: crate::server::CatalogView,
    search_output: Seq<char>,
    filter: FilterState,
) -> Seq<Seq<char>> {
    kept(catalog, found_names(catalog, lines_of(search_output)), filter)
}

impl SearchWidget {
    /// An idle lane with an empty query.
    pub fn new() -> (r: SearchWidget)
        ensures
            r.search@.len() == 0,
            r.packages@.len() == 0,
            !r.loading,
            r.page == 0,
            r.filter == FilterState::All,
            r.sorter == SorterState::Default,
            r.running is None,
            r.next_ticket == 0,
    {
        SearchWidget {
            search: String::new(),
            packages: Vec::new(),
            loading: false,
            page: 0,
            filter: FilterState::All,
            sorter: SorterState::Default,
            next_ticket: 0,
            running: None,
        }
    }

    /// The loading flag is set exactly while a search is in flight.
    pub open spec fn consistent(&self) -> bool {
        self.loading == (self.running is Some)
    }

    /// The number of the last page of results.
    pub fn get_total_pages(&self) -> (r: i32)
        ensures
            r == total_pages(self.packages@.len()),
    {
        let p = self.packages.len() / PAGE_SIZE;
        if p > i32::MAX as usize {
            i32::MAX
        } else {
            p as i32
        }
    }

    /// Starts a search, superseding the one in flight.
    fn submit(&mut self) -> (r: SearchAction)
        ensures
            final(self).search == old(self).search,
            final(self).filter == old(self).filter,
            final(self).sorter == old(self).sorter,
            final(self).packages@.len() == 0,
            final(self).loading,
            final(self).page == 0,
            final(self).running == Some(old(self).next_ticket),
            final(self).next_ticket == following(old(self).next_ticket),
            r == (SearchAction::Start { ticket: old(self).next_ticket, cancel: old(self).running }),
    {
        let ticket = self.next_ticket;
        let cancel = self.running;
        self.next_ticket = if ticket == u64::MAX {
            0
        } else {
            ticket + 1
        };
        self.running = Some(ticket);
        self.loading = true;
        self.packages = Vec::new();
        self.page = 0;
        SearchAction::Start { ticket, cancel }
    }

    /// Takes one message. A submission, or a change of filter or sorter,
    /// starts a search under a fresh ticket and cancels the one in flight;
    /// a finished search is taken only if its ticket is the one in flight,
    /// and is otherwise discarded with no change at all.
    pub fn update(&mut self, message: SearchMessage) -> (r: SearchAction)
        ensures
            old(self).consistent() ==> final(self).consistent(),
            match message {
                SearchMessage::SearchChanged(s) => final(self).search == s && final(self).packages
                    == old(self).packages && final(self).loading == old(self).loading
                    && final(self).page == old(self).page && final(self).filter == old(self).filter
                    && final(self).sorter == old(self).sorter && final(self).next_ticket == old(
                    self,
                ).next_ticket && final(self).running == old(self).running && r
                    == SearchAction::Nothing,
                SearchMessage::SearchFinished(ticket, names) => if old(self).running == Some(
                    ticket,
                ) {
                    final(self).packages == names && !final(self).loading && final(self).running
                        is None && final(self).search == old(self).search && final(self).page
                        == old(self).page && final(self).filter == old(self).filter
                        && final(self).sorter == old(self).sorter && final(self).next_ticket
                        == old(self).next_ticket && r == SearchAction::Nothing
                } else {
                    *final(self) == *old(self) && r == SearchAction::Nothing
                },
                SearchMessage::PageUp => final(self).page == (if old(self).page + 1 > total_pages(
                    old(self).packages@.len(),
                ) {
                    0
                } else {
                    old(self).page + 1
                }) && final(self).packages == old(self).packages && final(self).loading == old(
                    self,
                ).loading && final(self).running == old(self).running && final(self).next_ticket
                    == old(self).next_ticket && final(self).search == old(self).search
                    && final(self).filter == old(self).filter && final(self).sorter == old(
                    self,
                ).sorter && r == SearchAction::Nothing,
                SearchMessage::PageDown => final(self).page == (if old(self).page - 1 < 0 {
                    total_pages(old(self).packages@.len())
                } else {
                    old(self).page - 1
                }) && final(self).packages == old(self).packages && final(self).loading == old(
                    self,
                ).loading && final(self).running == old(self).running && final(self).next_ticket
                    == old(self).next_ticket && final(self).search == old(self).search
                    && final(self).filter == old(self).filter && final(self).sorter == old(
                    self,
                ).sorter && r == SearchAction::Nothing,
                _ => {
                    &&& final(self).search == old(self).search
                    &&& final(self).filter == (match message {
                        SearchMessage::FilterChanged(f) => f,
                        _ => old(self).filter,
                    })
                    &&& final(self).sorter == (match message {
                        SearchMessage::SorterChanged(s) => s,
                        _ => old(self).sorter,
                    })
                    &&& final(self).packages@.len() == 0
                    &&& final(self).loading
                    &&& final(self).page == 0
                    &&& final(self).running == Some(old(self).next_ticket)
                    &&& final(self).next_ticket == following(old(self).next_ticket)
                    &&& r == (SearchAction::Start {
                        ticket: old(self).next_ticket,
                        cancel: old(self).running,
                    })
                },
            },
    {
        match message {
            SearchMessage::SearchChanged(s) => {
                self.search = s;
                SearchAction::Nothing
            },
            SearchMessage::SearchSubmited => self.submit(),
            SearchMessage::SearchFinished(ticket, names) => {
                if self.running == Some(ticket) {
                    self.packages = names;
                    self.loading = false;
                    self.running = None;
                }
                SearchAction::Nothing
            },
            SearchMessage::FilterChanged(f) => {
                self.filter = f;
                self.submit()
            },
            SearchMessage::SorterChanged(s) => {
                self.sorter = s;
                self.submit()
            },
            SearchMessage::PageUp => {
                let total = self.get_total_pages();
                if self.page as i64 + 1 > total as i64 {
                    self.page = 0;
                } else {
                    self.page = self.page + 1;
                }
                SearchAction::Nothing
            },
            SearchMessage::PageDown => {
                if (self.page as i64) - 1 < 0 {
                    self.page = self.get_total_pages();
                } else {
                    self.page = self.page - 1;
                }
                SearchAction::Nothing
            },
        }
    }

    /// Runs the lane's search over a snapshot of the catalog, given what the
    /// package manager's search printed: the catalog names found there, kept
    /// by the filter, ordered by the sorter.
    pub fn handle_search(&self, catalog: &Server, search_output: &str) -> (r: Vec<String>)
        requires
            catalog.wf(),
        ensures
            string_views(r@).to_multiset() == search_result(
                catalog@,
                search_output@,
                self.filter,
            ).to_multiset(),
            self.sorter == SorterState::Default ==> string_views(r@) == search_result(
                catalog@,
                search_output@,
                self.filter,
            ),
            forall|i: int|
                0 <= i < r@.len() ==> catalog@.contains_key(#[trigger] r@[i]@) && passes(
                    self.filter,
                    catalog@[r@[i]@],
                ),
            forall|i: int, j: int|
                0 <= i < j < r@.len() ==> sort_key(self.sorter, catalog@[r@[i]@]) >= sort_key(
                    self.sorter,
                    catalog@[r@[j]@],
                ),
    {
        let found = catalog.search(search_output);
        let kept_names = filter_names(catalog, &found, self.filter);
        let ghost k = kept_names@;
        let r = sort_names(catalog, kept_names, self.sorter);
        assert forall|i: int| 0 <= i < r@.len() implies catalog@.contains_key(#[trigger] r@[i]@) && passes(
            self.filter,
            catalog@[r@[i]@],
        ) by {
            let x = r@[i]@;
            assert(string_views(r@)[i] == x);
            assert(string_views(r@).contains(x));
            assert(string_views(r@).to_multiset().count(x) > 0);
            assert(string_views(k).contains(x));
            let j = choose|j: int| 0 <= j < string_views(k).len() && string_views(k)[j] == x;
            assert(k[j]@ == x);
        }
        r
    }
}

/// The kinds of operation on the selected package.
#[derive(Clone, Copy, Debug, PartialEq, Eq, Structural)]
pub enum Operation {
    Install,
    Update,
    Uninstall,
}

/// The state of the operation lane.
pub struct PackageDisplay {
    /// The name of the selected package.
    pub package: Option<String>,
    /// An operation is in flight.
    pub loading: bool,
}

/// A message to the operation lane.
pub enum PackageViewMessage {
    Selected(String),
    Operate(Operation),
    SystemUpdate,
    /// An operation on the named package ended with this standard error.
    Finished(String, String),
    /// The system update ended with this standard error.
    FinishedSystemUpdate(String),
}

/// What the caller does after a message to the operation lane.
pub enum DisplayAction {
    Nothing,
    /// Run the command on the named package, then report `Finished`.
    Run { command: ExternalCommand, package: String },
    /// Run the system update, then report `FinishedSystemUpdate`.
    RunSystemUpdate(ExternalCommand),
    /// Show the outcome; if a package is named, sync its installed state.
    Report { outcome: Outcome, sync: Option<String> },
}

/// The flags that `pacman` gets for an operation on a package.
pub open spec fn operation_flag(op: Operation) -> Seq<char> {
    match op {
        Operation::Install | Operation::Update => "-Syy"@,
        Operation::Uninstall => "-R"@,
    }
}

impl PackageDisplay {
    /// No package selected, nothing in flight.
    pub fn new() -> (r: PackageDisplay)
        ensures
            r.package is None,
            !r.loading,
    {
        PackageDisplay { package: None, loading: false }
    }

    /// The command for `op` on the selected package; none is selected, or
    /// its name is empty, gives a failed outcome and no command.
    pub fn handle_operation(&self, op: Operation) -> (r: Result<ExternalCommand, Outcome>)
        ensures
            r is Err <==> (self.package is None || self.package->0@.len() == 0),
            r matches Ok(c) ==> runs_pacman(
                c,
                seq![operation_flag(op), self.package->0@, "--noconfirm"@],
            ),
            r matches Err(o) ==> !o.success && o.message@ == missing_name_message(),
    {
        let name = match &self.package {
            Some(n) => n.clone(),
            None => String::new(),
        };
        match op {
            Operation::Install | Operation::Update => Package::install_or_update(name),
            Operation::Uninstall => Package::uninstall(name),
        }
    }

    /// Takes one message. An operation that can start sets the loading flag
    /// until its `Finished` message, which clears it whatever the outcome.
    pub fn update(&mut self, message: PackageViewMessage) -> (r: DisplayAction)
        ensures
            match message {
                PackageViewMessage::Selected(name) => {
                    &&& final(self).package == Some(name)
                    &&& final(self).loading == old(self).loading
                    &&& r == DisplayAction::Nothing
                },
                PackageViewMessage::Operate(op) => {
                    &&& final(self).package == old(self).package
                    &&& if old(self).package is None || old(self).package->0@.len() == 0 {
                        &&& final(self).loading == old(self).loading
                        &&& (r matches DisplayAction::Report { outcome, sync } && !outcome.success
                            && sync is None)
                    } else {
                        &&& final(self).loading
                        &&& (r matches DisplayAction::Run { command, package } && package@ == old(
                            self,
                        ).package->0@ && runs_pacman(
                            command,
                            seq![operation_flag(op), package@, "--noconfirm"@],
                        ))
                    }
                },
                PackageViewMessage::SystemUpdate => {
                    &&& final(self).package == old(self).package
                    &&& final(self).loading
                    &&& (r matches DisplayAction::RunSystemUpdate(command) && runs_pacman(
                        command,
                        seq!["-Syu"@, "--noconfirm"@],
                    ))
                },
                PackageViewMessage::Finished(name, stderr) => {
                    &&& final(self).package == old(self).package
                    &&& !final(self).loading
                    &&& (r matches DisplayAction::Report { outcome, sync } && outcome.success == (
                    stderr@.len() == 0) && outcome.message@ == stderr@ && sync == Some(name))
                },
                PackageViewMessage::FinishedSystemUpdate(stderr) => {
                    &&& final(self).package == old(self).package
                    &&& !final(self).loading
                    &&& (r matches DisplayAction::Report { outcome, sync } && outcome.success == (
                    stderr@.len() == 0) && outcome.message@ == stderr@ && sync is None)
                },
            },
    {
        match message {
            PackageViewMessage::Selected(name) => {
                self.package = Some(name);
                DisplayAction::Nothing
            },
            PackageViewMessage::Operate(op) => {
                match self.handle_operation(op) {
                    Ok(command) => {
                        let package = match &self.package {
                            Some(n) => n.clone(),
                            None => String::new(),
                        };
                        self.loading = true;
                        DisplayAction::Run { command, package }
                    },
                    Err(outcome) => DisplayAction::Report { outcome, sync: None },
                }
            },
            PackageViewMessage::SystemUpdate => {
                self.loading = true;
                DisplayAction::RunSystemUpdate(Server::system_update())
            },
            PackageViewMessage::Finished(name, stderr) => {
                self.loading = false;
                DisplayAction::Report { outcome: Outcome::from_stderr(stderr), sync: Some(name) }
            },
            PackageViewMessage::FinishedSystemUpdate(stderr) => {
                self.loading = false;
                DisplayAction::Report { outcome: Outcome::from_stderr(stderr), sync: None }
            },
        }
    }
}

} // verus!
