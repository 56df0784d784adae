//! The catalog: every known package record, indexed by its name.

use vstd::prelude::*;

use crate::package::{installed_text, name_of, record_of, Package};
use crate::text::{
    chars_of, find_char, find_space, first_at, first_space, lines_of, skip_spaces, split_lines,
    string_of, string_views, trim, trim_range, trim_start, views,
};

verus! {

/// What a catalog holds: each name with the record it indexes.
pub type CatalogView = Map<Seq<char>, Map<Seq<char>, Seq<char>>>;

/// Every entry is indexed by its record's non-empty `Name`.
pub open spec fn keyed_by_name(c: CatalogView) -> bool {
    forall|k: Seq<char>| #[trigger] c.contains_key(k) ==> k.len() > 0 && name_of(c[k]) == k
}

/// Adds the record of one block, unless its name is empty; a record of the
/// same name is replaced whole.
pub open spec fn add_block(c: CatalogView, block: Seq<Seq<char>>) -> CatalogView {
    if block.len() == 0 {
        c
    } else {
        let r = record_of(block);
        if name_of(r).len() > 0 {
            c.insert(name_of(r), r)
        } else {
            c
        }
    }
}

/// The catalog of the blocks before the last empty line, and the lines of the
/// block still open.
pub open spec fn build_state(lines: Seq<Seq<char>>) -> (CatalogView, Seq<Seq<char>>)
    decreases lines.len(),
{
    if lines.len() == 0 {
        (Map::empty(), Seq::empty())
    } else {
        let (c, block) = build_state(lines.drop_last());
        let line = lines.last();
        if line.len() == 0 {
            (add_block(c, block), Seq::empty())
        } else {
            (c, block.push(line))
        }
    }
}

/// The catalog that the two dumps give: they are joined by a `'\n'`, cut
/// into blocks at the empty lines, and each block's record is indexed by name
/// in order, so that a later record replaces an earlier one of the same name.
pub open spec fn catalog_of(available: Seq<char>, installed: Seq<char>) -> CatalogView {
    let (c, block) = build_state(lines_of(available + "\n"@ + installed));
    add_block(c, block)
}

/// The first whitespace-delimited token of a line.
pub open spec fn first_token(line: Seq<char>) -> Seq<char> {
    let t = trim_start(line);
    t.take(first_space(t) as int)
}

/// The names that a list of installed packages gives, one per line.
pub open spec fn names_in(lines: Seq<Seq<char>>) -> Set<Seq<char>> {
    Set::new(
        |n: Seq<char>|
            n.len() > 0 && exists|i: int| 0 <= i < lines.len() && #[trigger] first_token(lines[i]) == n,
    )
}

/// The record marked installed.
pub open spec fn mark_installed(r: Map<Seq<char>, Seq<char>>) -> Map<Seq<char>, Seq<char>> {
    r.insert("Installed"@, "True"@)
}

/// The record marked not installed, unless it has an `Installed` value.
pub open spec fn mark_unset(r: Map<Seq<char>, Seq<char>>) -> Map<Seq<char>, Seq<char>> {
    if r.contains_key("Installed"@) {
        r
    } else {
        r.insert("Installed"@, "False"@)
    }
}

/// The catalog after a bulk sync against the listed names.
pub open spec fn synced(c: CatalogView, listed: Set<Seq<char>>) -> CatalogView {
    Map::new(
        |k: Seq<char>| c.contains_key(k),
        |k: Seq<char>|
            if listed.contains(k) {
                mark_installed(c[k])
            } else {
                mark_unset(c[k])
            },
    )
}

/// The name that a search result line `repo/name version ...` gives: the
/// text after the first `/` and before the next space, trimmed.
pub open spec fn search_name(line: Seq<char>) -> Seq<char> {
    let rest = line.skip((first_at(line, '/') + 1) as int);
    trim(rest.take(first_at(rest, ' ') as int))
}

/// The names, in order, of the search result lines that name a catalog entry.
pub open spec fn found_names(c: CatalogView, lines: Seq<Seq<char>>) -> Seq<Seq<char>>
    decreases lines.len(),
{
    if lines.len() == 0 {
        Seq::empty()
    } else {
        let earlier = found_names(c, lines.drop_last());
        let line = lines.last();
        if first_at(line, '/') < line.len() && c.contains_key(search_name(line)) {
            earlier.push(search_name(line))
        } else {
            earlier
        }
    }
}

/// Every record has an `Installed` value, and it is `True` or `False`.
pub open spec fn installed_known(c: CatalogView) -> bool {
    forall|k: Seq<char>|
        #[trigger] c.contains_key(k) ==> c[k].contains_key("Installed"@) && (c[k]["Installed"@]
            == "True"@ || c[k]["Installed"@] == "False"@)
}

/// No record has an `Installed` value other than `True` or `False`.
pub open spec fn installed_unset_or_known(c: CatalogView) -> bool {
    forall|k: Seq<char>|
        #[trigger] c.contains_key(k) && c[k].contains_key("Installed"@) ==> (c[k]["Installed"@]
            == "True"@ || c[k]["Installed"@] == "False"@)
}

/// After a bulk sync every record has `Installed` set to `True` or `False`,
/// provided no record held another `Installed` value before.
pub proof fn lemma_sync_leaves_installed_known(c: CatalogView, listed: Set<Seq<char>>)
    requires
        installed_unset_or_known(c),
    ensures
        installed_known(synced(c, listed)),
{
}

/// Building depends on the dumps alone: two catalogs built from the same
/// dumps hold the same names with the same records.
pub proof fn lemma_rebuild_deterministic(
    first: CatalogView,
    second: CatalogView,
    available: Seq<char>,
    installed: Seq<char>,
)
    requires
        first == catalog_of(available, installed),
        second == catalog_of(available, installed),
    ensures
        first.dom() == second.dom(),
        forall|k: Seq<char>| #[trigger] first.contains_key(k) ==> first[k] == second[k],
{
}

/// The package catalog.
#[derive(Clone)]
pub struct Server {
    packages: Vec<Package>,
    names: Vec<String>,
    index: Ghost<CatalogView>,
}

impl View for Server {
    type V = CatalogView;

    closed spec fn view(&self) -> CatalogView {
        self.index@
    }
}

impl Server {
    /// The records are well formed, their names are distinct and not empty,
    /// and the view indexes exactly them.
    pub closed spec fn wf(&self) -> bool {
        &&& self.names@.len() == self.packages@.len()
        &&& forall|i: int| 0 <= i < self.names@.len() ==> #[trigger] self.names@[i]@ == name_of(self.packages@[i]@)
        &&& forall|i: int| 0 <= i < self.packages@.len() ==> (#[trigger] self.packages@[i]).wf()
        &&& forall|i: int|
            0 <= i < self.packages@.len() ==> name_of(#[trigger] self.packages@[i]@).len() > 0
                && self.index@.contains_key(name_of(self.packages@[i]@)) && self.index@[name_of(
                self.packages@[i]@,
            )] == self.packages@[i]@
        &&& forall|i: int, j: int|
            0 <= i < j < self.packages@.len() ==> name_of(self.packages@[i]@) != name_of(
                self.packages@[j]@,
            )
        &&& forall|k: Seq<char>|
            #[trigger] self.index@.contains_key(k) ==> exists|i: int|
                0 <= i < self.packages@.len() && name_of(self.packages@[i]@) == k
    }

    /// Every entry's key is its record's non-empty name.
    pub proof fn lemma_keyed_by_name(&self)
        requires
            self.wf(),
        ensures
            keyed_by_name(self@),
    {
        assert forall|k: Seq<char>| #[trigger] self@.contains_key(k) implies k.len() > 0 && name_of(self@[k]) == k by {
            let i = choose|i: int| 0 <= i < self.packages@.len() && name_of(self.packages@[i]@) == k;
            assert(name_of(self.packages@[i]@).len() > 0);
        }
    }

    /// An empty catalog.
    pub fn new() -> (r: Server)
        ensures
            r.wf(),
            r@ == CatalogView::empty(),
    {
        Server { packages: Vec::new(), names: Vec::new(), index: Ghost(Map::empty()) }
    }

    /// A catalog built from the two dumps and synced against the list of
    /// installed packages.
    pub fn intialized(available: &str, installed: &str, installed_list: &str) -> (r: Server)
        ensures
            r.wf(),
            r@ == synced(catalog_of(available@, installed@), names_in(lines_of(installed_list@))),
    {
        let mut server = Server::new();
        server.populate(available, installed);
        server.check_installed(installed_list);
        server
    }

    /// How many records the catalog holds.
    pub fn len(&self) -> (r: usize)
        requires
            self.wf(),
        ensures
            r == self@.len(),
    {
        proof {
            let names = self.packages@.map_values(|p: Package| name_of(p@));
            assert forall|i: int, j: int| 0 <= i < names.len() && 0 <= j < names.len() && i != j implies names[i] != names[j] by {
                if i < j {
                    assert(name_of(self.packages@[i]@) != name_of(self.packages@[j]@));
                } else {
                    assert(name_of(self.packages@[j]@) != name_of(self.packages@[i]@));
                }
            }
            names.unique_seq_to_set();
            assert forall|k: Seq<char>| self@.dom().contains(k) <==> names.to_set().contains(k) by {
                if self@.contains_key(k) {
                    let i = choose|i: int| 0 <= i < self.packages@.len() && name_of(self.packages@[i]@) == k;
                    assert(names[i] == k);
                }
                if names.to_set().contains(k) {
                    let i = choose|i: int| 0 <= i < names.len() && names[i] == k;
                    assert(self.index@.contains_key(name_of(self.packages@[i]@)));
                }
            }
            assert(self@.dom() =~= names.to_set());
        }
        self.packages.len()
    }

    /// The record whose name is exactly `name`.
    pub fn get(&self, name: &String) -> (r: Option<&Package>)
        requires
            self.wf(),
        ensures
            match r {
                Some(p) => p.wf() && self@.contains_key(name@) && p@ == self@[name@],
                None => !self@.contains_key(name@),
            },
    {
        match self.position(name) {
            Some(p) => Some(&self.packages[p]),
            None => None,
        }
    }

    /// Where the record named `name` stands.
    fn position(&self, name: &String) -> (r: Option<usize>)
        requires
            self.wf(),
        ensures
            match r {
                Some(i) => i < self.packages@.len() && name_of(self.packages@[i as int]@) == name@,
                None => !self@.contains_key(name@),
            },
    {
        let mut i: usize = 0;
        while i < self.packages.len()
            invariant
                self.wf(),
                i <= self.packages@.len(),
                forall|j: int| 0 <= j < i ==> name_of(self.packages@[j]@) != name@,
            decreases self.packages@.len() - i,
        {
            if self.names[i] == *name {
                return Some(i);
            }
            i = i + 1;
        }
        None
    }

    /// Rebuilds the catalog from the dump of the available packages and the
    /// dump of the installed ones, replacing everything it held.
    pub fn populate(&mut self, available: &str, installed: &str)
        ensures
            final(self).wf(),
            final(self)@ == catalog_of(available@, installed@),
    {
        let joined = String::from_str(available).concat("\n").concat(installed);
        let lines = split_lines(joined.as_str());
        let ghost all = views(lines@);
        let mut fresh = Server::new();
        let mut start: usize = 0;
        let mut i: usize = 0;
        assert(all.take(0) =~= Seq::<Seq<char>>::empty());
        assert(all.subrange(0, 0) =~= Seq::<Seq<char>>::empty());
        while i < lines.len()
            invariant
                start <= i <= lines.len(),
                all == views(lines@),
                fresh.wf(),
                build_state(all.take(i as int)) == (fresh@, all.subrange(start as int, i as int)),
            decreases lines.len() - i,
        {
            assert(all.take(i + 1).drop_last() =~= all.take(i as int));
            assert(all.take(i + 1).last() == lines@[i as int]@);
            if lines[i].len() == 0 {
                fresh.add_block(&lines, start, i);
                start = i + 1;
                assert(all.subrange(start as int, i + 1) =~= Seq::<Seq<char>>::empty());
            } else {
                assert(all.subrange(start as int, i + 1) =~= all.subrange(start as int, i as int).push(lines@[i as int]@));
            }
            i = i + 1;
        }
        assert(all.take(i as int) =~= all);
        fresh.add_block(&lines, start, lines.len());
        *self = fresh;
    }

    /// Reconciles the installed state with the list of installed packages,
    /// one per line, its first token the name: each listed record is marked
    /// installed, then each record still without an `Installed` value is
    /// marked not installed. Listed names that the catalog lacks are ignored.
    pub fn check_installed(&mut self, installed_list: &str)
        requires
            old(self).wf(),
        ensures
            final(self).wf(),
            final(self)@ == synced(old(self)@, names_in(lines_of(installed_list@))),
    {
        let lines = split_lines(installed_list);
        let ghost all = views(lines@);
        let ghost c0 = self@;
        let mut i: usize = 0;
        assert(self@ =~= Map::new(
            |k: Seq<char>| c0.contains_key(k),
            |k: Seq<char>| if names_in(all.take(0)).contains(k) { mark_installed(c0[k]) } else { c0[k] },
        ));
        while i < lines.len()
            invariant
                i <= lines.len(),
                all == views(lines@),
                self.wf(),
                self@ == Map::new(
                    |k: Seq<char>| c0.contains_key(k),
                    |k: Seq<char>| if names_in(all.take(i as int)).contains(k) { mark_installed(c0[k]) } else { c0[k] },
                ),
            decreases lines.len() - i,
        {
            let line = &lines[i];
            let n = line.len();
            assert(line@.subrange(0, n as int) =~= line@);
            let a = skip_spaces(line, 0, n);
            let b = find_space(line, a, n);
            let name = string_of(line, a, b);
            let ghost tok = first_token(all[i as int]);
            assert(tok =~= name@);
            let ghost t0 = all.take(i as int);
            let ghost t1 = all.take(i + 1);
            let ghost before = names_in(t0);
            let ghost after = names_in(t1);
            assert forall|q: Seq<char>| after.contains(q) <==> (before.contains(q) || (q == tok && tok.len() > 0)) by {
                if after.contains(q) {
                    let j = choose|j: int| 0 <= j < t1.len() && #[trigger] first_token(t1[j]) == q;
                    if j < i {
                        assert(t0[j] == t1[j]);
                    }
                }
                if before.contains(q) {
                    let j = choose|j: int| 0 <= j < t0.len() && #[trigger] first_token(t0[j]) == q;
                    assert(t0[j] == t1[j]);
                }
                if q == tok && tok.len() > 0 {
                    assert(t1[i as int] == all[i as int]);
                }
            }
            let ghost prev = self@;
            if a < b {
                match self.position(&name) {
                    Some(p) => {
                        assert(prev[tok] == self.packages@[p as int]@);
                        self.set_flag(p, true);
                        assert(self@ =~= Map::new(
                            |k: Seq<char>| c0.contains_key(k),
                            |k: Seq<char>| if after.contains(k) { mark_installed(c0[k]) } else { c0[k] },
                        )) by {
                            if before.contains(tok) {
                                assert(prev[tok].insert("Installed"@, "True"@) =~= mark_installed(c0[tok]));
                            }
                        }
                    },
                    None => {
                        assert(self@ =~= Map::new(
                            |k: Seq<char>| c0.contains_key(k),
                            |k: Seq<char>| if after.contains(k) { mark_installed(c0[k]) } else { c0[k] },
                        ));
                    },
                }
            } else {
                assert(self@ =~= Map::new(
                    |k: Seq<char>| c0.contains_key(k),
                    |k: Seq<char>| if after.contains(k) { mark_installed(c0[k]) } else { c0[k] },
                ));
            }
            i = i + 1;
        }
        assert(all.take(i as int) =~= all);
        let ghost listed = names_in(all);
        let ghost marked = self@;
        let mut j: usize = 0;
        while j < self.packages.len()
            invariant
                j <= self.packages@.len(),
                self.wf(),
                forall|k: Seq<char>| #[trigger] self@.contains_key(k) == marked.contains_key(k),
                forall|k: Seq<char>| #[trigger] marked.contains_key(k) ==> self@[k] == marked[k] || self@[k] == mark_unset(marked[k]),
                forall|t: int| 0 <= t < j ==> self@[name_of(#[trigger] self.packages@[t]@)] == mark_unset(marked[name_of(self.packages@[t]@)]),
            decreases self.packages@.len() - j,
        {
            let ghost k = name_of(self.packages@[j as int]@);
            let ghost prev = self@;
            let ghost prev_packages = self.packages@;
            assert(self@[k] == self.packages@[j as int]@);
            match self.packages[j].get_property(String::from_str("Installed")) {
                Some(_) => {
                    assert(self@[k] == mark_unset(marked[k]));
                },
                None => {
                    self.set_flag(j, false);
                    assert(self@[k] == mark_unset(marked[k]));
                    assert forall|t: int| 0 <= t < j implies self@[name_of(#[trigger] self.packages@[t]@)] == mark_unset(marked[name_of(self.packages@[t]@)]) by {
                        assert(self.packages@[t] == prev_packages[t]);
                        assert(name_of(prev_packages[t]@) != k);
                    }
                },
            }
            j = j + 1;
        }
        assert(self@ =~= synced(c0, listed)) by {
            assert forall|k: Seq<char>| #[trigger] self@.contains_key(k) implies self@[k] == synced(c0, listed)[k] by {
                let t = choose|t: int| 0 <= t < self.packages@.len() && name_of(self.packages@[t]@) == k;
                assert(self@[name_of(self.packages@[t]@)] == mark_unset(marked[name_of(self.packages@[t]@)]));
            }
        }
    }

    /// Records the installed state of the record named `name`, after an
    /// operation on it; a name the catalog lacks changes nothing.
    pub fn sync_one(&mut self, name: &str, installed: bool)
        requires
            old(self).wf(),
        ensures
            final(self).wf(),
            final(self)@ == if old(self)@.contains_key(name@) {
                old(self)@.insert(name@, old(self)@[name@].insert("Installed"@, installed_text(installed)))
            } else {
                old(self)@
            },
    {
        let key = String::from_str(name);
        match self.position(&key) {
            Some(p) => {
                self.set_flag(p, installed);
            },
            None => {},
        }
    }

    /// The record named `name`, trimmed.
    pub fn get_package(&self, name: String) -> (r: Option<&Package>)
        requires
            self.wf(),
        ensures
            match r {
                Some(p) => p.wf() && self@.contains_key(trim(name@)) && p@ == self@[trim(name@)],
                None => !self@.contains_key(trim(name@)),
            },
    {
        let v = chars_of(name.as_str());
        let (a, b) = trim_range(&v, 0, v.len());
        assert(v@.subrange(0, v@.len() as int) =~= v@);
        let key = string_of(&v, a, b);
        match self.position(&key) {
            Some(p) => Some(&self.packages[p]),
            None => None,
        }
    }

    /// The catalog names that the package manager's search output gives, in
    /// its order: for each line holding `/`, the name after the first `/`.
    pub fn search(&self, search_output: &str) -> (r: Vec<String>)
        requires
            self.wf(),
        ensures
            string_views(r@) == found_names(self@, lines_of(search_output@)),
            forall|i: int| 0 <= i < r@.len() ==> self@.contains_key(#[trigger] r@[i]@),
    {
        let lines = split_lines(search_output);
        let ghost all = views(lines@);
        let mut r: Vec<String> = Vec::new();
        let mut i: usize = 0;
        assert(string_views(r@) =~= found_names(self@, all.take(0)));
        while i < lines.len()
            invariant
                i <= lines.len(),
                all == views(lines@),
                self.wf(),
                string_views(r@) == found_names(self@, all.take(i as int)),
                forall|t: int| 0 <= t < r@.len() ==> self@.contains_key(#[trigger] r@[t]@),
            decreases lines.len() - i,
        {
            let line = &lines[i];
            let n = line.len();
            assert(line@.subrange(0, n as int) =~= line@);
            assert(all.take(i + 1).drop_last() =~= all.take(i as int));
            assert(all.take(i + 1).last() == line@);
            let slash = find_char(line, 0, n, '/');
            if slash < n {
                let space = find_char(line, slash + 1, n, ' ');
                let (a, b) = trim_range(line, slash + 1, space);
                let name = string_of(line, a, b);
                proof {
                    let rest = line@.skip((slash + 1) as int);
                    assert(rest =~= line@.subrange(slash + 1, n as int));
                    assert(rest.take((space - slash - 1) as int) =~= line@.subrange(slash + 1, space as int));
                    assert(name@ == search_name(line@));
                }
                match self.position(&name) {
                    Some(_) => {
                        let ghost before = r@;
                        r.push(name);
                        assert(string_views(r@) =~= string_views(before).push(search_name(line@)));
                    },
                    None => {},
                }
            }
            i = i + 1;
        }
        assert(all.take(i as int) =~= all);
        r
    }

    /// Adds the record of `lines[lo..hi]` as `add_block` says.
    fn add_block(&mut self, lines: &Vec<Vec<char>>, lo: usize, hi: usize)
        requires
            old(self).wf(),
            lo <= hi <= lines.len(),
        ensures
            final(self).wf(),
            final(self)@ == add_block(old(self)@, views(lines@).subrange(lo as int, hi as int)),
    {
        if lo < hi {
            let pkg = Package::parse_block(lines, lo, hi);
            let name = pkg.property_or_default("Name");
            if name.as_str().unicode_len() > 0 {
                self.insert(name, pkg);
            }
        }
    }

    /// Sets the `Installed` value of the record at `t`.
    fn set_flag(&mut self, t: usize, installed: bool)
        requires
            old(self).wf(),
            t < old(self).packages@.len(),
        ensures
            final(self).wf(),
            final(self).packages@.len() == old(self).packages@.len(),
            forall|u: int| 0 <= u < old(self).packages@.len() && u != t ==> final(self).packages@[u] == old(self).packages@[u],
            final(self).packages@[t as int]@ == old(self).packages@[t as int]@.insert("Installed"@, installed_text(installed)),
            name_of(final(self).packages@[t as int]@) == name_of(old(self).packages@[t as int]@),
            final(self)@ == old(self)@.insert(
                name_of(old(self).packages@[t as int]@),
                old(self).packages@[t as int]@.insert("Installed"@, installed_text(installed)),
            ),
    {
        proof {
            reveal_strlit("Installed");
            reveal_strlit("Name");
            assert("Installed"@ != "Name"@) by {
                assert("Installed"@.len() != "Name"@.len());
            }
        }
        let ghost k = name_of(self.packages@[t as int]@);
        assert(self.packages@[t as int].wf());
        self.packages[t].sync_installed(installed);
        self.index = Ghost(self.index@.insert(k, self.packages@[t as int]@));
        assert(name_of(self.packages@[t as int]@) == k);
        assert forall|j: int| 0 <= j < self.packages@.len() implies name_of(#[trigger] self.packages@[j]@).len() > 0
            && self.index@.contains_key(name_of(self.packages@[j]@)) && self.index@[name_of(self.packages@[j]@)]
            == self.packages@[j]@ by {
            if j != t {
                assert(old(self).packages@[j] == self.packages@[j]);
            }
        }
        assert forall|q: Seq<char>| #[trigger] self.index@.contains_key(q) implies exists|j: int|
            0 <= j < self.packages@.len() && name_of(self.packages@[j]@) == q by {
            let j = choose|j: int| 0 <= j < old(self).packages@.len() && name_of(old(self).packages@[j]@) == q;
            if j != t {
                assert(self.packages@[j] == old(self).packages@[j]);
            } else {
                assert(name_of(self.packages@[t as int]@) == q);
            }
        }
        assert forall|i: int, j: int| 0 <= i < j < self.packages@.len() implies name_of(self.packages@[i]@) != name_of(
                self.packages@[j]@) by {
            if i != t {
                assert(old(self).packages@[i] == self.packages@[i]);
            }
            if j != t {
                assert(old(self).packages@[j] == self.packages@[j]);
            }
        }
        assert forall|i: int| 0 <= i < self.packages@.len() implies (#[trigger] self.packages@[i]).wf() by {
            if i != t {
                assert(old(self).packages@[i] == self.packages@[i]);
            }
        }
    }

    /// Indexes `pkg` under `name`, replacing a record of that name.
    fn insert(&mut self, name: String, pkg: Package)
        requires
            old(self).wf(),
            pkg.wf(),
            name@.len() > 0,
            name_of(pkg@) == name@,
        ensures
            final(self).wf(),
            final(self)@ == old(self)@.insert(name@, pkg@),
    {
        let ghost k = name@;
        let ghost v = pkg@;
        match self.position(&name) {
            Some(i) => {
                self.packages.set(i, pkg);
                self.index = Ghost(self.index@.insert(k, v));
                assert forall|j: int| 0 <= j < self.packages@.len() implies name_of(#[trigger] self.packages@[j]@).len() > 0
                    && self.index@.contains_key(name_of(self.packages@[j]@)) && self.index@[name_of(self.packages@[j]@)]
                    == self.packages@[j]@ by {
                    if j != i {
                        assert(old(self).packages@[j] == self.packages@[j]);
                    }
                }
                assert forall|q: Seq<char>| #[trigger] self.index@.contains_key(q) implies exists|j: int|
                    0 <= j < self.packages@.len() && name_of(self.packages@[j]@) == q by {
                    if q != k {
                        let j = choose|j: int| 0 <= j < old(self).packages@.len() && name_of(old(self).packages@[j]@) == q;
                        assert(self.packages@[j] == old(self).packages@[j]);
                    } else {
                        assert(name_of(self.packages@[i as int]@) == q);
                    }
                }
            },
            None => {
                self.packages.push(pkg);
                self.names.push(name);
                self.index = Ghost(self.index@.insert(k, v));
                assert forall|j: int| 0 <= j < old(self).packages@.len() implies name_of(old(self).packages@[j]@) != k by {
                    assert(old(self).index@.contains_key(name_of(old(self).packages@[j]@)));
                }
                assert forall|j: int| 0 <= j < self.packages@.len() implies name_of(#[trigger] self.packages@[j]@).len() > 0
                    && self.index@.contains_key(name_of(self.packages@[j]@)) && self.index@[name_of(self.packages@[j]@)]
                    == self.packages@[j]@ by {
                    if j < old(self).packages@.len() {
                        assert(old(self).packages@[j] == self.packages@[j]);
                    }
                }
                assert forall|q: Seq<char>| #[trigger] self.index@.contains_key(q) implies exists|j: int|
                    0 <= j < self.packages@.len() && name_of(self.packages@[j]@) == q by {
                    if q != k {
                        let j = choose|j: int| 0 <= j < old(self).packages@.len() && name_of(old(self).packages@[j]@) == q;
                        assert(self.packages@[j] == old(self).packages@[j]);
                    } else {
                        assert(name_of(self.packages@[old(self).packages@.len() as int]@) == q);
                    }
                }
            },
        }
    }
}

} // verus!
