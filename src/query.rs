//! Filtering and ordering of search results.

use vstd::prelude::*;

use crate::date::{date_rank, lemma_dated_ranks_higher, rank_of_date};
use crate::package::{install_date_of, install_size_of, is_installed, Package};
use crate::server::{CatalogView, Server};
use crate::text::string_views;

verus! {

broadcast use vstd::seq_lib::group_to_multiset_ensures;

/// Which records a search keeps.
#[derive(Clone, Copy, Debug, PartialEq, Eq, Structural, Default)]
pub enum FilterState {
    #[default]
    All,
    Installed,
    NotInstalled,
}

/// How a search orders the records it keeps.
#[derive(Clone, Copy, Debug, PartialEq, Eq, Structural, Default)]
pub enum SorterState {
    #[default]
    Default,
    InstallSize,
    InstallDate,
}

/// The record meets the filter.
pub open spec fn passes(filter: FilterState, r: Map<Seq<char>, Seq<char>>) -> bool {
    match filter {
        FilterState::All => true,
        FilterState::Installed => is_installed(r),
        FilterState::NotInstalled => !is_installed(r),
    }
}

/// The names whose records meet the filter, in order.
pub open spec fn kept(c: CatalogView, names: Seq<Seq<char>>, filter: FilterState) -> Seq<Seq<char>>
    decreases names.len(),
{
    if names.len() == 0 {
        Seq::empty()
    } else {
        let earlier = kept(c, names.drop_last(), filter);
        if passes(filter, c[names.last()]) {
            earlier.push(names.last())
        } else {
            earlier
        }
    }
}

/// The number by which a sorter orders records, the greatest first: the
/// installed size in bytes, or the rank of the install date (none ranks
/// lowest). The default sorter gives every record the same key.
pub open spec fn sort_key(sorter: SorterState, r: Map<Seq<char>, Seq<char>>) -> int {
    match sorter {
        SorterState::Default => 0,
        SorterState::InstallSize => install_size_of(r) as int,
        SorterState::InstallDate => date_rank(install_date_of(r)),
    }
}

/// In names ordered by install date, the records without a readable date
/// come after all those with one.
pub proof fn lemma_undated_last(c: CatalogView, names: Seq<Seq<char>>)
    requires
        forall|i: int, j: int|
            0 <= i < j < names.len() ==> sort_key(SorterState::InstallDate, c[names[i]]) >= sort_key(
                SorterState::InstallDate,
                c[names[j]],
            ),
    ensures
        forall|i: int, j: int|
            0 <= i < j < names.len() && install_date_of(c[names[i]]) is None ==> install_date_of(
                c[names[j]],
            ) is None,
{
    assert forall|i: int, j: int|
        0 <= i < j < names.len() && install_date_of(c[names[i]]) is None implies install_date_of(
        c[names[j]],
    ) is None by {
        if let Some(d) = install_date_of(c[names[j]]) {
            lemma_dated_ranks_higher(d);
        }
    }
}

/// Whether a record meets the filter.
pub fn filter_accepts(filter: FilterState, pkg: &Package) -> (r: bool)
    requires
        pkg.wf(),
    ensures
        r == passes(filter, pkg@),
{
    proof {
        reveal_strlit("True");
        assert(Seq::<char>::empty() != "True"@) by {
            assert("True"@.len() == 4);
        }
    }
    match filter {
        FilterState::All => true,
        FilterState::Installed => pkg.property_or_default("Installed") == String::from_str("True"),
        FilterState::NotInstalled => pkg.property_or_default("Installed") != String::from_str("True"),
    }
}

/// The key by which a sorter orders a record.
pub fn sort_key_of(sorter: SorterState, pkg: &Package) -> (r: u128)
    requires
        pkg.wf(),
    ensures
        r == sort_key(sorter, pkg@),
{
    match sorter {
        SorterState::Default => 0,
        SorterState::InstallSize => pkg.get_install_size(),
        SorterState::InstallDate => rank_of_date(pkg.get_installed_date()) as u128,
    }
}

/// Keeps the names whose records meet the filter, in order.
pub fn filter_names(catalog: &Server, names: &Vec<String>, filter: FilterState) -> (r: Vec<String>)
    requires
        catalog.wf(),
        forall|i: int| 0 <= i < names@.len() ==> catalog@.contains_key(#[trigger] names@[i]@),
    ensures
        string_views(r@) == kept(catalog@, string_views(names@), filter),
        forall|i: int|
            0 <= i < r@.len() ==> catalog@.contains_key(#[trigger] r@[i]@) && passes(
                filter,
                catalog@[r@[i]@],
            ),
{
    let ghost all = string_views(names@);
    let mut r: Vec<String> = Vec::new();
    let mut i: usize = 0;
    assert(string_views(r@) =~= kept(catalog@, all.take(0), filter));
    while i < names.len()
        invariant
            i <= names@.len(),
            catalog.wf(),
            all == string_views(names@),
            forall|t: int| 0 <= t < names@.len() ==> catalog@.contains_key(#[trigger] names@[t]@),
            string_views(r@) == kept(catalog@, all.take(i as int), filter),
            forall|t: int|
                0 <= t < r@.len() ==> catalog@.contains_key(#[trigger] r@[t]@) && passes(
                    filter,
                    catalog@[r@[t]@],
                ),
        decreases names@.len() - i,
    {
        assert(all.take(i + 1).drop_last() =~= all.take(i as int));
        assert(all.take(i + 1).last() == names@[i as int]@);
        assert(catalog@.contains_key(names@[i as int]@));
        match catalog.get(&names[i]) {
            Some(pkg) => {
                if filter_accepts(filter, pkg) {
                    let ghost before = r@;
                    r.push(names[i].clone());
                    assert(string_views(r@) =~= string_views(before).push(names@[i as int]@));
                }
            },
            None => {},
        }
        i = i + 1;
    }
    assert(all.take(i as int) =~= all);
    r
}

proof fn lemma_insert_multiset<A>(s: Seq<A>, p: int, x: A)
    requires
        0 <= p <= s.len(),
    ensures
        s.insert(p, x).to_multiset() == s.to_multiset().insert(x),
{
    let t = s.insert(p, x);
    assert(t.remove(p) =~= s);
    assert(t[p] == x);
    assert(t.remove(p).to_multiset() == t.to_multiset().remove(x));
    assert(t.contains(x));
    assert(t.to_multiset().count(x) > 0);
    assert(t.to_multiset() =~= s.to_multiset().insert(x));
}

/// Orders the names by the sorter's key, the greatest first; names of equal
/// key keep their order. The default sorter leaves the order as it is.
pub fn sort_names(catalog: &Server, names: Vec<String>, sorter: SorterState) -> (r: Vec<String>)
    requires
        catalog.wf(),
        forall|i: int| 0 <= i < names@.len() ==> catalog@.contains_key(#[trigger] names@[i]@),
    ensures
        string_views(r@).to_multiset() == string_views(names@).to_multiset(),
        sorter == SorterState::Default ==> r@ == names@,
        forall|i: int| 0 <= i < r@.len() ==> catalog@.contains_key(#[trigger] r@[i]@),
        forall|i: int, j: int|
            0 <= i < j < r@.len() ==> sort_key(sorter, catalog@[r@[i]@]) >= sort_key(
                sorter,
                catalog@[r@[j]@],
            ),
{
    if sorter == SorterState::Default {
        return names;
    }
    let ghost all = string_views(names@);
    let mut keys: Vec<u128> = Vec::new();
    let mut out: Vec<String> = Vec::new();
    let mut j: usize = 0;
    assert(all.take(0) =~= Seq::<Seq<char>>::empty());
    assert(string_views(out@) =~= Seq::<Seq<char>>::empty());
    while j < names.len()
        invariant
            j <= names@.len(),
            catalog.wf(),
            all == string_views(names@),
            forall|t: int| 0 <= t < names@.len() ==> catalog@.contains_key(#[trigger] names@[t]@),
            keys@.len() == out@.len(),
            forall|t: int| 0 <= t < out@.len() ==> catalog@.contains_key(#[trigger] out@[t]@),
            forall|t: int| 0 <= t < out@.len() ==> keys@[t] == sort_key(sorter, catalog@[#[trigger] out@[t]@]),
            forall|a: int, b: int| 0 <= a < b < keys@.len() ==> keys@[a] >= keys@[b],
            string_views(out@).to_multiset() == all.take(j as int).to_multiset(),
        decreases names@.len() - j,
    {
        let name = names[j].clone();
        assert(catalog@.contains_key(name@));
        let k = match catalog.get(&name) {
            Some(pkg) => sort_key_of(sorter, pkg),
            None => 0,
        };
        let mut p: usize = 0;
        while p < keys.len() && keys[p] >= k
            invariant
                p <= keys@.len(),
                forall|t: int| 0 <= t < p ==> keys@[t] >= k,
            decreases keys@.len() - p,
        {
            p = p + 1;
        }
        let ghost old_keys = keys@;
        let ghost old_out = out@;
        keys.insert(p, k);
        out.insert(p, name);
        proof {
            assert forall|a: int, b: int| 0 <= a < b < keys@.len() implies keys@[a] >= keys@[b] by {
                if b < p {
                    assert(keys@[a] == old_keys[a] && keys@[b] == old_keys[b]);
                } else if b == p {
                    assert(keys@[a] == old_keys[a]);
                } else if a < p {
                    assert(keys@[a] == old_keys[a] && keys@[b] == old_keys[b - 1]);
                    assert(old_keys[a] >= k);
                    assert(old_keys[p as int] < k);
                    assert(old_keys[p as int] >= old_keys[b - 1] || p == b - 1);
                } else if a == p {
                    assert(keys@[b] == old_keys[b - 1]);
                    assert(old_keys[p as int] < k);
                    assert(old_keys[p as int] >= old_keys[b - 1] || p == b - 1);
                } else {
                    assert(keys@[a] == old_keys[a - 1] && keys@[b] == old_keys[b - 1]);
                }
            }
            assert forall|t: int| 0 <= t < out@.len() implies keys@[t] == sort_key(sorter, catalog@[#[trigger] out@[t]@])
                && catalog@.contains_key(out@[t]@) by {
                if t < p {
                    assert(out@[t] == old_out[t]);
                } else if t > p {
                    assert(out@[t] == old_out[t - 1]);
                }
            }
            assert(string_views(out@) =~= string_views(old_out).insert(p as int, name@));
            lemma_insert_multiset(string_views(old_out), p as int, name@);
            assert(all.take(j + 1) =~= all.take(j as int).push(name@));
        }
        j = j + 1;
    }
    assert(all.take(j as int) =~= all);
    out
}

} // verus!
