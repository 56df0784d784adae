//! One package record: an open map from property names to values.

use vstd::prelude::*;

use crate::date::{install_date, parse_install_date, InstallDate};
use crate::size::{parse_size, size_in_bytes};
use crate::text::{
    append_chars, chars_of, find_char, first_at, string_of, string_views, trim, trim_range,
    views,
};

verus! {

/// Stores the open property, if it has a name.
pub open spec fn flush(
    name: Seq<char>,
    value: Seq<char>,
    props: Map<Seq<char>, Seq<char>>,
) -> Map<Seq<char>, Seq<char>> {
    if name.len() > 0 {
        props.insert(name, value)
    } else {
        props
    }
}

/// What the parser holds after reading `lines`: the open property's name,
/// its value so far, and the properties stored before it.
pub open spec fn parse_state(lines: Seq<Seq<char>>) -> (Seq<char>, Seq<char>, Map<Seq<char>, Seq<char>>)
    decreases lines.len(),
{
    if lines.len() == 0 {
        (Seq::empty(), Seq::empty(), Map::empty())
    } else {
        let (name, value, props) = parse_state(lines.drop_last());
        let line = lines.last();
        let c = first_at(line, ':');
        if c < line.len() {
            (trim(line.take(c as int)), trim(line.skip((c + 1) as int)), flush(name, value, props))
        } else {
            (name, value + trim(line), props)
        }
    }
}

/// The record that a block of lines describes: a line holding `:` opens a
/// property named by the trimmed text before the first `:`, with the trimmed
/// text after it as value; any other line appends its trimmed text to the
/// open value. Properties with an empty name are not kept; a later property
/// of the same name replaces an earlier one.
pub open spec fn record_of(lines: Seq<Seq<char>>) -> Map<Seq<char>, Seq<char>> {
    let (name, value, props) = parse_state(lines);
    flush(name, value, props)
}

/// The name that a line holding `:` gives to the property it opens.
pub open spec fn property_name(line: Seq<char>) -> Seq<char> {
    trim(line.take(first_at(line, ':') as int))
}

/// The value that a line holding `:` gives to the property it opens.
pub open spec fn property_value(line: Seq<char>) -> Seq<char> {
    trim(line.skip((first_at(line, ':') + 1) as int))
}

/// The trimmed continuation lines, concatenated with no separator.
pub open spec fn joined(lines: Seq<Seq<char>>) -> Seq<char>
    decreases lines.len(),
{
    if lines.len() == 0 {
        Seq::empty()
    } else {
        joined(lines.drop_last()) + trim(lines.last())
    }
}

/// A property line and the continuation lines after it (lines without `:`)
/// give one property whose value is the line's value followed by the trimmed
/// continuations with no separator; it is stored over what the earlier lines
/// of the block gave.
pub proof fn lemma_property_group(
    earlier: Seq<Seq<char>>,
    line: Seq<char>,
    continuations: Seq<Seq<char>>,
)
    requires
        line.contains(':'),
        property_name(line).len() > 0,
        forall|i: int, j: int|
            0 <= i < continuations.len() && 0 <= j < continuations[i].len()
                ==> continuations[i][j] != ':',
    ensures
        record_of(earlier + seq![line] + continuations) == record_of(earlier).insert(
            property_name(line),
            property_value(line) + joined(continuations),
        ),
{
    lemma_group_state(earlier, line, continuations);
}

proof fn lemma_group_state(earlier: Seq<Seq<char>>, line: Seq<char>, continuations: Seq<Seq<char>>)
    requires
        line.contains(':'),
        forall|i: int, j: int|
            0 <= i < continuations.len() && 0 <= j < continuations[i].len()
                ==> continuations[i][j] != ':',
    ensures
        parse_state(earlier + seq![line] + continuations) == (
            property_name(line),
            property_value(line) + joined(continuations),
            record_of(earlier),
        ),
    decreases continuations.len(),
{
    let c = first_at(line, ':');
    let k = choose|k: int| 0 <= k < line.len() && line[k] == ':';
    lemma_first_at_bound(line, ':', k);
    if continuations.len() == 0 {
        assert(earlier + seq![line] + continuations =~= earlier.push(line));
        assert(earlier.push(line).drop_last() =~= earlier);
        assert(joined(continuations) =~= Seq::<char>::empty());
        assert(property_value(line) + joined(continuations) =~= property_value(line));
    } else {
        let rest = continuations.drop_last();
        let x = continuations.last();
        lemma_group_state(earlier, line, rest);
        assert((earlier + seq![line] + continuations).drop_last() =~= earlier + seq![line] + rest);
        assert((earlier + seq![line] + continuations).last() == x);
        assert forall|j: int| 0 <= j < x.len() implies x[j] != ':' by {
            assert(continuations[continuations.len() - 1][j] != ':');
        }
        crate::text::lemma_first_at(x, ':', x.len() as int);
        assert(property_value(line) + joined(rest) + trim(x) =~= property_value(line) + joined(continuations));
    }
}

proof fn lemma_first_at_bound(s: Seq<char>, c: char, k: int)
    requires
        0 <= k < s.len(),
        s[k] == c,
    ensures
        first_at(s, c) <= k,
    decreases k,
{
    if s[0] != c {
        lemma_first_at_bound(s.drop_first(), c, k - 1);
    }
}

/// The value of `key` in `r`, or the empty text.
pub open spec fn property_or_empty(r: Map<Seq<char>, Seq<char>>, key: Seq<char>) -> Seq<char> {
    if r.contains_key(key) {
        r[key]
    } else {
        Seq::empty()
    }
}

/// The record's `Name`, or the empty text.
pub open spec fn name_of(r: Map<Seq<char>, Seq<char>>) -> Seq<char> {
    property_or_empty(r, "Name"@)
}

/// The record's `Installed Size` in bytes; 0 when absent or unreadable.
pub open spec fn install_size_of(r: Map<Seq<char>, Seq<char>>) -> nat {
    size_in_bytes(property_or_empty(r, "Installed Size"@))
}

/// The record's `Install Date`, when present and readable.
pub open spec fn install_date_of(r: Map<Seq<char>, Seq<char>>) -> Option<InstallDate> {
    install_date(property_or_empty(r, "Install Date"@))
}

/// The record says it is installed.
pub open spec fn is_installed(r: Map<Seq<char>, Seq<char>>) -> bool {
    r.contains_key("Installed"@) && r["Installed"@] == "True"@
}

/// The `Installed` value for a known state.
pub open spec fn installed_text(installed: bool) -> Seq<char> {
    if installed {
        "True"@
    } else {
        "False"@
    }
}

/// A package record. Each property name occurs at most once.
#[derive(Clone)]
pub struct Package {
    properties: Vec<(String, String)>,
    contents: Ghost<Map<Seq<char>, Seq<char>>>,
}

impl View for Package {
    type V = Map<Seq<char>, Seq<char>>;

    closed spec fn view(&self) -> Map<Seq<char>, Seq<char>> {
        self.contents@
    }
}

impl Package {
    /// The property names are distinct and the pairs are exactly the view.
    pub closed spec fn wf(&self) -> bool {
        &&& forall|i: int, j: int|
            0 <= i < j < self.properties@.len() ==> self.properties@[i].0@
                != self.properties@[j].0@
        &&& forall|i: int|
            0 <= i < self.properties@.len() ==> #[trigger] self.contents@.contains_key(
                self.properties@[i].0@,
            ) && self.contents@[self.properties@[i].0@] == self.properties@[i].1@
        &&& forall|k: Seq<char>|
            #[trigger] self.contents@.contains_key(k) ==> exists|i: int|
                0 <= i < self.properties@.len() && self.properties@[i].0@ == k
    }

    /// A record without properties.
    pub fn new() -> (r: Package)
        ensures
            r.wf(),
            r@ == Map::<Seq<char>, Seq<char>>::empty(),
    {
        Package { properties: Vec::new(), contents: Ghost(Map::empty()) }
    }

    /// Parses one block of lines into a record.
    pub fn from_raw(data: Vec<String>) -> (r: Package)
        ensures
            r.wf(),
            r@ == record_of(string_views(data@)),
    {
        let mut lines: Vec<Vec<char>> = Vec::new();
        let mut i: usize = 0;
        while i < data.len()
            invariant
                i <= data.len(),
                views(lines@) == string_views(data@).take(i as int),
            decreases data.len() - i,
        {
            let ghost before = lines@;
            lines.push(chars_of(data[i].as_str()));
            assert(views(lines@) =~= views(before).push(data@[i as int]@));
            assert(string_views(data@).take(i + 1) =~= string_views(data@).take(i as int).push(data@[i as int]@));
            i = i + 1;
        }
        assert(string_views(data@).take(i as int) =~= string_views(data@));
        assert(views(lines@).subrange(0, lines@.len() as int) =~= views(lines@));
        Self::parse_block(&lines, 0, lines.len())
    }

    /// Parses `lines[lo..hi]` into a record.
    pub fn parse_block(lines: &Vec<Vec<char>>, lo: usize, hi: usize) -> (r: Package)
        requires
            lo <= hi <= lines.len(),
        ensures
            r.wf(),
            r@ == record_of(views(lines@).subrange(lo as int, hi as int)),
    {
        let mut pkg = Package::new();
        let mut name = String::new();
        let mut value = String::new();
        let mut open = false;
        let mut i = lo;
        assert(views(lines@).subrange(lo as int, lo as int) =~= Seq::<Seq<char>>::empty());
        while i < hi
            invariant
                lo <= i <= hi <= lines.len(),
                pkg.wf(),
                open == (name@.len() > 0),
                parse_state(views(lines@).subrange(lo as int, i as int)) == (name@, value@, pkg@),
            decreases hi - i,
        {
            let ghost prefix = views(lines@).subrange(lo as int, i as int);
            let line = &lines[i];
            let n = line.len();
            assert(line@.subrange(0, n as int) =~= line@);
            assert(views(lines@).subrange(lo as int, i + 1).drop_last() =~= prefix);
            assert(views(lines@).subrange(lo as int, i + 1).last() == line@);
            let c = find_char(line, 0, n, ':');
            if c < n {
                if open {
                    pkg.set_property(name, value);
                }
                let (a, b) = trim_range(line, 0, c);
                assert(line@.subrange(0, c as int) =~= line@.take(c as int));
                name = string_of(line, a, b);
                open = a < b;
                let (a2, b2) = trim_range(line, c + 1, n);
                assert(line@.subrange(c + 1, n as int) =~= line@.skip(c + 1));
                value = string_of(line, a2, b2);
            } else {
                let (a, b) = trim_range(line, 0, n);
                append_chars(&mut value, line, a, b);
            }
            i = i + 1;
        }
        if open {
            pkg.set_property(name, value);
        }
        pkg
    }

    /// The value of `prop`, or an empty string.
    pub fn property_or_default(&self, prop: &str) -> (r: String)
        requires
            self.wf(),
        ensures
            r@ == property_or_empty(self@, prop@),
    {
        match self.get_property(String::from_str(prop)) {
            Some(v) => v,
            None => String::new(),
        }
    }

    /// The installed size in bytes, read anew from `Installed Size`.
    pub fn get_install_size(&self) -> (r: u128)
        requires
            self.wf(),
        ensures
            r == install_size_of(self@),
    {
        let raw = self.property_or_default("Installed Size");
        parse_size(raw.as_str())
    }

    /// The install date, read anew from `Install Date`.
    pub fn get_installed_date(&self) -> (r: Option<InstallDate>)
        requires
            self.wf(),
        ensures
            r == install_date_of(self@),
            r matches Some(d) ==> d.valid(),
    {
        let raw = self.property_or_default("Install Date");
        parse_install_date(raw.as_str())
    }

    /// Records whether the package manager reports the package installed.
    pub fn sync_installed(&mut self, installed: bool)
        requires
            old(self).wf(),
        ensures
            final(self).wf(),
            final(self)@ == old(self)@.insert("Installed"@, installed_text(installed)),
    {
        let value = if installed {
            String::from_str("True")
        } else {
            String::from_str("False")
        };
        self.set_property(String::from_str("Installed"), value);
    }

    /// Where `prop` stands among the pairs.
    fn position(&self, prop: &String) -> (r: Option<usize>)
        requires
            self.wf(),
        ensures
            match r {
                Some(i) => i < self.properties@.len() && self.properties@[i as int].0@ == prop@,
                None => !self@.contains_key(prop@),
            },
    {
        let mut i: usize = 0;
        while i < self.properties.len()
            invariant
                self.wf(),
                i <= self.properties@.len(),
                forall|j: int| 0 <= j < i ==> self.properties@[j].0@ != prop@,
            decreases self.properties@.len() - i,
        {
            if self.properties[i].0 == *prop {
                return Some(i);
            }
            i = i + 1;
        }
        None
    }

    /// The value of `prop`, if the record has it.
    pub fn get_property(&self, prop: String) -> (r: Option<String>)
        requires
            self.wf(),
        ensures
            match r {
                Some(v) => self@.contains_key(prop@) && v@ == self@[prop@],
                None => !self@.contains_key(prop@),
            },
    {
        match self.position(&prop) {
            Some(i) => {
                assert(self.contents@.contains_key(self.properties@[i as int].0@));
                Some(self.properties[i].1.clone())
            },
            None => None,
        }
    }

    /// Sets `prop` to `value`, replacing an earlier value.
    pub fn set_property(&mut self, prop: String, value: String)
        requires
            old(self).wf(),
        ensures
            final(self).wf(),
            final(self)@ == old(self)@.insert(prop@, value@),
    {
        let ghost k = prop@;
        let ghost v = value@;
        match self.position(&prop) {
            Some(i) => {
                self.properties.set(i, (prop, value));
                self.contents = Ghost(self.contents@.insert(k, v));
                assert forall|j: int| 0 <= j < self.properties@.len() implies #[trigger] self.contents@.contains_key(
                    self.properties@[j].0@) && self.contents@[self.properties@[j].0@] == self.properties@[j].1@ by {
                    if j != i {
                        assert(old(self).contents@.contains_key(old(self).properties@[j].0@));
                    }
                }
                assert forall|q: Seq<char>| #[trigger] self.contents@.contains_key(q) implies exists|j: int|
                    0 <= j < self.properties@.len() && self.properties@[j].0@ == q by {
                    if q != k {
                        let j = choose|j: int| 0 <= j < old(self).properties@.len() && old(self).properties@[j].0@ == q;
                        assert(self.properties@[j].0@ == q);
                    } else {
                        assert(self.properties@[i as int].0@ == q);
                    }
                }
            },
            None => {
                self.properties.push((prop, value));
                self.contents = Ghost(self.contents@.insert(k, v));
                assert forall|j: int| 0 <= j < old(self).properties@.len() implies old(self).properties@[j].0@ != k by {
                    assert(old(self).contents@.contains_key(old(self).properties@[j].0@));
                }
                assert forall|j: int| 0 <= j < self.properties@.len() implies #[trigger] self.contents@.contains_key(
                    self.properties@[j].0@) && self.contents@[self.properties@[j].0@] == self.properties@[j].1@ by {
                    if j < old(self).properties@.len() {
                        assert(old(self).contents@.contains_key(old(self).properties@[j].0@));
                    }
                }
                assert forall|q: Seq<char>| #[trigger] self.contents@.contains_key(q) implies exists|j: int|
                    0 <= j < self.properties@.len() && self.properties@[j].0@ == q by {
                    if q != k {
                        let j = choose|j: int| 0 <= j < old(self).properties@.len() && old(self).properties@[j].0@ == q;
                        assert(self.properties@[j].0@ == q);
                    } else {
                        assert(self.properties@[old(self).properties@.len() as int].0@ == q);
                    }
                }
            },
        }
    }
}

} // verus!
