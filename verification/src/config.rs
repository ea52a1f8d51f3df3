use vstd::prelude::*;

verus! {

/// The contents of the file that `httpee init` writes.
pub const DEFAULT_CONFIG: &'static str = "dirs = []\nadditional-configs = [\n    # \"httpee.local.toml\"\n]\n\n[variables]\n";

#[verifier::external_type_specification]
#[verifier::external_body]
pub struct ExTomlValue(toml::Value);

/// `<toml::Value as Clone>::clone`. The impl is derived, so the copy holds
/// the same value as the one cloned; that is all this claims.
pub assume_specification[ <toml::Value as core::clone::Clone>::clone ](v: &toml::Value) -> (r: toml::Value)
    ensures
        r == *v,
;

/// A template variable. Strings, integers and booleans are held as plain
/// values; any other TOML value (float, date, array, table) is carried as it
/// was read.
#[derive(Debug, Clone, PartialEq)]
pub enum TemplateValue {
    Text(String),
    Integer(i64),
    Boolean(bool),
    Other(toml::Value),
}

impl TemplateValue {
    /// A copy of this value.
    pub fn duplicate(&self) -> (r: TemplateValue)
        ensures
            r == *self,
    {
        match self {
            TemplateValue::Text(s) => TemplateValue::Text(s.clone()),
            TemplateValue::Integer(i) => TemplateValue::Integer(*i),
            TemplateValue::Boolean(b) => TemplateValue::Boolean(*b),
            TemplateValue::Other(v) => TemplateValue::Other(v.clone()),
        }
    }
}

/// A set of named variables: each name occurs once.
pub struct Variables {
    entries: Vec<(String, TemplateValue)>,
}

/// The map that a list of distinct-keyed entries stands for.
pub open spec fn entries_map(entries: Seq<(String, TemplateValue)>) -> Map<Seq<char>, TemplateValue> {
    Map::new(
        |k: Seq<char>| exists|i: int| 0 <= i < entries.len() && (#[trigger] entries[i]).0@ == k,
        |k: Seq<char>|
            entries[choose|i: int| 0 <= i < entries.len() && (#[trigger] entries[i]).0@ == k].1,
    )
}

/// No two entries share a name.
pub open spec fn distinct_names(entries: Seq<(String, TemplateValue)>) -> bool {
    forall|i: int, j: int|
        0 <= i < entries.len() && 0 <= j < entries.len() && i != j ==> (#[trigger] entries[i]).0@
            != (#[trigger] entries[j]).0@
}

proof fn lemma_entries_map_at(entries: Seq<(String, TemplateValue)>, i: int)
    requires
        distinct_names(entries),
        0 <= i < entries.len(),
    ensures
        entries_map(entries).dom().contains(entries[i].0@),
        entries_map(entries)[entries[i].0@] == entries[i].1,
{
    let k = entries[i].0@;
    assert(entries_map(entries).dom().contains(k));
    let c = choose|c: int| 0 <= c < entries.len() && (#[trigger] entries[c]).0@ == k;
    assert(c == i);
}

proof fn lemma_entries_map_update(entries: Seq<(String, TemplateValue)>, i: int, e: (String, TemplateValue))
    requires
        distinct_names(entries),
        0 <= i < entries.len(),
        entries[i].0@ == e.0@,
    ensures
        distinct_names(entries.update(i, e)),
        entries_map(entries.update(i, e)) == entries_map(entries).insert(e.0@, e.1),
{
    let s2 = entries.update(i, e);
    assert(distinct_names(s2)) by {
        assert forall|a: int, b: int|
            0 <= a < s2.len() && 0 <= b < s2.len() && a != b implies (#[trigger] s2[a]).0@
            != (#[trigger] s2[b]).0@ by {
            assert(entries[a].0@ != entries[b].0@);
        }
    }
    let m1 = entries_map(s2);
    let m2 = entries_map(entries).insert(e.0@, e.1);
    assert forall|k: Seq<char>| m1.dom().contains(k) <==> m2.dom().contains(k) by {
        if m1.dom().contains(k) {
            let c = choose|c: int| 0 <= c < s2.len() && (#[trigger] s2[c]).0@ == k;
            if c != i {
                assert(entries[c].0@ == k);
            }
        }
        if m2.dom().contains(k) && k != e.0@ {
            let c = choose|c: int| 0 <= c < entries.len() && (#[trigger] entries[c]).0@ == k;
            assert(s2[c].0@ == k);
        }
        if k == e.0@ {
            assert(s2[i].0@ == k);
        }
    }
    assert forall|k: Seq<char>| m1.dom().contains(k) implies m1[k] == m2[k] by {
        let c = choose|c: int| 0 <= c < s2.len() && (#[trigger] s2[c]).0@ == k;
        lemma_entries_map_at(s2, c);
        if c != i {
            assert(entries[c] == s2[c]);
            lemma_entries_map_at(entries, c);
        }
    }
    assert(m1 =~= m2);
}

proof fn lemma_entries_map_push(entries: Seq<(String, TemplateValue)>, e: (String, TemplateValue))
    requires
        distinct_names(entries),
        !entries_map(entries).dom().contains(e.0@),
    ensures
        distinct_names(entries.push(e)),
        entries_map(entries.push(e)) == entries_map(entries).insert(e.0@, e.1),
{
    let s2 = entries.push(e);
    assert(distinct_names(s2)) by {
        assert forall|a: int, b: int|
            0 <= a < s2.len() && 0 <= b < s2.len() && a != b implies (#[trigger] s2[a]).0@
            != (#[trigger] s2[b]).0@ by {
            if a < entries.len() && b < entries.len() {
                assert(entries[a].0@ != entries[b].0@);
            } else if a < entries.len() {
                assert(entries[a].0@ == s2[a].0@);
            } else {
                assert(entries[b].0@ == s2[b].0@);
            }
        }
    }
    let m1 = entries_map(s2);
    let m2 = entries_map(entries).insert(e.0@, e.1);
    assert forall|k: Seq<char>| m1.dom().contains(k) <==> m2.dom().contains(k) by {
        if m1.dom().contains(k) {
            let c = choose|c: int| 0 <= c < s2.len() && (#[trigger] s2[c]).0@ == k;
            if c < entries.len() {
                assert(entries[c].0@ == k);
            }
        }
        if m2.dom().contains(k) && k != e.0@ {
            let c = choose|c: int| 0 <= c < entries.len() && (#[trigger] entries[c]).0@ == k;
            assert(s2[c].0@ == k);
        }
        if k == e.0@ {
            assert(s2[entries.len() as int].0@ == k);
        }
    }
    assert forall|k: Seq<char>| m1.dom().contains(k) implies m1[k] == m2[k] by {
        let c = choose|c: int| 0 <= c < s2.len() && (#[trigger] s2[c]).0@ == k;
        lemma_entries_map_at(s2, c);
        if c < entries.len() {
            assert(entries[c] == s2[c]);
            lemma_entries_map_at(entries, c);
        }
    }
    assert(m1 =~= m2);
}

impl View for Variables {
    type V = Map<Seq<char>, TemplateValue>;

    closed spec fn view(&self) -> Map<Seq<char>, TemplateValue> {
        entries_map(self.entries@)
    }
}

impl Variables {
    #[verifier::type_invariant]
    closed spec fn names_are_distinct(self) -> bool {
        distinct_names(self.entries@)
    }

    /// The entries in the order in which their names were first set.
    pub closed spec fn entries(self) -> Seq<(String, TemplateValue)> {
        self.entries@
    }

    /// No variables.
    pub fn new() -> (r: Variables)
        ensures
            r@ == Map::<Seq<char>, TemplateValue>::empty(),
    {
        let r = Variables { entries: Vec::new() };
        assert(r@ =~= Map::<Seq<char>, TemplateValue>::empty());
        r
    }

    /// The number of variables.
    pub fn len(&self) -> (n: usize)
        ensures
            n == self@.dom().len(),
            n == self.entries().len(),
    {
        proof {
            use_type_invariant(self);
            lemma_entries_map_finite(self.entries@);
        }
        self.entries.len()
    }

    /// The entries, in the order in which their names were first set.
    pub fn as_slice(&self) -> (r: &[(String, TemplateValue)])
        ensures
            r@ == self.entries(),
            distinct_names(r@),
            self@ == entries_map(r@),
    {
        proof {
            use_type_invariant(self);
        }
        self.entries.as_slice()
    }

    /// The position of the entry named `name`.
    fn position(&self, name: &str) -> (r: Option<usize>)
        ensures
            match r {
                Some(i) => i < self.entries@.len() && self.entries@[i as int].0@ == name@,
                None => !self@.dom().contains(name@),
            },
    {
        let mut i: usize = 0;
        while i < self.entries.len()
            invariant
                i <= self.entries@.len(),
                forall|t: int| 0 <= t < i ==> (#[trigger] self.entries@[t]).0@ != name@,
            decreases self.entries@.len() - i,
        {
            if crate::text::str_eq(self.entries[i].0.as_str(), name) {
                return Some(i);
            }
            i = i + 1;
        }
        None
    }

    /// The value of the variable `name`, if it is set.
    pub fn get(&self, name: &str) -> (r: Option<&TemplateValue>)
        ensures
            match r {
                Some(v) => self@.dom().contains(name@) && *v == self@[name@],
                None => !self@.dom().contains(name@),
            },
    {
        proof {
            use_type_invariant(self);
        }
        match self.position(name) {
            Some(i) => {
                proof {
                    lemma_entries_map_at(self.entries@, i as int);
                }
                Some(&self.entries[i].1)
            },
            None => None,
        }
    }

    /// Sets `name` to `value`, replacing any earlier value.
    pub fn insert(&mut self, name: String, value: TemplateValue)
        ensures
            final(self)@ == old(self)@.insert(name@, value),
    {
        proof {
            use_type_invariant(&*self);
        }
        match self.position(name.as_str()) {
            Some(i) => {
                proof {
                    lemma_entries_map_update(self.entries@, i as int, (name, value));
                }
                let mut entries = Vec::new();
                std::mem::swap(&mut entries, &mut self.entries);
                entries.set(i, (name, value));
                self.entries = entries;
            },
            None => {
                proof {
                    lemma_entries_map_push(self.entries@, (name, value));
                }
                let mut entries = Vec::new();
                std::mem::swap(&mut entries, &mut self.entries);
                entries.push((name, value));
                self.entries = entries;
            },
        }
    }

    /// A copy of these variables.
    pub fn duplicate(&self) -> (r: Variables)
        ensures
            r@ == self@,
    {
        let mut r = Variables::new();
        r.extend_from(self);
        assert(Map::<Seq<char>, TemplateValue>::empty().union_prefer_right(self@) =~= self@);
        r
    }

    /// Sets every variable of `other` here, its values winning over ours.
    pub fn extend_from(&mut self, other: &Variables)
        ensures
            final(self)@ == old(self)@.union_prefer_right(other@),
    {
        proof {
            use_type_invariant(other);
        }
        let ghost start = self@;
        let mut i: usize = 0;
        while i < other.entries.len()
            invariant
                i <= other.entries@.len(),
                distinct_names(other.entries@),
                self@ == start.union_prefer_right(entries_map(other.entries@.take(i as int))),
            decreases other.entries@.len() - i,
        {
            let name = other.entries[i].0.clone();
            let value = other.entries[i].1.duplicate();
            self.insert(name, value);
            proof {
                lemma_entries_map_take(other.entries@, i as int);
            }
            i = i + 1;
        }
        assert(other.entries@.take(other.entries@.len() as int) =~= other.entries@);
    }
}

proof fn lemma_entries_map_finite(entries: Seq<(String, TemplateValue)>)
    requires
        distinct_names(entries),
    ensures
        entries_map(entries).dom().finite(),
        entries_map(entries).dom().len() == entries.len(),
    decreases entries.len(),
{
    if entries.len() == 0 {
        assert(entries_map(entries).dom() =~= Set::empty());
    } else {
        let init = entries.drop_last();
        assert(distinct_names(init)) by {
            assert forall|a: int, b: int|
                0 <= a < init.len() && 0 <= b < init.len() && a != b implies (#[trigger] init[a]).0@
                != (#[trigger] init[b]).0@ by {
                assert(entries[a].0@ != entries[b].0@);
            }
        }
        lemma_entries_map_finite(init);
        let last = entries.last();
        assert(!entries_map(init).dom().contains(last.0@)) by {
            if entries_map(init).dom().contains(last.0@) {
                let c = choose|c: int| 0 <= c < init.len() && (#[trigger] init[c]).0@ == last.0@;
                assert(entries[c].0@ == entries[entries.len() - 1].0@);
            }
        }
        lemma_entries_map_push(init, last);
        assert(init.push(last) =~= entries);
    }
}

proof fn lemma_entries_map_take(entries: Seq<(String, TemplateValue)>, i: int)
    requires
        distinct_names(entries),
        0 <= i < entries.len(),
    ensures
        entries_map(entries.take(i + 1)) == entries_map(entries.take(i)).insert(
            entries[i].0@,
            entries[i].1,
        ),
{
    let init = entries.take(i);
    assert(distinct_names(init)) by {
        assert forall|a: int, b: int|
            0 <= a < init.len() && 0 <= b < init.len() && a != b implies (#[trigger] init[a]).0@
            != (#[trigger] init[b]).0@ by {
            assert(entries[a].0@ != entries[b].0@);
        }
    }
    assert(!entries_map(init).dom().contains(entries[i].0@)) by {
        if entries_map(init).dom().contains(entries[i].0@) {
            let c = choose|c: int| 0 <= c < init.len() && (#[trigger] init[c]).0@ == entries[i].0@;
            assert(entries[c].0@ == entries[i].0@);
        }
    }
    lemma_entries_map_push(init, entries[i]);
    assert(init.push(entries[i]) =~= entries.take(i + 1));
}

/// The directory names held by a list of strings.
pub open spec fn dir_names(dirs: Seq<String>) -> Seq<Seq<char>> {
    dirs.map_values(|d: String| d@)
}

/// `a` followed by each directory of `b` that is not yet listed, in order.
pub open spec fn union_dirs(a: Seq<Seq<char>>, b: Seq<Seq<char>>) -> Seq<Seq<char>>
    decreases b.len(),
{
    if b.len() == 0 {
        a
    } else {
        let u = union_dirs(a, b.drop_last());
        if u.contains(b.last()) {
            u
        } else {
            u.push(b.last())
        }
    }
}

/// The project configuration read from `httpee.toml` and the files it names.
pub struct Config {
    pub dirs: Vec<String>,
    pub variables: Variables,
    pub additional_configs: Vec<String>,
}

/// Whether `dir` is listed in `dirs`.
fn lists_dir(dirs: &Vec<String>, dir: &String) -> (r: bool)
    ensures
        r == dir_names(dirs@).contains(dir@),
{
    let mut i: usize = 0;
    while i < dirs.len()
        invariant
            i <= dirs@.len(),
            forall|t: int| 0 <= t < i ==> dirs@[t]@ != dir@,
        decreases dirs@.len() - i,
    {
        if dirs[i] == *dir {
            assert(dir_names(dirs@)[i as int] == dir@);
            return true;
        }
        i = i + 1;
    }
    assert forall|t: int| 0 <= t < dir_names(dirs@).len() implies dir_names(dirs@)[t] != dir@ by {
        assert(dirs@[t]@ != dir@);
    }
    false
}

impl Config {
    /// Layers `other` over this configuration: its variables win over ours,
    /// and its directories are added after ours, each listed once.
    pub fn merge(&mut self, other: &Config)
        ensures
            final(self).variables@ == old(self).variables@.union_prefer_right(other.variables@),
            dir_names(final(self).dirs@) == union_dirs(dir_names(old(self).dirs@), dir_names(other.dirs@)),
            final(self).additional_configs@ == old(self).additional_configs@,
    {
        self.variables.extend_from(&other.variables);
        let ghost start = dir_names(self.dirs@);
        let ghost theirs = dir_names(other.dirs@);
        let ghost vars = self.variables@;
        let ghost extra = self.additional_configs@;
        let mut i: usize = 0;
        while i < other.dirs.len()
            invariant
                i <= other.dirs@.len(),
                theirs == dir_names(other.dirs@),
                dir_names(self.dirs@) == union_dirs(start, theirs.take(i as int)),
                self.variables@ == vars,
                self.additional_configs@ == extra,
            decreases other.dirs@.len() - i,
        {
            assert(theirs.take(i + 1).drop_last() =~= theirs.take(i as int));
            assert(theirs.take(i + 1).last() == other.dirs@[i as int]@);
            if !lists_dir(&self.dirs, &other.dirs[i]) {
                self.dirs.push(other.dirs[i].clone());
                assert(dir_names(self.dirs@) =~= union_dirs(start, theirs.take(i + 1)));
            }
            i = i + 1;
        }
        assert(theirs.take(other.dirs@.len() as int) =~= theirs);
    }
}

impl Default for Config {
    /// A configuration with no directories, variables or additional files.
    fn default() -> (r: Config)
        ensures
            r.dirs@.len() == 0,
            r.variables@ == Map::<Seq<char>, TemplateValue>::empty(),
            r.additional_configs@.len() == 0,
    {
        Config { dirs: Vec::new(), variables: Variables::new(), additional_configs: Vec::new() }
    }
}

proof fn lemma_union_dirs_members(a: Seq<Seq<char>>, b: Seq<Seq<char>>)
    ensures
        forall|x: Seq<char>| #[trigger] union_dirs(a, b).contains(x) <==> a.contains(x) || b.contains(x),
        union_dirs(a, b).len() >= a.len(),
        union_dirs(a, b).take(a.len() as int) == a,
        a.no_duplicates() ==> union_dirs(a, b).no_duplicates(),
    decreases b.len(),
{
    if b.len() > 0 {
        let init = b.drop_last();
        lemma_union_dirs_members(a, init);
        let u = union_dirs(a, init);
        assert forall|x: Seq<char>| #[trigger] union_dirs(a, b).contains(x) <==> a.contains(x) || b.contains(x) by {
            if b.contains(x) && !init.contains(x) {
                let k = choose|k: int| 0 <= k < b.len() && b[k] == x;
                if k < b.len() - 1 {
                    assert(init[k] == x);
                }
                assert(x == b.last());
                if !u.contains(x) {
                    assert(u.push(x)[u.len() as int] == x);
                }
            }
            if init.contains(x) {
                let k = choose|k: int| 0 <= k < init.len() && init[k] == x;
                assert(b[k] == x);
            }
            if union_dirs(a, b).contains(x) && !u.contains(x) {
                let k = choose|k: int| 0 <= k < u.push(b.last()).len() && u.push(b.last())[k] == x;
                assert(x == b.last());
                assert(b[b.len() - 1] == x);
            }
            if u.contains(x) && !u.contains(b.last()) {
                let k = choose|k: int| 0 <= k < u.len() && u[k] == x;
                assert(u.push(b.last())[k] == x);
            }
        }
        if !u.contains(b.last()) {
            assert(u.push(b.last()).take(a.len() as int) =~= u.take(a.len() as int));
        }
    }
}

proof fn lemma_union_dirs_absorbs(u: Seq<Seq<char>>, b: Seq<Seq<char>>)
    requires
        forall|x: Seq<char>| b.contains(x) ==> u.contains(x),
    ensures
        union_dirs(u, b) == u,
    decreases b.len(),
{
    if b.len() > 0 {
        let init = b.drop_last();
        assert forall|x: Seq<char>| init.contains(x) implies u.contains(x) by {
            let k = choose|k: int| 0 <= k < init.len() && init[k] == x;
            assert(b[k] == x);
        }
        lemma_union_dirs_absorbs(u, init);
        assert(b.contains(b.last())) by {
            assert(b[b.len() - 1] == b.last());
        }
    }
}

/// Layering configurations: after `merge`, the directories are ours followed
/// by the new ones of the other configuration; a directory is listed iff one
/// of the two listed it; none is listed twice if ours were distinct; and
/// merging the same configuration a second time changes nothing.
pub proof fn law_merge_directories(ours: Seq<Seq<char>>, theirs: Seq<Seq<char>>)
    ensures
        union_dirs(ours, theirs).take(ours.len() as int) == ours,
        forall|x: Seq<char>|
            #[trigger] union_dirs(ours, theirs).contains(x) <==> ours.contains(x) || theirs.contains(x),
        ours.no_duplicates() ==> union_dirs(ours, theirs).no_duplicates(),
        union_dirs(union_dirs(ours, theirs), theirs) == union_dirs(ours, theirs),
{
    lemma_union_dirs_members(ours, theirs);
    lemma_union_dirs_absorbs(union_dirs(ours, theirs), theirs);
}

/// Layering configurations: after `merge`, a variable has the other
/// configuration's value where it sets one and ours elsewhere; merging the
/// same configuration a second time changes nothing.
pub proof fn law_merge_variables(ours: Map<Seq<char>, TemplateValue>, theirs: Map<Seq<char>, TemplateValue>)
    ensures
        forall|k: Seq<char>| #[trigger] theirs.dom().contains(k) ==> ours.union_prefer_right(theirs)[k] == theirs[k],
        forall|k: Seq<char>|
            ours.dom().contains(k) && !theirs.dom().contains(k) ==> #[trigger] ours.union_prefer_right(theirs)[k]
                == ours[k],
        ours.union_prefer_right(theirs).dom() == ours.dom().union(theirs.dom()),
        ours.union_prefer_right(theirs).union_prefer_right(theirs) == ours.union_prefer_right(theirs),
{
    assert(ours.union_prefer_right(theirs).dom() =~= ours.dom().union(theirs.dom()));
    assert(ours.union_prefer_right(theirs).union_prefer_right(theirs) =~= ours.union_prefer_right(theirs));
}

} // verus!
