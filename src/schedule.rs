use vstd::prelude::*;
use crate::column::SubstitutionColumn;
use crate::date::{extract_issue_date, issue_date};
use crate::error::PDFJsonError;
use crate::table::{
    build_column, class_names, column_of, distinct_classes, entries_map, entries_view, group_bounds,
    group_end, group_start, keys_unique, lemma_entries_map, table_map, texts, well_shaped, LESSON_GROUPS,
};

verus! {

/// Every table of a list has the shape of a substitution table.
pub open spec fn all_well_shaped(ts: Seq<Seq<Seq<Seq<char>>>>) -> bool {
    forall|i: int| 0 <= i < ts.len() ==> well_shaped(#[trigger] ts[i])
}

/// The classes of several tables merged in order: where two tables name the
/// same class, the later table's column wins.
pub open spec fn tables_map(ts: Seq<Seq<Seq<Seq<char>>>>) -> Map<Seq<char>, Seq<Option<Seq<char>>>>
    decreases ts.len(),
{
    if ts.len() == 0 {
        Map::empty()
    } else {
        tables_map(ts.drop_last()).union_prefer_right(table_map(ts.last()))
    }
}

/// Relies on std's `SystemTime::now` and `duration_since(UNIX_EPOCH)`: the
/// current wall-clock time in milliseconds since the Unix epoch, 0 for a clock
/// set before the epoch. Nothing is known of the value.
#[verifier::external_body]
fn now_millis() -> (r: u64) {
    match std::time::SystemTime::now().duration_since(std::time::SystemTime::UNIX_EPOCH) {
        Ok(d) => d.as_millis() as u64,
        Err(_) => 0,
    }
}

/// Inserts or replaces the entry for `name`.
fn upsert(entries: &mut Vec<(String, SubstitutionColumn)>, name: String, col: SubstitutionColumn)
    requires
        keys_unique(entries_view(old(entries)@)),
    ensures
        keys_unique(entries_view(final(entries)@)),
        entries_map(entries_view(final(entries)@)) == entries_map(entries_view(old(entries)@)).insert(name@, col@),
{
    let ghost s = entries_view(entries@);
    let mut i: usize = 0;
    while i < entries.len()
        invariant
            s == entries_view(entries@),
            s == entries_view(old(entries)@),
            keys_unique(s),
            i <= entries.len(),
            forall|k: int| 0 <= k < i ==> (#[trigger] s[k]).0 != name@,
        decreases entries.len() - i,
    {
        if entries[i].0 == name {
            let ghost e = (name@, col@);
            assert(s[i as int].0 == name@);
            entries.set(i, (name, col));
            proof {
                let n = entries_view(entries@);
                assert(n =~= s.update(i as int, e));
                assert(keys_unique(n)) by {
                    assert forall|a: int, b: int| 0 <= a < n.len() && 0 <= b < n.len() && a != b implies n[a].0 != n[b].0 by {
                        if a != i && b != i {
                            assert(n[a] == s[a] && n[b] == s[b]);
                        } else if a == i {
                            assert(n[b] == s[b]);
                        } else {
                            assert(n[a] == s[a]);
                        }
                    }
                }
                lemma_entries_map(s);
                lemma_entries_map(n);
                let m = entries_map(s).insert(e.0, e.1);
                assert forall|c: Seq<char>| entries_map(n).contains_key(c) <==> m.contains_key(c) by {
                    if entries_map(n).contains_key(c) {
                        let k = choose|k: int| 0 <= k < n.len() && n[k].0 == c;
                        if k != i {
                            assert(s[k] == n[k]);
                        }
                    }
                    if entries_map(s).contains_key(c) {
                        let k = choose|k: int| 0 <= k < s.len() && s[k].0 == c;
                        assert(n[k].0 == c);
                    }
                    if c == e.0 {
                        assert(n[i as int].0 == c);
                    }
                }
                assert forall|c: Seq<char>| entries_map(n).contains_key(c) implies entries_map(n)[c] == m[c] by {
                    let k = choose|k: int| 0 <= k < n.len() && n[k].0 == c;
                    assert(entries_map(n)[n[k].0] == n[k].1);
                    if k != i {
                        assert(s[k] == n[k]);
                        assert(entries_map(s)[s[k].0] == s[k].1);
                    }
                }
                assert(entries_map(n) =~= m);
                assert(entries_map(entries_view(entries@)) == entries_map(s).insert(name@, col@));
            }
            return;
        }
        i = i + 1;
    }
    let ghost e = (name@, col@);
    entries.push((name, col));
    proof {
        let n = entries_view(entries@);
        assert(n =~= s.push(e));
        assert(n.drop_last() =~= s);
        assert(keys_unique(n)) by {
            assert forall|a: int, b: int| 0 <= a < n.len() && 0 <= b < n.len() && a != b implies n[a].0 != n[b].0 by {
                if a < s.len() && b < s.len() {
                    assert(n[a] == s[a] && n[b] == s[b]);
                } else if a < s.len() {
                    assert(n[a] == s[a]);
                } else {
                    assert(n[b] == s[b]);
                }
            }
        }
    }
}

/// The schedule read from one substitution document.
#[derive(Debug)]
pub struct SubstitutionSchedule {
    /// The issue date printed in the document, in milliseconds since the Unix epoch.
    pub pdf_issue_date: i64,
    /// Each class name with its column; no name occurs twice.
    entries: Vec<(String, SubstitutionColumn)>,
    /// When the value was built, in milliseconds since the Unix epoch.
    struct_time: u64,
}

impl SubstitutionSchedule {
    /// The class entries, as (name, lesson blocks) pairs.
    pub closed spec fn entries_spec(&self) -> Seq<(Seq<char>, Seq<Option<Seq<char>>>)> {
        entries_view(self.entries@)
    }

    /// Each class name mapped to its lesson blocks.
    pub open spec fn classes(&self) -> Map<Seq<char>, Seq<Option<Seq<char>>>> {
        entries_map(self.entries_spec())
    }

    /// The issue date, in milliseconds since the Unix epoch.
    pub closed spec fn issue_date(&self) -> i64 {
        self.pdf_issue_date
    }

    /// The construction time, in milliseconds since the Unix epoch.
    pub closed spec fn struct_time_spec(&self) -> u64 {
        self.struct_time
    }

    /// No class name occurs twice.
    pub open spec fn wf(&self) -> bool {
        keys_unique(self.entries_spec())
    }

    /// The classes and their lesson blocks of one table. The table is
    /// rejected as malformed unless it has a header with a label cell, five
    /// row groups each closed by a row whose first cell starts with `-`, and
    /// rows in those groups exactly as wide as the header.
    pub fn table_to_substitutions(table: &Vec<Vec<String>>) -> (r: Result<Vec<(String, SubstitutionColumn)>, PDFJsonError>)
        ensures
            r is Ok <==> well_shaped(table.deep_view()),
            r matches Err(e) ==> e == PDFJsonError::MalformedTable,
            r matches Ok(v) ==> keys_unique(entries_view(v@)) && entries_map(entries_view(v@)) == table_map(table.deep_view()),
    {
        let bounds = match group_bounds(table) {
            Ok(b) => b,
            Err(e) => return Err(e),
        };
        let ghost t = table.deep_view();
        let names = distinct_classes(&table[0]);
        assert(texts(table@[0]@).subrange(1, table@[0]@.len() as int) =~= class_names(t));
        let mut entries: Vec<(String, SubstitutionColumn)> = Vec::new();
        let mut k: usize = 0;
        assert(forall|c: Seq<char>| texts(names@).contains(c) <==> class_names(t).contains(c));
        while k < names.len()
            invariant
                t == table.deep_view(),
                well_shaped(t),
                bounds.len() == LESSON_GROUPS,
                forall|g: int|
                    0 <= g < LESSON_GROUPS ==> (#[trigger] bounds@[g]).0 == group_start(t, g as nat)
                        && bounds@[g].1 == group_end(t, g as nat),
                k <= names.len(),
                texts(names@).no_duplicates(),
                forall|c: Seq<char>|
                    texts(names@).contains(c) <==> class_names(t).contains(c),
                entries.len() == k,
                forall|i: int| 0 <= i < k ==> (#[trigger] entries_view(entries@)[i]) == (names@[i]@, column_of(t, names@[i]@)),
            decreases names.len() - k,
        {
            let col = build_column(table, &bounds, &names[k]);
            let name = names[k].clone();
            let ghost before = entries_view(entries@);
            entries.push((name, col));
            assert(entries_view(entries@) =~= before.push((names@[k as int]@, column_of(t, names@[k as int]@))));
            k = k + 1;
        }
        proof {
            let s = entries_view(entries@);
            let ns = texts(names@);
            assert forall|a: int, b: int| 0 <= a < s.len() && 0 <= b < s.len() && a != b implies s[a].0 != s[b].0 by {
                assert(s[a].0 == ns[a] && s[b].0 == ns[b]);
            }
            lemma_entries_map(s);
            let m = table_map(t);
            assert forall|c: Seq<char>| entries_map(s).contains_key(c) <==> m.contains_key(c) by {
                if entries_map(s).contains_key(c) {
                    let i = choose|i: int| 0 <= i < s.len() && s[i].0 == c;
                    assert(ns[i] == c);
                }
                if m.contains_key(c) {
                    assert(ns.contains(c));
                    let i = choose|i: int| 0 <= i < ns.len() && ns[i] == c;
                    assert(s[i].0 == c);
                }
            }
            assert forall|c: Seq<char>| entries_map(s).contains_key(c) implies entries_map(s)[c] == m[c] by {
                let i = choose|i: int| 0 <= i < s.len() && s[i].0 == c;
                assert(entries_map(s)[s[i].0] == s[i].1);
                assert(ns[i] == c);
                assert(ns.contains(c));
                assert(m.contains_key(c));
            }
            assert(entries_map(s) =~= m);
        }
        Ok(entries)
    }

    /// Builds a schedule from the tables of one document, its issue date and
    /// the construction time `time_millis`. Classes of later tables replace
    /// those of the same name in earlier ones. Fails with `MalformedTable`
    /// exactly when one of the tables is malformed.
    pub fn from_table_at(tables: &Vec<Vec<Vec<String>>>, pdf_create_date: i64, time_millis: u64) -> (r: Result<Self, PDFJsonError>)
        ensures
            r is Ok <==> all_well_shaped(tables.deep_view()),
            r matches Err(e) ==> e == PDFJsonError::MalformedTable,
            r matches Ok(s) ==> s.wf() && s.issue_date() == pdf_create_date && s.struct_time_spec() == time_millis
                && s.classes() == tables_map(tables.deep_view()),
    {
        let ghost ts = tables.deep_view();
        let mut entries: Vec<(String, SubstitutionColumn)> = Vec::new();
        let mut i: usize = 0;
        assert(ts.subrange(0, 0) =~= Seq::<Seq<Seq<Seq<char>>>>::empty());
        assert(entries_map(entries_view(entries@)) =~= Map::empty());
        while i < tables.len()
            invariant
                ts == tables.deep_view(),
                i <= tables.len(),
                keys_unique(entries_view(entries@)),
                entries_map(entries_view(entries@)) == tables_map(ts.subrange(0, i as int)),
                forall|k: int| 0 <= k < i ==> well_shaped(#[trigger] ts[k]),
            decreases tables.len() - i,
        {
            assert(ts[i as int] == tables@[i as int].deep_view());
            let mut v = match Self::table_to_substitutions(&tables[i]) {
                Ok(v) => v,
                Err(e) => {
                    assert(!all_well_shaped(ts));
                    return Err(e);
                },
            };
            let ghost vs = entries_view(v@);
            let ghost base = entries_map(entries_view(entries@));
            let ghost n = v.len();
            let mut k: usize = 0;
            assert(vs.subrange(0, 0) =~= Seq::<(Seq<char>, Seq<Option<Seq<char>>>)>::empty());
            assert(base.union_prefer_right(Map::empty()) =~= base);
            assert(entries_view(v@) =~= vs.subrange(0, n as int));
            while v.len() > 0
                invariant
                    n == vs.len(),
                    k + v.len() == n,
                    entries_view(v@) == vs.subrange(k as int, n as int),
                    keys_unique(entries_view(entries@)),
                    entries_map(entries_view(entries@)) == base.union_prefer_right(entries_map(vs.subrange(0, k as int))),
                decreases v.len(),
            {
                let ghost before = v@;
                let (name, col) = v.remove(0);
                proof {
                    assert(entries_view(before)[0] == vs[k as int]);
                    assert forall|j: int| 0 <= j < v@.len() implies #[trigger] entries_view(v@)[j] == vs.subrange(k + 1, n as int)[j] by {
                        assert(v@[j] == before[j + 1]);
                        assert(entries_view(before)[j + 1] == vs.subrange(k as int, n as int)[j + 1]);
                    }
                    assert(entries_view(v@) =~= vs.subrange(k + 1, n as int));
                    assert(vs.subrange(0, k + 1).drop_last() =~= vs.subrange(0, k as int));
                }
                let ghost m = entries_map(vs.subrange(0, k as int));
                upsert(&mut entries, name, col);
                proof {
                    assert(base.union_prefer_right(m.insert(vs[k as int].0, vs[k as int].1))
                        =~= base.union_prefer_right(m).insert(vs[k as int].0, vs[k as int].1));
                }
                k = k + 1;
            }
            proof {
                assert(vs.subrange(0, n as int) =~= vs);
                assert(ts.subrange(0, i + 1).drop_last() =~= ts.subrange(0, i as int));
            }
            i = i + 1;
        }
        assert(ts.subrange(0, tables.len() as int) =~= ts);
        Ok(SubstitutionSchedule { pdf_issue_date: pdf_create_date, entries, struct_time: time_millis })
    }

    /// Builds a schedule from the tables of one document and its issue date,
    /// stamped with the current time; see `from_table_at`.
    pub fn from_table(tables: &Vec<Vec<Vec<String>>>, pdf_create_date: i64) -> (r: Result<Self, PDFJsonError>)
        ensures
            r is Ok <==> all_well_shaped(tables.deep_view()),
            r matches Err(e) ==> e == PDFJsonError::MalformedTable,
            r matches Ok(s) ==> s.wf() && s.issue_date() == pdf_create_date
                && s.classes() == tables_map(tables.deep_view()),
    {
        let time_millis = now_millis();
        Self::from_table_at(tables, pdf_create_date, time_millis)
    }

    /// Builds a schedule from a document's text, which carries the issue
    /// date after its `Datum: ` label, and the tables extracted from it. A
    /// missing or malformed date is reported before the tables are read.
    pub fn from_document(text: &str, tables: &Vec<Vec<Vec<String>>>) -> (r: Result<Self, PDFJsonError>)
        ensures
            issue_date(text@) matches Err(e) ==> r == Err::<Self, PDFJsonError>(e),
            issue_date(text@) is Ok ==> (r is Ok <==> all_well_shaped(tables.deep_view())),
            r matches Err(e) ==> issue_date(text@) == Err::<int, PDFJsonError>(e) || e == PDFJsonError::MalformedTable,
            r matches Ok(s) ==> s.wf() && issue_date(text@) == Ok::<int, PDFJsonError>(s.issue_date() as int)
                && s.classes() == tables_map(tables.deep_view()),
    {
        let date = match extract_issue_date(text) {
            Ok(d) => d,
            Err(e) => return Err(e),
        };
        Self::from_table(tables, date)
    }

    /// A schedule with the given issue date, class entries and construction
    /// time; where a class name occurs more than once the last entry wins.
    pub fn from_entries(pdf_issue_date: i64, entries: Vec<(String, SubstitutionColumn)>, struct_time: u64) -> (r: Self)
        ensures
            r.wf(),
            r.issue_date() == pdf_issue_date,
            r.struct_time_spec() == struct_time,
            r.classes() == entries_map(entries_view(entries@)),
    {
        let ghost vs = entries_view(entries@);
        let ghost n = entries.len();
        let mut rest = entries;
        let mut merged: Vec<(String, SubstitutionColumn)> = Vec::new();
        let mut k: usize = 0;
        assert(vs.subrange(0, 0) =~= Seq::<(Seq<char>, Seq<Option<Seq<char>>>)>::empty());
        assert(entries_view(merged@) =~= Seq::<(Seq<char>, Seq<Option<Seq<char>>>)>::empty());
        assert(entries_view(rest@) =~= vs.subrange(0, n as int));
        while rest.len() > 0
            invariant
                n == vs.len(),
                k + rest.len() == n,
                entries_view(rest@) == vs.subrange(k as int, n as int),
                keys_unique(entries_view(merged@)),
                entries_map(entries_view(merged@)) == entries_map(vs.subrange(0, k as int)),
            decreases rest.len(),
        {
            let ghost before = rest@;
            let (name, col) = rest.remove(0);
            proof {
                assert(entries_view(before)[0] == vs[k as int]);
                assert forall|j: int| 0 <= j < rest@.len() implies #[trigger] entries_view(rest@)[j] == vs.subrange(k + 1, n as int)[j] by {
                    assert(rest@[j] == before[j + 1]);
                    assert(entries_view(before)[j + 1] == vs.subrange(k as int, n as int)[j + 1]);
                }
                assert(entries_view(rest@) =~= vs.subrange(k + 1, n as int));
                assert(vs.subrange(0, k + 1).drop_last() =~= vs.subrange(0, k as int));
            }
            upsert(&mut merged, name, col);
            k = k + 1;
        }
        assert(vs.subrange(0, n as int) =~= vs);
        SubstitutionSchedule { pdf_issue_date, entries: merged, struct_time }
    }

    /// The construction time, in milliseconds since the Unix epoch.
    pub fn struct_time(&self) -> (r: u64)
        ensures
            r == self.struct_time_spec(),
    {
        self.struct_time
    }

    /// The class entries, as (name, column) pairs.
    pub fn entries(&self) -> (r: &Vec<(String, SubstitutionColumn)>)
        ensures
            entries_view(r@) == self.entries_spec(),
    {
        &self.entries
    }

    /// The column of class `name`, if the schedule has that class.
    pub fn class_column(&self, name: &String) -> (r: Option<&SubstitutionColumn>)
        requires
            self.wf(),
        ensures
            r is Some <==> self.classes().contains_key(name@),
            r matches Some(c) ==> c@ == self.classes()[name@],
    {
        let mut i: usize = 0;
        proof {
            lemma_entries_map(self.entries_spec());
        }
        while i < self.entries.len()
            invariant
                self.wf(),
                i <= self.entries.len(),
                forall|k: int| 0 <= k < i ==> (#[trigger] self.entries_spec()[k]).0 != name@,
            decreases self.entries.len() - i,
        {
            assert(self.entries_spec()[i as int] == (self.entries@[i as int].0@, self.entries@[i as int].1@));
            if self.entries[i].0 == *name {
                proof {
                    lemma_entries_map(self.entries_spec());
                    assert(self.classes()[self.entries_spec()[i as int].0] == self.entries_spec()[i as int].1);
                }
                return Some(&self.entries[i].1);
            }
            i = i + 1;
        }
        proof {
            lemma_entries_map(self.entries_spec());
            if self.classes().contains_key(name@) {
                let k = choose|k: int| 0 <= k < self.entries_spec().len() && self.entries_spec()[k].0 == name@;
            }
        }
        None
    }
}

} // verus!
