//! The tables that a query can name.

use crate::error::{ErrorView, SparkXError};
use crate::text::{
    before, before_is_strict, before_is_transitive, in_order, join, lowercase, relate,
    small_letters, text_views, Relation,
};
use crate::types::{Schema, SchemaView};
use vstd::prelude::*;

verus! {

/// What planning reads of a table.
#[derive(Debug, PartialEq, Eq)]
pub struct Table {
    pub schema: Schema,
    pub partition_count: usize,
}

pub struct TableView {
    pub schema: SchemaView,
    pub partition_count: usize,
}

impl View for Table {
    type V = TableView;

    open spec fn view(&self) -> TableView {
        TableView { schema: self.schema@, partition_count: self.partition_count }
    }
}

impl Clone for Table {
    fn clone(&self) -> (r: Self)
        ensures
            r@ == self@,
    {
        Table { schema: self.schema.clone(), partition_count: self.partition_count }
    }
}

#[derive(Debug)]
struct Entry {
    name: String,
    table: Table,
}

/// The tables of a session, by their names. Names are the same whatever their ASCII case.
#[derive(Debug)]
pub struct Catalog {
    entries: Vec<Entry>,
}

spec fn names_of(entries: Seq<Entry>) -> Seq<Seq<char>> {
    Seq::new(entries.len(), |i: int| entries[i].name@)
}

impl View for Catalog {
    type V = Map<Seq<char>, TableView>;

    closed spec fn view(&self) -> Map<Seq<char>, TableView> {
        entries_map(self.entries@)
    }
}

spec fn entries_map(entries: Seq<Entry>) -> Map<Seq<char>, TableView> {
    Map::new(
        |name: Seq<char>| names_of(entries).contains(name),
        |name: Seq<char>| entries[names_of(entries).index_of(name)].table@,
    )
}

/// Names in order occur once.
proof fn index_is(names: Seq<Seq<char>>, i: int)
    requires
        in_order(names),
        0 <= i < names.len(),
    ensures
        names.contains(names[i]),
        names.index_of(names[i]) == i,
{
    let j = names.index_of(names[i]);
    before_is_strict(names[i], names[i]);
    if i < j {
        assert(before(names[i], names[j]));
    } else if j < i {
        assert(before(names[j], names[i]));
    }
}

/// The error of a name without a table.
pub open spec fn no_table_failure(name: Seq<char>) -> ErrorView {
    ErrorView::NotFound("table '"@ + name + "'"@)
}

pub fn no_table(name: &str) -> (r: SparkXError)
    ensures
        r@ == no_table_failure(name@),
{
    let mut message: String = join("table '", name);
    message.append("'");
    SparkXError::NotFound(message)
}

/// The table with a name, or the error that there is none.
pub open spec fn find_table(tables: Map<Seq<char>, TableView>, name: Seq<char>) -> Result<
    TableView,
    ErrorView,
> {
    if tables.dom().contains(small_letters(name)) {
        Ok(tables[small_letters(name)])
    } else {
        Err(no_table_failure(name))
    }
}

impl Default for Catalog {
    fn default() -> (r: Self)
        ensures
            r@ == Map::<Seq<char>, TableView>::empty(),
            r.wf(),
    {
        let r = Catalog { entries: Vec::new() };
        proof {
            assert(r@ =~= Map::<Seq<char>, TableView>::empty());
        }
        r
    }
}

impl Catalog {
    /// Names stand in order, none twice.
    pub closed spec fn wf(&self) -> bool {
        in_order(names_of(self.entries@))
    }

    fn locate(&self, name: &str) -> (r: (usize, bool))
        requires
            self.wf(),
        ensures
            r.0 <= self.entries.len(),
            r.1 ==> r.0 < self.entries.len() && self.entries@[r.0 as int].name@ == name@,
            r.1 == self@.dom().contains(name@),
            forall|k: int| 0 <= k < r.0 ==> before(#[trigger] names_of(self.entries@)[k], name@),
            !r.1 ==> forall|k: int|
                r.0 <= k < self.entries.len() ==> before(
                    name@,
                    #[trigger] names_of(self.entries@)[k],
                ),
    {
        let ghost names = names_of(self.entries@);
        let mut at: usize = 0;
        while at < self.entries.len()
            invariant
                at <= self.entries.len(),
                names == names_of(self.entries@),
                in_order(names),
                forall|k: int| 0 <= k < at ==> before(#[trigger] names[k], name@),
            decreases self.entries.len() - at,
        {
            match relate(self.entries[at].name.as_str(), name) {
                Relation::Less => {
                    proof {
                        assert(before(names[at as int], name@));
                    }
                    at += 1;
                },
                Relation::Same => {
                    proof {
                        assert(names[at as int] == name@);
                    }
                    return (at, true);
                },
                Relation::Greater => {
                    proof {
                        before_is_strict(name@, names[at as int]);
                        assert(before(name@, names[at as int]));
                        assert forall|k: int| at <= k < names.len() implies before(
                            name@,
                            #[trigger] names[k],
                        ) by {
                            if at < k {
                                before_is_transitive(name@, names[at as int], names[k]);
                            }
                        }
                        not_among(names, at as int, name@);
                    }
                    return (at, false);
                },
            }
        }
        proof {
            not_among(names, at as int, name@);
        }
        (at, false)
    }

    /// Registers a table, in place of another of the same name.
    pub fn register(&mut self, name: &str, table: Table)
        requires
            old(self).wf(),
        ensures
            final(self).wf(),
            final(self)@ == old(self)@.insert(small_letters(name@), table@),
    {
        let key = lowercase(name);
        let ghost old_entries = self.entries@;
        let ghost old_names = names_of(old_entries);
        let (at, found): (usize, bool) = self.locate(key.as_str());
        if found {
            self.entries[at].table = table;
            proof {
                assert(names_of(self.entries@) =~= old_names);
                index_is(old_names, at as int);
                assert(self@ =~= old(self)@.insert(key@, table@));
            }
        } else {
            let ghost copy = key@;
            self.entries.insert(at, Entry { name: key, table });
            proof {
                let names = names_of(self.entries@);
                assert(names =~= old_names.insert(at as int, copy));
                put_in_order(old_names, at as int, copy);
                index_is(names, at as int);
                assert forall|n: Seq<char>| #[trigger] old_names.contains(n) implies {
                    &&& names.contains(n)
                    &&& self.entries@[names.index_of(n)] == old_entries[old_names.index_of(n)]
                } by {
                    let i = old_names.index_of(n);
                    let j = if i < at { i } else { i + 1 };
                    assert(names[j] == n);
                    index_is(names, j);
                    index_is(old_names, i);
                }
                assert forall|n: Seq<char>| #[trigger] names.contains(n) implies
                    old_names.contains(n) || n == copy by {
                    let j = names.index_of(n);
                    let i = if j < at { j } else { j - 1 };
                    if j != at {
                        assert(old_names[i] == n);
                    }
                }
                assert(self@ =~= old(self)@.insert(copy, table@));
            }
        }
    }

    /// The table with a name.
    pub fn table(&self, name: &str) -> (r: Result<&Table, SparkXError>)
        requires
            self.wf(),
        ensures
            match r {
                Ok(table) => find_table(self@, name@) == Ok::<TableView, ErrorView>(table@),
                Err(error) => find_table(self@, name@) == Err::<TableView, ErrorView>(error@),
            },
    {
        let key = lowercase(name);
        let (at, found): (usize, bool) = self.locate(key.as_str());
        if found {
            proof {
                index_is(names_of(self.entries@), at as int);
            }
            return Ok(&self.entries[at].table);
        }
        Err(no_table(name))
    }

    /// The names of all tables, in order.
    pub fn table_names(&self) -> (r: Vec<String>)
        requires
            self.wf(),
        ensures
            in_order(text_views(r@)),
            forall|name: Seq<char>| #[trigger]
                text_views(r@).contains(name) <==> self@.dom().contains(name),
    {
        let mut r: Vec<String> = Vec::new();
        for i in 0..self.entries.len()
            invariant
                r.len() == i,
                forall|k: int| 0 <= k < i ==> (#[trigger] r@[k])@ == self.entries@[k].name@,
        {
            r.push(self.entries[i].name.clone());
        }
        proof {
            assert(text_views(r@) =~= names_of(self.entries@));
        }
        r
    }
}

proof fn not_among(names: Seq<Seq<char>>, at: int, name: Seq<char>)
    requires
        0 <= at <= names.len(),
        forall|k: int| 0 <= k < at ==> before(#[trigger] names[k], name),
        forall|k: int| at <= k < names.len() ==> before(name, #[trigger] names[k]),
    ensures
        !names.contains(name),
{
    before_is_strict(name, name);
}

proof fn put_in_order(names: Seq<Seq<char>>, at: int, name: Seq<char>)
    requires
        in_order(names),
        0 <= at <= names.len(),
        forall|k: int| 0 <= k < at ==> before(#[trigger] names[k], name),
        forall|k: int| at <= k < names.len() ==> before(name, #[trigger] names[k]),
    ensures
        in_order(names.insert(at, name)),
{
    let next = names.insert(at, name);
    assert forall|i: int, j: int| 0 <= i < j < next.len() implies before(
        #[trigger] next[i],
        #[trigger] next[j],
    ) by {
        let a = if i < at { i } else { i - 1 };
        let b = if j < at { j } else { j - 1 };
        if i != at {
            assert(next[i] == names[a]);
        }
        if j != at {
            assert(next[j] == names[b]);
        }
    }
}

} // verus!
