//! The symbol table: a scope stack of constants, variables and procedures.
//!
//! The table is a flat list. Newer entries shadow older ones, so a name is
//! looked up from the tail to the head, and a scope is left by cutting the
//! list back to the length it had when the scope was entered.
use vstd::prelude::*;
use crate::text::str_eq;
use crate::Num;

verus! {

/// Entry in the identifier table.
#[derive(Debug)]
pub enum Entry {
    Const { name: String, value: Num },
    /// A variable, with the level of the block that declares it and its
    /// offset in the frame of that block.
    Var { name: String, level: u8, offset: u16 },
    /// A procedure, with the level of the block that declares it and the
    /// address of its code.
    Proc { name: String, level: u8, addr: u16 },
}

/// The model of an entry.
pub enum EntryView {
    Const { name: Seq<char>, value: Num },
    Var { name: Seq<char>, level: u8, offset: u16 },
    Proc { name: Seq<char>, level: u8, addr: u16 },
}

impl EntryView {
    pub open spec fn name(self) -> Seq<char> {
        match self {
            EntryView::Const { name, .. } => name,
            EntryView::Var { name, .. } => name,
            EntryView::Proc { name, .. } => name,
        }
    }

    /// The level of the block that declares the entry; a constant has none
    /// and counts as declared at level 0.
    pub open spec fn level(self) -> int {
        match self {
            EntryView::Const { .. } => 0,
            EntryView::Var { level, .. } => level as int,
            EntryView::Proc { level, .. } => level as int,
        }
    }
}

impl View for Entry {
    type V = EntryView;

    open spec fn view(&self) -> EntryView {
        match self {
            Entry::Const { name, value } => EntryView::Const { name: name@, value: *value },
            Entry::Var { name, level, offset } => EntryView::Var {
                name: name@,
                level: *level,
                offset: *offset,
            },
            Entry::Proc { name, level, addr } => EntryView::Proc {
                name: name@,
                level: *level,
                addr: *addr,
            },
        }
    }
}

impl Entry {
    pub fn name(&self) -> (r: &str)
        ensures
            r@ == self@.name(),
    {
        match self {
            Entry::Const { name, .. } => name.as_str(),
            Entry::Var { name, .. } => name.as_str(),
            Entry::Proc { name, .. } => name.as_str(),
        }
    }
}

/// The models of the entries of a table, oldest first.
pub open spec fn table_view(table: Seq<Entry>) -> Seq<EntryView> {
    Seq::new(table.len(), |i: int| table[i]@)
}

/// The most recent entry of `table` whose name is `name`, if there is one.
pub open spec fn resolve(table: Seq<EntryView>, name: Seq<char>) -> Option<EntryView>
    decreases table.len(),
{
    if table.len() == 0 {
        None
    } else if table.last().name() == name {
        Some(table.last())
    } else {
        resolve(table.drop_last(), name)
    }
}

/// A name resolves to the entry that was entered for it last: its level and
/// its offset or address are those of that declaration.
pub proof fn lemma_resolve_entered(table: Seq<EntryView>, entry: EntryView)
    ensures
        resolve(table.push(entry), entry.name()) == Some(entry),
{
    assert(table.push(entry).last() == entry);
}

/// Entering a name leaves every other name resolved as before.
pub proof fn lemma_resolve_other(table: Seq<EntryView>, entry: EntryView, name: Seq<char>)
    requires
        name != entry.name(),
    ensures
        resolve(table.push(entry), name) == resolve(table, name),
{
    assert(table.push(entry).last() == entry);
    assert(table.push(entry).drop_last() =~= table);
}

/// What a name resolves to is an entry of the table, and no entry after it
/// has that name: newer entries shadow older ones.
pub proof fn lemma_resolve_is_latest(table: Seq<EntryView>, name: Seq<char>)
    ensures
        match resolve(table, name) {
            Some(entry) => exists|i: int|
                0 <= i < table.len() && table[i] == entry && entry.name() == name && forall|j: int|
                    i < j < table.len() ==> (#[trigger] table[j]).name() != name,
            None => forall|j: int| 0 <= j < table.len() ==> (#[trigger] table[j]).name() != name,
        },
    decreases table.len(),
{
    if table.len() == 0 {
    } else if table.last().name() == name {
        let i = table.len() - 1;
        assert(table[i] == table.last());
    } else {
        let rest = table.drop_last();
        lemma_resolve_is_latest(rest, name);
        match resolve(rest, name) {
            Some(entry) => {
                let i = choose|i: int|
                    0 <= i < rest.len() && rest[i] == entry && entry.name() == name && forall|
                        j: int,
                    |
                        i < j < rest.len() ==> (#[trigger] rest[j]).name() != name;
                assert(table[i] == entry);
                assert forall|j: int| i < j < table.len() implies (#[trigger] table[j]).name()
                    != name by {
                    if j < rest.len() {
                        assert(rest[j] == table[j]);
                    }
                }
            },
            None => {
                assert forall|j: int| 0 <= j < table.len() implies (#[trigger] table[j]).name()
                    != name by {
                    if j < rest.len() {
                        assert(rest[j] == table[j]);
                    }
                }
            },
        }
    }
}

/// Leaving a scope restores what every name resolved to when it was entered.
pub proof fn lemma_resolve_after_scope(
    table: Seq<EntryView>,
    inner: Seq<EntryView>,
    name: Seq<char>,
)
    ensures
        resolve((table + inner).take(table.len() as int), name) == resolve(table, name),
{
    assert((table + inner).take(table.len() as int) =~= table);
}

/// The most recent entry of `table` whose name is `query`.
pub fn find_entry<'a>(table: &'a Vec<Entry>, query: &str) -> (r: Option<&'a Entry>)
    ensures
        match resolve(table_view(table@), query@) {
            Some(entry) => r matches Some(e) && e@ == entry,
            None => r is None,
        },
{
    // Search backwards, crawling up lexical scope.
    let mut i: usize = table.len();
    assert(table_view(table@).take(i as int) =~= table_view(table@));
    while i > 0
        invariant
            i <= table@.len(),
            resolve(table_view(table@), query@) == resolve(
                table_view(table@).take(i as int),
                query@,
            ),
        decreases i,
    {
        let ghost part = table_view(table@).take(i as int);
        i = i - 1;
        let entry = &table[i];
        assert(part.last() == entry@);
        if str_eq(entry.name(), query) {
            return Some(entry);
        }
        assert(part.drop_last() =~= table_view(table@).take(i as int));
    }
    assert(table_view(table@).take(0).len() == 0);
    None
}

} // verus!
