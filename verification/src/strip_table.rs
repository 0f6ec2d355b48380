//! The table of the LED strips that guests hold handles to.

use vstd::prelude::*;
use wasmtime::component::{Resource, ResourceTable, ResourceTableError};

verus! {

/// The table in which the component runtime keeps what handles stand for.
#[verifier::external_type_specification]
#[verifier::external_body]
pub struct ExResourceTable(wasmtime::component::ResourceTable);

/// Why an operation on such a table failed.
#[verifier::external_type_specification]
#[verifier::external_body]
pub struct ExResourceTableError(wasmtime::component::ResourceTableError);

/// What a strip handle stands for. There is one strip, so it holds nothing.
#[derive(Clone, Copy, Debug, PartialEq, Eq, Structural)]
pub struct ActiveStrip;

/// The handles in `table` that stand for an `ActiveStrip` with neither a parent nor a child
/// in the table.
pub uninterp spec fn table_strips(table: ResourceTable) -> Set<u32>;

/// The handles in `table` that stand for anything else.
pub uninterp spec fn table_others(table: ResourceTable) -> Set<u32>;

/// How many handles `table` may hold before it refuses more.
pub uninterp spec fn table_limit(table: ResourceTable) -> int;

/// Trusts `ResourceTable::new`: the table is empty and may hold a million handles.
#[verifier::external_body]
fn table_new() -> (table: ResourceTable)
    ensures
        table_strips(table) == Set::<u32>::empty(),
        table_others(table) == Set::<u32>::empty(),
        table_limit(table) == 1_000_000,
{
    ResourceTable::new()
}

/// Trusts `ResourceTable::push`: the new handle was free, and it is the only change. A table
/// with fewer handles than its limit, and than there are handles at all, takes one more.
#[verifier::external_body]
fn table_push(table: &mut ResourceTable, strip: ActiveStrip) -> (r: Result<u32, ResourceTableError>)
    ensures
        table_others(*final(table)) == table_others(*old(table)),
        table_limit(*final(table)) == table_limit(*old(table)),
        match r {
            Ok(rep) => {
                &&& !table_strips(*old(table)).contains(rep)
                &&& !table_others(*old(table)).contains(rep)
                &&& table_strips(*final(table)) == table_strips(*old(table)).insert(rep)
            },
            Err(_) => {
                &&& table_strips(*final(table)) == table_strips(*old(table))
                &&& table_strips(*old(table)).len() + table_others(*old(table)).len() >= table_limit(
                    *old(table),
                ) || table_strips(*old(table)).len() + table_others(*old(table)).len() > u32::MAX
            },
        },
{
    Ok(table.push(strip)?.rep())
}

/// Trusts `ResourceTable::get`: it finds the strip exactly where the handle stands for one.
#[verifier::external_body]
fn table_get(table: &ResourceTable, rep: u32) -> (r: Result<ActiveStrip, ResourceTableError>)
    requires
        !table_others(*table).contains(rep),
    ensures
        r is Ok <==> table_strips(*table).contains(rep),
{
    table.get(&Resource::<ActiveStrip>::new_own(rep)).copied()
}

/// Trusts `ResourceTable::delete`: it succeeds exactly where the handle stands for a strip,
/// and that handle then stands for nothing; nothing else changes.
#[verifier::external_body]
fn table_delete(table: &mut ResourceTable, rep: u32) -> (r: Result<ActiveStrip, ResourceTableError>)
    requires
        !table_others(*old(table)).contains(rep),
    ensures
        r is Ok <==> table_strips(*old(table)).contains(rep),
        table_strips(*final(table)) == table_strips(*old(table)).remove(rep),
        table_others(*final(table)) == table_others(*old(table)),
        table_limit(*final(table)) == table_limit(*old(table)),
{
    table.delete(Resource::<ActiveStrip>::new_own(rep))
}

/// Why an operation on the strip table failed.
#[derive(Clone, Copy, Debug, PartialEq, Eq, Structural)]
pub enum StripError {
    /// The table takes no more handles.
    Full,
    /// The handle stands for no strip.
    NotPresent,
}

/// The handles that guests hold to LED strips.
pub struct StripTable {
    table: ResourceTable,
}

impl View for StripTable {
    type V = Set<u32>;

    /// The handles that stand for a strip.
    closed spec fn view(&self) -> Set<u32> {
        table_strips(self.table)
    }
}

impl StripTable {
    /// How many handles the table may hold.
    pub closed spec fn limit(&self) -> int {
        table_limit(self.table)
    }

    /// The table holds strips and nothing else.
    #[verifier::type_invariant]
    spec fn strips_only(self) -> bool {
        &&& table_others(self.table) == Set::<u32>::empty()
        &&& table_limit(self.table) <= u32::MAX
    }

    pub fn new() -> (t: StripTable)
        ensures
            t@ == Set::<u32>::empty(),
            t.limit() == 1_000_000,
    {
        StripTable { table: table_new() }
    }

    /// Makes a handle that stands for a strip.
    pub fn push(&mut self, strip: ActiveStrip) -> (r: Result<u32, StripError>)
        ensures
            final(self).limit() == old(self).limit(),
            match r {
                Ok(rep) => !old(self)@.contains(rep) && final(self)@ == old(self)@.insert(rep),
                Err(e) => {
                    &&& e == StripError::Full
                    &&& final(self)@ == old(self)@
                    &&& old(self)@.len() >= old(self).limit()
                },
            },
    {
        proof {
            use_type_invariant(&*self);
        }
        let mut table: ResourceTable = table_new();
        core::mem::swap(&mut table, &mut self.table);
        let r = table_push(&mut table, strip);
        self.table = table;
        match r {
            Ok(rep) => Ok(rep),
            Err(_) => Err(StripError::Full),
        }
    }

    /// The strip that a handle stands for.
    pub fn get(&self, rep: u32) -> (r: Result<ActiveStrip, StripError>)
        ensures
            r == (if self@.contains(rep) {
                Ok::<ActiveStrip, StripError>(ActiveStrip)
            } else {
                Err(StripError::NotPresent)
            }),
    {
        proof {
            use_type_invariant(self);
        }
        match table_get(&self.table, rep) {
            Ok(strip) => Ok(strip),
            Err(_) => Err(StripError::NotPresent),
        }
    }

    /// Takes a handle back.
    pub fn delete(&mut self, rep: u32) -> (r: Result<ActiveStrip, StripError>)
        ensures
            final(self).limit() == old(self).limit(),
            final(self)@ == old(self)@.remove(rep),
            r == (if old(self)@.contains(rep) {
                Ok::<ActiveStrip, StripError>(ActiveStrip)
            } else {
                Err(StripError::NotPresent)
            }),
    {
        proof {
            use_type_invariant(&*self);
        }
        let mut table: ResourceTable = table_new();
        core::mem::swap(&mut table, &mut self.table);
        let r = table_delete(&mut table, rep);
        self.table = table;
        match r {
            Ok(strip) => Ok(strip),
            Err(_) => Err(StripError::NotPresent),
        }
    }
}

} // verus!
