//! The hash tables that the library keeps its mappings in.
//!
//! The tables are `hashbrown::HashMap`s keyed by `String`. Verus sees each
//! as an opaque value with a mathematical map for its contents; what the
//! table operations do to those contents is stated here and not proved.

use crate::patch::Patch;
use vstd::prelude::*;

verus! {

/// The desired state of one configuration category: for each key the value
/// that the file should assign to it.
#[verifier::external_body]
#[derive(Debug)]
pub struct Mapping {
    table: hashbrown::HashMap<String, String>,
}

/// The pending corrections of one file: for each key the desired value and
/// the value found in the file.
#[verifier::external_body]
#[derive(Debug)]
pub struct Changes {
    table: hashbrown::HashMap<String, (String, String)>,
}

/// The patches of a run: for each package name the patch for that
/// package.
#[verifier::external_body]
#[derive(Debug)]
pub struct Patches {
    table: hashbrown::HashMap<String, Patch>,
}

/// What a [`Mapping`] holds: key to desired value.
pub uninterp spec fn mapping_entries(m: Mapping) -> Map<Seq<char>, Seq<char>>;

/// What a [`Changes`] holds: key to desired value and previous value.
pub uninterp spec fn change_entries(c: Changes) -> Map<Seq<char>, (Seq<char>, Seq<char>)>;

/// What a [`Patches`] holds: package name to patch.
pub uninterp spec fn patch_entries(p: Patches) -> Map<Seq<char>, Patch>;

impl View for Mapping {
    type V = Map<Seq<char>, Seq<char>>;

    open spec fn view(&self) -> Map<Seq<char>, Seq<char>> {
        mapping_entries(*self)
    }
}

impl View for Changes {
    type V = Map<Seq<char>, (Seq<char>, Seq<char>)>;

    open spec fn view(&self) -> Map<Seq<char>, (Seq<char>, Seq<char>)> {
        change_entries(*self)
    }
}

impl View for Patches {
    type V = Map<Seq<char>, Patch>;

    open spec fn view(&self) -> Map<Seq<char>, Patch> {
        patch_entries(*self)
    }
}

/// `hashbrown::HashMap::new`: the new table holds nothing.
#[verifier::external_body]
fn mapping_new() -> (m: Mapping)
    ensures
        mapping_entries(m) =~= Map::empty(),
{
    Mapping { table: hashbrown::HashMap::new() }
}

/// `hashbrown::HashMap::insert`: afterwards the table maps `key` to `value`
/// and is otherwise unchanged; the value that `key` had before comes back.
#[verifier::external_body]
fn mapping_insert(m: &mut Mapping, key: String, value: String) -> (previous: Option<String>)
    ensures
        mapping_entries(*final(m)) == mapping_entries(*old(m)).insert(key@, value@),
        previous is Some <==> mapping_entries(*old(m)).contains_key(key@),
        previous matches Some(v) ==> v@ == mapping_entries(*old(m))[key@],
{
    m.table.insert(key, value)
}

/// `hashbrown::HashMap::get`: the value stored under `key`, if there is one.
#[verifier::external_body]
fn mapping_get<'a>(m: &'a Mapping, key: &str) -> (found: Option<&'a String>)
    ensures
        found is Some <==> mapping_entries(*m).contains_key(key@),
        found matches Some(v) ==> v@ == mapping_entries(*m)[key@],
{
    m.table.get(key)
}

/// `hashbrown::HashMap::is_empty`: whether the table holds nothing.
#[verifier::external_body]
fn mapping_is_empty(m: &Mapping) -> (empty: bool)
    ensures
        empty == (mapping_entries(*m) =~= Map::empty()),
{
    m.table.is_empty()
}

/// `hashbrown::HashMap::new`: the new table holds nothing.
#[verifier::external_body]
fn changes_new() -> (c: Changes)
    ensures
        change_entries(c) =~= Map::empty(),
{
    Changes { table: hashbrown::HashMap::new() }
}

/// `hashbrown::HashMap::insert`: afterwards the table maps `key` to `entry`
/// and is otherwise unchanged; the entry that `key` had before comes back.
#[verifier::external_body]
fn changes_insert(c: &mut Changes, key: String, entry: (String, String)) -> (previous: Option<
    (String, String),
>)
    ensures
        change_entries(*final(c)) == change_entries(*old(c)).insert(key@, (entry.0@, entry.1@)),
        previous is Some <==> change_entries(*old(c)).contains_key(key@),
        previous matches Some(e) ==> (e.0@, e.1@) == change_entries(*old(c))[key@],
{
    c.table.insert(key, entry)
}

/// `hashbrown::HashMap::get`: the entry stored under `key`, if there is one.
#[verifier::external_body]
fn changes_get<'a>(c: &'a Changes, key: &str) -> (found: Option<&'a (String, String)>)
    ensures
        found is Some <==> change_entries(*c).contains_key(key@),
        found matches Some(e) ==> (e.0@, e.1@) == change_entries(*c)[key@],
{
    c.table.get(key)
}

/// `hashbrown::HashMap::is_empty`: whether the table holds nothing.
#[verifier::external_body]
fn changes_is_empty(c: &Changes) -> (empty: bool)
    ensures
        empty == (change_entries(*c) =~= Map::empty()),
{
    c.table.is_empty()
}

/// `hashbrown::HashMap::new`: the new table holds nothing.
#[verifier::external_body]
fn patches_new() -> (p: Patches)
    ensures
        patch_entries(p) =~= Map::empty(),
{
    Patches { table: hashbrown::HashMap::new() }
}

/// `hashbrown::HashMap::insert`: afterwards the table maps `name` to
/// `patch` and is otherwise unchanged; the patch that `name` had before
/// comes back.
#[verifier::external_body]
fn patches_insert(p: &mut Patches, name: String, patch: Patch) -> (previous: Option<Patch>)
    ensures
        patch_entries(*final(p)) == patch_entries(*old(p)).insert(name@, patch),
        previous is Some <==> patch_entries(*old(p)).contains_key(name@),
        previous matches Some(v) ==> v == patch_entries(*old(p))[name@],
{
    p.table.insert(name, patch)
}

/// `hashbrown::HashMap::get`: the patch stored under `name`, if there is
/// one.
#[verifier::external_body]
fn patches_get<'a>(p: &'a Patches, name: &str) -> (found: Option<&'a Patch>)
    ensures
        found is Some <==> patch_entries(*p).contains_key(name@),
        found matches Some(v) ==> *v == patch_entries(*p)[name@],
{
    p.table.get(name)
}

impl Mapping {
    /// A mapping without entries.
    pub fn new() -> (m: Mapping)
        ensures
            m@ == Map::<Seq<char>, Seq<char>>::empty(),
    {
        mapping_new()
    }

    /// Sets the desired value of `key`, and returns the one it had.
    pub fn insert(&mut self, key: String, value: String) -> (previous: Option<String>)
        ensures
            final(self)@ == old(self)@.insert(key@, value@),
            previous is Some <==> old(self)@.contains_key(key@),
            previous matches Some(v) ==> v@ == old(self)@[key@],
    {
        mapping_insert(self, key, value)
    }

    /// The desired value of `key`, if the mapping has one.
    pub fn get(&self, key: &str) -> (found: Option<&String>)
        ensures
            found is Some <==> self@.contains_key(key@),
            found matches Some(v) ==> v@ == self@[key@],
    {
        mapping_get(self, key)
    }

    /// Whether the mapping has no entries.
    pub fn is_empty(&self) -> (empty: bool)
        ensures
            empty == (self@ == Map::<Seq<char>, Seq<char>>::empty()),
    {
        mapping_is_empty(self)
    }
}

impl Changes {
    /// A change set without entries: nothing to correct.
    pub fn new() -> (c: Changes)
        ensures
            c@ == Map::<Seq<char>, (Seq<char>, Seq<char>)>::empty(),
    {
        changes_new()
    }

    /// Records that `key` should go from `previous` to `desired`, and
    /// returns the entry it had.
    pub fn insert(&mut self, key: String, desired: String, previous: String) -> (replaced: Option<
        (String, String),
    >)
        ensures
            final(self)@ == old(self)@.insert(key@, (desired@, previous@)),
            replaced is Some <==> old(self)@.contains_key(key@),
            replaced matches Some(e) ==> (e.0@, e.1@) == old(self)@[key@],
    {
        changes_insert(self, key, (desired, previous))
    }

    /// The desired and the previous value of `key`, if it has an entry.
    pub fn get(&self, key: &str) -> (found: Option<&(String, String)>)
        ensures
            found is Some <==> self@.contains_key(key@),
            found matches Some(e) ==> (e.0@, e.1@) == self@[key@],
    {
        changes_get(self, key)
    }

    /// Whether there is nothing to correct.
    pub fn is_empty(&self) -> (empty: bool)
        ensures
            empty == (self@ == Map::<Seq<char>, (Seq<char>, Seq<char>)>::empty()),
    {
        changes_is_empty(self)
    }
}

impl Patches {
    /// Patches for no package.
    pub fn new() -> (p: Patches)
        ensures
            p@ == Map::<Seq<char>, Patch>::empty(),
    {
        patches_new()
    }

    /// Sets the patch of the package `name`, and returns the one it had.
    pub fn insert(&mut self, name: String, patch: Patch) -> (previous: Option<Patch>)
        ensures
            final(self)@ == old(self)@.insert(name@, patch),
            previous is Some <==> old(self)@.contains_key(name@),
            previous matches Some(v) ==> v == old(self)@[name@],
    {
        patches_insert(self, name, patch)
    }

    /// The patch of the package `name`, if there is one.
    pub fn get(&self, name: &str) -> (found: Option<&Patch>)
        ensures
            found is Some <==> self@.contains_key(name@),
            found matches Some(v) ==> *v == self@[name@],
    {
        patches_get(self, name)
    }
}

} // verus!
