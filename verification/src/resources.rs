//! Global game resources, looked up by string path.
//!
//! A [`ResourceStorage`] keeps one kind of resource under unique names;
//! [`GlobalResourceStorage`] bundles one storage per resource kind that the
//! runtime's scripts consume. Registration happens once, at start-up, and a
//! duplicate name is a programming error; lookups dominate afterwards.

use vstd::prelude::*;
use vstd::pervasive::cloned;
use vstd::pervasive::unreached;
use vstd::string::StringExecFns;
use crate::dialog::Dialog;
use crate::pass_map::Bitmap;

verus! {

/// Error: a resource was looked up under a name nothing was put under.
#[derive(Debug, Copy, Clone)]
pub struct ResourceDoesNotExist<'a> {
    pub name: &'a str,
}

impl<'a> ResourceDoesNotExist<'a> {
    /// A human-readable description of the failure.
    pub fn message(&self) -> (r: String)
        ensures
            r@ == "Resource with name `"@ + self.name@ + "` does not exist"@,
    {
        let mut message = String::from_str("Resource with name `");
        message.append(self.name);
        message.append("` does not exist");
        message
    }
}

/// Keyed storage of one kind of resource: read-mostly lookup by string path.
pub trait ResourceStorage<T> {
    /// The stored resources, by name.
    spec fn contents(&self) -> Map<Seq<char>, T>;

    /// The storage's internal invariant.
    spec fn inv(&self) -> bool;

    /// Looks the resource called `name` up.
    fn try_get<'a>(&self, name: &'a str) -> (r: Result<&T, ResourceDoesNotExist<'a>>)
        requires
            self.inv(),
        ensures
            match r {
                Ok(resource) => self.contents().dom().contains(name@) && *resource
                    == self.contents()[name@],
                Err(e) => !self.contents().dom().contains(name@) && e.name@ == name@,
            },
    ;

    /// Registers `resource` under `name`. Registering a name twice is a
    /// programming error, so the name must still be free.
    fn put(&mut self, name: String, resource: T)
        requires
            old(self).inv(),
            !old(self).contents().dom().contains(name@),
        ensures
            final(self).inv(),
            final(self).contents() == old(self).contents().insert(name@, resource),
    ;

    /// Looks the resource called `name` up; asking for an unregistered name
    /// is a programming error, so the name must be present.
    fn get(&self, name: &str) -> (r: &T)
        requires
            self.inv(),
            self.contents().dom().contains(name@),
        ensures
            *r == self.contents()[name@],
    {
        match self.try_get(name) {
            Ok(resource) => resource,
            Err(_) => unreached(),
        }
    }
}

/// Lookup by value for resource kinds that are cheap to clone.
pub trait ResourceStorageCloneExt<T: Clone>: ResourceStorage<T> {
    fn try_get_cloned<'a>(&self, name: &'a str) -> (r: Result<T, ResourceDoesNotExist<'a>>)
        requires
            self.inv(),
        ensures
            match r {
                Ok(resource) => self.contents().dom().contains(name@) && cloned(
                    self.contents()[name@],
                    resource,
                ),
                Err(e) => !self.contents().dom().contains(name@) && e.name@ == name@,
            },
    ;

    fn get_cloned(&self, name: &str) -> (r: T)
        requires
            self.inv(),
            self.contents().dom().contains(name@),
        ensures
            cloned(self.contents()[name@], r),
    ;
}

impl<T: Clone, S: ResourceStorage<T>> ResourceStorageCloneExt<T> for S {
    fn try_get_cloned<'a>(&self, name: &'a str) -> (r: Result<T, ResourceDoesNotExist<'a>>) {
        match self.try_get(name) {
            Ok(resource) => Ok(resource.clone()),
            Err(e) => Err(e),
        }
    }

    fn get_cloned(&self, name: &str) -> (r: T) {
        match self.try_get_cloned(name) {
            Ok(resource) => resource,
            Err(_) => unreached(),
        }
    }
}

/// The name-to-resource table a list of entries stands for; a later entry
/// would win, but the tables keep their names unique.
pub open spec fn table_view<T>(entries: Seq<(String, T)>) -> Map<Seq<char>, T>
    decreases entries.len(),
{
    if entries.len() == 0 {
        Map::empty()
    } else {
        table_view(entries.drop_last()).insert(entries.last().0@, entries.last().1)
    }
}

/// All names in the table are distinct.
pub open spec fn table_inv<T>(entries: Seq<(String, T)>) -> bool {
    forall|i: int, j: int|
        0 <= i < j < entries.len() ==> entries[i].0@ != entries[j].0@
}

/// An entry's name is in the table, mapped to that entry's resource.
proof fn lemma_table_view_index<T>(entries: Seq<(String, T)>, i: int)
    requires
        table_inv(entries),
        0 <= i < entries.len(),
    ensures
        table_view(entries).dom().contains(entries[i].0@),
        table_view(entries)[entries[i].0@] == entries[i].1,
    decreases entries.len(),
{
    if i < entries.len() - 1 {
        lemma_table_view_index(entries.drop_last(), i);
    }
}

/// A name no entry carries is not in the table.
proof fn lemma_table_view_absent<T>(entries: Seq<(String, T)>, name: Seq<char>)
    requires
        forall|i: int| 0 <= i < entries.len() ==> entries[i].0@ != name,
    ensures
        !table_view(entries).dom().contains(name),
    decreases entries.len(),
{
    if entries.len() > 0 {
        lemma_table_view_absent(entries.drop_last(), name);
    }
}

/// Looks `name` up in a table of entries with distinct names.
fn table_find<'t, T>(entries: &'t Vec<(String, T)>, name: &str) -> (r: Option<&'t T>)
    requires
        table_inv(entries@),
    ensures
        match r {
            Some(resource) => table_view(entries@).dom().contains(name@) && *resource
                == table_view(entries@)[name@],
            None => !table_view(entries@).dom().contains(name@),
        },
{
    let owned = name.to_owned();
    let mut i: usize = 0;
    while i < entries.len()
        invariant
            table_inv(entries@),
            i <= entries@.len(),
            owned@ == name@,
            forall|k: int| 0 <= k < i ==> entries@[k].0@ != name@,
        decreases entries@.len() - i,
    {
        if entries[i].0 == owned {
            proof {
                lemma_table_view_index(entries@, i as int);
            }
            return Some(&entries[i].1);
        }
        i = i + 1;
    }
    proof {
        lemma_table_view_absent(entries@, name@);
    }
    None
}

/// Appends a new entry whose name no existing entry carries.
fn table_put<T>(entries: &mut Vec<(String, T)>, name: String, resource: T)
    requires
        table_inv(old(entries)@),
        !table_view(old(entries)@).dom().contains(name@),
    ensures
        table_inv(final(entries)@),
        table_view(final(entries)@) == table_view(old(entries)@).insert(name@, resource),
{
    proof {
        assert forall|i: int| 0 <= i < entries@.len() implies entries@[i].0@ != name@ by {
            lemma_table_view_index(entries@, i);
        }
    }
    let ghost pre = entries@;
    entries.push((name, resource));
    proof {
        assert(entries@.drop_last() =~= pre);
    }
}

/// The global, read-mostly storage of everything scripts and rooms look up by
/// path: bitmap passability maps and dialogue scripts.
pub struct GlobalResourceStorage {
    bitmap_pass_maps: Vec<(String, Bitmap)>,
    dialogs: Vec<(String, Dialog)>,
}

impl GlobalResourceStorage {
    pub fn new() -> (r: Self)
        ensures
            r.inv_all(),
            ResourceStorage::<Bitmap>::contents(&r) == Map::<Seq<char>, Bitmap>::empty(),
            ResourceStorage::<Dialog>::contents(&r) == Map::<Seq<char>, Dialog>::empty(),
    {
        GlobalResourceStorage { bitmap_pass_maps: Vec::new(), dialogs: Vec::new() }
    }

    /// Every table keeps its names unique.
    pub open spec fn inv_all(&self) -> bool {
        ResourceStorage::<Bitmap>::inv(self) && ResourceStorage::<Dialog>::inv(self)
    }
}

impl ResourceStorage<Bitmap> for GlobalResourceStorage {
    closed spec fn contents(&self) -> Map<Seq<char>, Bitmap> {
        table_view(self.bitmap_pass_maps@)
    }

    closed spec fn inv(&self) -> bool {
        table_inv(self.bitmap_pass_maps@)
    }

    fn try_get<'a>(&self, name: &'a str) -> (r: Result<&Bitmap, ResourceDoesNotExist<'a>>) {
        match table_find(&self.bitmap_pass_maps, name) {
            Some(resource) => Ok(resource),
            None => Err(ResourceDoesNotExist { name }),
        }
    }

    fn put(&mut self, name: String, resource: Bitmap) {
        table_put(&mut self.bitmap_pass_maps, name, resource);
    }
}

impl ResourceStorage<Dialog> for GlobalResourceStorage {
    closed spec fn contents(&self) -> Map<Seq<char>, Dialog> {
        table_view(self.dialogs@)
    }

    closed spec fn inv(&self) -> bool {
        table_inv(self.dialogs@)
    }

    fn try_get<'a>(&self, name: &'a str) -> (r: Result<&Dialog, ResourceDoesNotExist<'a>>) {
        match table_find(&self.dialogs, name) {
            Some(resource) => Ok(resource),
            None => Err(ResourceDoesNotExist { name }),
        }
    }

    fn put(&mut self, name: String, resource: Dialog) {
        table_put(&mut self.dialogs, name, resource);
    }
}

} // verus!
