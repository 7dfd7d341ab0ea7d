//! Opaque, type-tagged monotonic identifiers.
//!
//! A [`Handle`] is a raw integer identity distinguished at the type level by a
//! marker `Tag`, so that two otherwise-identical integer domains (say, event
//! identifiers and script identifiers) can never be confused. A
//! [`HandleGenerator`] issues handles from a monotonically increasing counter
//! and never reuses a value, even after the corresponding object is destroyed.

use vstd::prelude::*;

verus! {

/// An opaque, totally-ordered integer identity, tagged by the marker `Tag`.
///
/// Equality and ordering follow the underlying integer; no two handles issued
/// by the same generator are ever equal. Handles carry no resources and are
/// freely copyable.
#[derive(Debug, Eq, PartialEq, Ord, PartialOrd, Hash)]
pub struct Handle<Tag> {
    raw: u64,
    _phantom: core::marker::PhantomData<Tag>,
}

impl<Tag> Clone for Handle<Tag> {
    fn clone(&self) -> (r: Self)
        ensures
            r == *self,
    {
        Handle { raw: self.raw, _phantom: core::marker::PhantomData }
    }
}

impl<Tag> Copy for Handle<Tag> {

}

impl<Tag> Handle<Tag> {
    /// The underlying integer identity. Two handles of the same family are
    /// the same identifier exactly when their ids agree.
    pub closed spec fn id(self) -> u64 {
        self.raw
    }

    pub(crate) fn from_raw(raw: u64) -> (h: Self)
        ensures
            h.id() == raw,
    {
        Handle { raw, _phantom: core::marker::PhantomData }
    }

    /// Whether two handles are the same identifier.
    pub fn same(&self, other: &Self) -> (r: bool)
        ensures
            r == (self.id() == other.id()),
    {
        self.raw == other.raw
    }
}

/// A monotonically increasing counter of issued handles: starts at 0 and
/// increments by 1 per issued handle.
///
/// Single-owner; a generator lives for the process lifetime of its owner and
/// never reissues a value.
#[derive(Debug)]
pub struct HandleGenerator<Tag> {
    counter: u64,
    _phantom: core::marker::PhantomData<Tag>,
}

impl<Tag> Clone for HandleGenerator<Tag> {
    fn clone(&self) -> (r: Self)
        ensures
            r == *self,
    {
        HandleGenerator { counter: self.counter, _phantom: core::marker::PhantomData }
    }
}

impl<Tag> Copy for HandleGenerator<Tag> {

}

impl<Tag> HandleGenerator<Tag> {
    /// How many handles this generator has issued; also the id of the next
    /// handle it will issue.
    pub closed spec fn counter(self) -> u64 {
        self.counter
    }

    /// A fresh generator that has issued no handles yet.
    pub fn new() -> (g: Self)
        ensures
            g.counter() == 0,
    {
        Self { counter: 0, _phantom: core::marker::PhantomData }
    }

    /// How many handles have been issued so far; the generator is full when
    /// this reaches the counter's maximum.
    pub fn issued(&self) -> (r: u64)
        ensures
            r == self.counter(),
    {
        self.counter
    }

    /// Issues a fresh handle, strictly greater (in underlying integer) than
    /// every handle previously issued by this generator.
    ///
    /// Overflow of the counter is out of scope at the scale of a single game
    /// session, so a full generator may not be asked for another handle.
    pub fn gen_handle(&mut self) -> (h: Handle<Tag>)
        requires
            old(self).counter() < u64::MAX,
        ensures
            h.id() == old(self).counter(),
            final(self).counter() == old(self).counter() + 1,
    {
        let handle = Handle { raw: self.counter, _phantom: core::marker::PhantomData };
        self.counter = self.counter + 1;
        handle
    }
}

/// A handle is nothing but its id: two handles of one family with the same
/// id are the same handle.
pub proof fn lemma_handle_id_injective<Tag>(a: Handle<Tag>, b: Handle<Tag>)
    requires
        a.id() == b.id(),
    ensures
        a == b,
{
}

/// Handles issued later are strictly greater, hence distinct: a generator
/// never reuses a value.
pub proof fn lemma_handles_strictly_increase<Tag>(earlier: Handle<Tag>, later: Handle<Tag>)
    requires
        earlier.id() < later.id(),
    ensures
        earlier != later,
{
}

} // verus!
