//! The handle-indexed resource table.
//!
//! One table exists per invocation.  Handles are opaque `u32` values,
//! allocated from a counter that starts above zero and only grows, so a
//! handle is never reused within the lifetime of one table.  Every entry
//! is tagged with its resource kind at insertion, and every access names
//! the kind it expects; a mismatch is an [`HostError::InvalidHandle`]
//! error, never undefined behaviour, because handle values are supplied
//! by code the host does not trust.

use vstd::prelude::*;

use crate::resource::Resource;
use crate::resource::ResourceKind;
use crate::resource::ResourceView;
use crate::resource::spec_kind_of;

verus! {

/// A typed error of the host call surface, returned to sandboxed code
/// instead of aborting it.
#[derive(Clone, Copy, Debug, PartialEq, Eq, Structural)]
pub enum HostError {
    /// The handle is absent from the table or has the wrong kind.
    InvalidHandle,
    /// An argument is outside its allowed range.
    InvalidArgument,
    /// A guest pointer lies outside addressable guest memory.
    InvalidPointer,
    /// A supplied name is not valid UTF-8.
    InvalidUtf8,
    /// A supplied buffer does not have the length the transfer needs.
    InvalidLength,
    /// A length does not fit the 32-bit boundary representation.
    IntegerOverflow,
    /// The handle counter would overflow its integer width.
    HandlesExhausted,
}

/// The mathematical value of a resource table: the handle-indexed store
/// and the next handle to be allocated.
pub struct TableView {
    /// The resources the table holds, by handle.
    pub entries: Map<u32, ResourceView>,
    /// The next handle the table will allocate.
    pub next: u32,
}

/// The map that a list of handle/resource entries stores.
pub open spec fn entries_map(s: Seq<(u32, Resource)>) -> Map<u32, ResourceView>
    decreases s.len(),
{
    if s.len() == 0 {
        Map::empty()
    } else {
        entries_map(s.drop_last()).insert(s.last().0, s.last().1@)
    }
}

/// The handle-indexed store of one invocation's resources.
#[derive(Debug)]
pub struct ResourceTable {
    entries: Vec<(u32, Resource)>,
    next: u32,
}

impl View for ResourceTable {
    type V = TableView;

    closed spec fn view(&self) -> TableView {
        TableView { entries: entries_map(self.entries@), next: self.next }
    }
}

impl ResourceTable {
    /// Well-formedness: handles are allocated in strictly increasing
    /// order, all below the counter, and the counter starts above zero.
    pub closed spec fn wf(self) -> bool {
        &&& 1 <= self.next
        &&& forall|i: int, j: int|
            0 <= i < j < self.entries@.len() ==> (#[trigger] self.entries@[i]).0 < (
            #[trigger] self.entries@[j]).0
        &&& forall|i: int|
            0 <= i < self.entries@.len() ==> 0 < (#[trigger] self.entries@[i]).0 < self.next
    }

    /// Every handle a well-formed table holds lies strictly between zero
    /// and the table's next handle.
    pub proof fn wf_facts(self)
        requires
            self.wf(),
        ensures
            1 <= self@.next,
            forall|k: u32| self@.entries.contains_key(k) ==> 0 < k < self@.next,
    {
        lemma_entries_map(self.entries@);
    }

    /// A fresh table: empty, with the handle counter starting at one.
    pub fn new() -> (r: ResourceTable)
        ensures
            r.wf(),
            r@.entries == Map::<u32, ResourceView>::empty(),
            r@.next == 1,
    {
        let r = ResourceTable { entries: Vec::new(), next: 1 };
        proof {
            assert(entries_map(r.entries@) =~= Map::<u32, ResourceView>::empty());
        }
        r
    }

    /// Allocates the next handle and stores the resource under it.
    ///
    /// Fails with `HandlesExhausted` when the counter would overflow its
    /// integer width; the counter is never wrapped.
    pub fn insert(&mut self, value: Resource) -> (r: Result<u32, HostError>)
        requires
            old(self).wf(),
        ensures
            final(self).wf(),
            match r {
                Ok(h) => {
                    &&& old(self)@.next < u32::MAX
                    &&& h == old(self)@.next
                    &&& final(self)@.entries == old(self)@.entries.insert(h, value@)
                    &&& final(self)@.next == h + 1
                },
                Err(e) => {
                    &&& e == HostError::HandlesExhausted
                    &&& old(self)@.next == u32::MAX
                    &&& final(self)@ == old(self)@
                },
            },
    {
        if self.next == u32::MAX {
            return Err(HostError::HandlesExhausted);
        }
        let h = self.next;
        let ghost old_entries = self.entries@;
        self.entries.push((h, value));
        self.next = h + 1;
        proof {
            assert(self.entries@.drop_last() =~= old_entries);
            assert(self.entries@.last() == (h, value));
        }
        Ok(h)
    }

    /// Whether the table holds a resource of the given kind under the
    /// given handle.
    pub fn has(&self, handle: u32, kind: ResourceKind) -> (r: bool)
        requires
            self.wf(),
        ensures
            r == (self@.entries.contains_key(handle) && spec_kind_of(self@.entries[handle])
                == kind),
    {
        match self.find(handle) {
            Some(i) => {
                let k = self.entries[i].1.kind();
                k == kind
            },
            None => false,
        }
    }

    /// Dereferences a handle, checking it against the expected kind.
    pub fn get(&self, handle: u32, kind: ResourceKind) -> (r: Result<&Resource, HostError>)
        requires
            self.wf(),
        ensures
            match r {
                Ok(res) => {
                    &&& self@.entries.contains_key(handle)
                    &&& res@ == self@.entries[handle]
                    &&& spec_kind_of(res@) == kind
                },
                Err(e) => {
                    &&& e == HostError::InvalidHandle
                    &&& !(self@.entries.contains_key(handle) && spec_kind_of(
                        self@.entries[handle],
                    ) == kind)
                },
            },
    {
        match self.find(handle) {
            Some(i) => {
                let res = &self.entries[i].1;
                if res.kind() == kind {
                    Ok(res)
                } else {
                    Err(HostError::InvalidHandle)
                }
            },
            None => Err(HostError::InvalidHandle),
        }
    }

    /// Dereferences a handle the table is known to hold, for mutation in
    /// place.  The kind of the entry is whatever the caller stores back.
    pub fn get_mut(&mut self, handle: u32) -> (r: &mut Resource)
        requires
            old(self).wf(),
            old(self)@.entries.contains_key(handle),
        ensures
            final(self).wf(),
            (*r)@ == old(self)@.entries[handle],
            final(self)@.entries == old(self)@.entries.insert(handle, (*final(r))@),
            final(self)@.next == old(self)@.next,
    {
        let i = match self.find(handle) {
            Some(i) => i,
            None => {
                proof {
                    lemma_entries_map(self.entries@);
                }
                unreached()
            },
        };
        let ghost s = self.entries@;
        proof {
            lemma_entries_map(s);
            lemma_entries_map_update(s, i as int);
        }
        let entry = &mut self.entries[i].1;
        entry
    }

    /// Removes the resource under a handle, checking the expected kind,
    /// and returns ownership of it.  The handle is retired: the counter
    /// does not move back, so the handle value is never reused.
    pub fn remove(&mut self, handle: u32, kind: ResourceKind) -> (r: Result<Resource, HostError>)
        requires
            old(self).wf(),
        ensures
            final(self).wf(),
            match r {
                Ok(res) => {
                    &&& old(self)@.entries.contains_key(handle)
                    &&& res@ == old(self)@.entries[handle]
                    &&& spec_kind_of(res@) == kind
                    &&& final(self)@.entries == old(self)@.entries.remove(handle)
                    &&& final(self)@.next == old(self)@.next
                },
                Err(e) => {
                    &&& e == HostError::InvalidHandle
                    &&& !(old(self)@.entries.contains_key(handle) && spec_kind_of(
                        old(self)@.entries[handle],
                    ) == kind)
                    &&& final(self)@ == old(self)@
                },
            },
    {
        match self.find(handle) {
            Some(i) => {
                let k = self.entries[i].1.kind();
                if k == kind {
                    let ghost s = self.entries@;
                    proof {
                        lemma_entries_map(s);
                        lemma_entries_map_remove(s, i as int);
                    }
                    let (_, res) = self.entries.remove(i);
                    Ok(res)
                } else {
                    Err(HostError::InvalidHandle)
                }
            },
            None => Err(HostError::InvalidHandle),
        }
    }

    /// Discards every resource the table still holds.  The counter does
    /// not move back: handles of discarded resources stay retired.
    pub fn clear(&mut self)
        requires
            old(self).wf(),
        ensures
            final(self).wf(),
            final(self)@.entries == Map::<u32, ResourceView>::empty(),
            final(self)@.next == old(self)@.next,
    {
        self.entries.clear();
        proof {
            assert(entries_map(self.entries@) =~= Map::<u32, ResourceView>::empty());
        }
    }

    /// The index of the entry a handle names, if the table holds one.
    fn find(&self, handle: u32) -> (r: Option<usize>)
        requires
            self.wf(),
        ensures
            match r {
                Some(i) => {
                    &&& i < self.entries@.len()
                    &&& self.entries@[i as int].0 == handle
                    &&& self@.entries.contains_key(handle)
                    &&& self@.entries[handle] == self.entries@[i as int].1@
                },
                None => !self@.entries.contains_key(handle),
            },
    {
        proof {
            lemma_entries_map(self.entries@);
        }
        let mut i: usize = 0;
        while i < self.entries.len()
            invariant
                self.wf(),
                i <= self.entries@.len(),
                forall|j: int| 0 <= j < i ==> (#[trigger] self.entries@[j]).0 != handle,
            decreases self.entries@.len() - i,
        {
            if self.entries[i].0 == handle {
                proof {
                    lemma_entries_map(self.entries@);
                }
                return Some(i);
            }
            i += 1;
        }
        proof {
            lemma_entries_map(self.entries@);
            if self@.entries.contains_key(handle) {
                let witness = choose|k: int|
                    0 <= k < self.entries@.len() && (#[trigger] self.entries@[k]).0 == handle;
                assert(self.entries@[witness].0 != handle);
            }
        }
        None
    }
}

/// What the entry map of a list with distinct handles holds: exactly the
/// listed handles, each mapped to its listed resource.
proof fn lemma_entries_map(s: Seq<(u32, Resource)>)
    requires
        forall|i: int, j: int|
            0 <= i < j < s.len() ==> (#[trigger] s[i]).0 != (#[trigger] s[j]).0,
    ensures
        forall|k: u32|
            #[trigger] entries_map(s).contains_key(k) <==> exists|i: int|
                0 <= i < s.len() && (#[trigger] s[i]).0 == k,
        forall|i: int|
            0 <= i < s.len() ==> entries_map(s).contains_key((#[trigger] s[i]).0) && entries_map(
                s,
            )[s[i].0] == s[i].1@,
    decreases s.len(),
{
    if s.len() > 0 {
        let prefix = s.drop_last();
        let last = s.last();
        lemma_entries_map(prefix);
        assert(forall|i: int| 0 <= i < prefix.len() ==> s[i] == (#[trigger] prefix[i]));
        assert(entries_map(s) == entries_map(prefix).insert(last.0, last.1@));
        assert forall|k: u32| #[trigger] entries_map(s).contains_key(k) implies exists|i: int|
            0 <= i < s.len() && (#[trigger] s[i]).0 == k by {
            if k == last.0 {
                assert((s[s.len() - 1]).0 == k);
            } else {
                assert(entries_map(prefix).contains_key(k));
                let i = choose|i: int| 0 <= i < prefix.len() && (#[trigger] prefix[i]).0 == k;
                assert((s[i]).0 == k);
            }
        }
        assert forall|i: int| 0 <= i < s.len() implies entries_map(s).contains_key(
            (#[trigger] s[i]).0,
        ) && entries_map(s)[s[i].0] == s[i].1@ by {
            if i < s.len() - 1 {
                assert(prefix[i] == s[i]);
                assert(entries_map(prefix).contains_key(prefix[i].0) && entries_map(
                    prefix,
                )[prefix[i].0] == prefix[i].1@);
                assert(s[i].0 != last.0);
            }
        }
        assert forall|k: u32| (exists|i: int|
            0 <= i < s.len() && (#[trigger] s[i]).0 == k) implies #[trigger] entries_map(
            s,
        ).contains_key(k) by {
            let i = choose|i: int| 0 <= i < s.len() && (#[trigger] s[i]).0 == k;
            assert(entries_map(s).contains_key(s[i].0));
        }
    }
}

/// Removing the entry at one index removes exactly that handle from the
/// entry map.
proof fn lemma_entries_map_remove(s: Seq<(u32, Resource)>, at: int)
    requires
        forall|i: int, j: int|
            0 <= i < j < s.len() ==> (#[trigger] s[i]).0 != (#[trigger] s[j]).0,
        0 <= at < s.len(),
    ensures
        entries_map(s.remove(at)) == entries_map(s).remove(s[at].0),
    decreases s.len(),
{
    lemma_entries_map(s);
    if at == s.len() - 1 {
        assert(s.remove(at) =~= s.drop_last());
        assert(!entries_map(s.drop_last()).contains_key(s[at].0)) by {
            lemma_entries_map(s.drop_last());
            assert(forall|i: int|
                0 <= i < s.drop_last().len() ==> s[i] == (#[trigger] s.drop_last()[i]));
        }
        assert(entries_map(s.drop_last()) =~= entries_map(s).remove(s[at].0));
    } else {
        let shorter = s.drop_last();
        lemma_entries_map_remove(shorter, at);
        assert(s.remove(at).drop_last() =~= shorter.remove(at));
        assert(s.remove(at).last() == s.last());
        assert(entries_map(s.remove(at)) == entries_map(shorter.remove(at)).insert(
            s.last().0,
            s.last().1@,
        ));
        assert(entries_map(shorter).remove(s[at].0).insert(s.last().0, s.last().1@)
            =~= entries_map(shorter).insert(s.last().0, s.last().1@).remove(s[at].0));
    }
}

/// Replacing the resource at one index updates exactly that handle in the
/// entry map.
proof fn lemma_entries_map_update(s: Seq<(u32, Resource)>, at: int)
    requires
        forall|i: int, j: int|
            0 <= i < j < s.len() ==> (#[trigger] s[i]).0 != (#[trigger] s[j]).0,
        0 <= at < s.len(),
    ensures
        forall|v: Resource|
            entries_map(s.update(at, (s[at].0, v))) == entries_map(s).insert(s[at].0, v@),
    decreases s.len(),
{
    lemma_entries_map(s);
    assert forall|v: Resource|
        entries_map(s.update(at, (s[at].0, v))) == entries_map(s).insert(s[at].0, v@) by {
        let t = s.update(at, (s[at].0, v));
        if at == s.len() - 1 {
            assert(t.drop_last() =~= s.drop_last());
            assert(t.last() == (s[at].0, v));
        } else {
            let shorter = s.drop_last();
            lemma_entries_map_update(shorter, at);
            assert(t.drop_last() =~= shorter.update(at, (s[at].0, v)));
            assert(t.last() == s.last());
            assert(entries_map(shorter.update(at, (s[at].0, v))) == entries_map(shorter).insert(
                s[at].0,
                v@,
            ));
            assert(entries_map(shorter).insert(s[at].0, v@).insert(s.last().0, s.last().1@)
                =~= entries_map(shorter).insert(s.last().0, s.last().1@).insert(s[at].0, v@));
        }
    }
}

/// Law: handles have no validity across tables.  A handle that one
/// table has not yet allocated is absent from it, whatever any other
/// table holds under that handle; by the contract of `get` and `remove`,
/// dereferencing it there fails with `InvalidHandle`.
pub proof fn lemma_no_cross_table_validity(
    a: ResourceTable,
    b: ResourceTable,
    handle: u32,
)
    requires
        a.wf(),
        b.wf(),
        a@.entries.contains_key(handle),
        handle >= b@.next,
    ensures
        !b@.entries.contains_key(handle),
{
    b.wf_facts();
}

/// Law: one insertion, one retrieval.  A value stored under a fresh
/// handle is exactly what dereferencing that handle yields, and once
/// removed the handle is spent: by the contracts of `get` and
/// `remove`, a second `remove` of the same handle fails with
/// `InvalidHandle`.
pub proof fn lemma_insert_then_remove_once(
    entries: Map<u32, ResourceView>,
    next: u32,
    value: ResourceView,
)
    requires
        forall|k: u32| entries.contains_key(k) ==> k < next,
    ensures
        entries.insert(next, value).contains_key(next),
        entries.insert(next, value)[next] == value,
        !entries.insert(next, value).remove(next).contains_key(next),
{
}

} // verus!
