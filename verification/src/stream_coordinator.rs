//! The stream coordinator: owns the streams of one connection by
//! identifier, creates them on first reference, and allocates the odd
//! client-initiated identifiers in strictly increasing order.

use vstd::prelude::*;

use crate::stream::Stream;
use crate::types::StreamId;
use crate::types::U31_MAX;

verus! {

/// Owns the connection's streams and the next client-initiated identifier.
/// The client allocator begins at 3 (1 is reserved for an upgraded request,
/// unused here) and advances by 2, so every allocated identifier is odd.
pub struct StreamCoordinator {
    pub next_id: StreamId,
    pub streams: Vec<Stream>,
}

impl StreamCoordinator {
    /// The identifiers the coordinator holds, in storage order.
    pub open spec fn ids(self) -> Seq<StreamId> {
        self.streams@.map_values(|s: Stream| s.id)
    }

    /// The allocator stays odd and within the 31-bit space, every stream is
    /// well formed, and no identifier is stored twice.
    pub open spec fn wf(self) -> bool {
        &&& self.next_id % 2 == 1
        &&& 3 <= self.next_id
        &&& forall|i: int| 0 <= i < self.streams@.len() ==> (#[trigger] self.streams@[i]).wf()
        &&& forall|i: int, j: int|
            0 <= i < j < self.streams@.len() ==> self.streams@[i].id != self.streams@[j].id
    }

    pub fn new() -> (r: StreamCoordinator)
        ensures
            r.wf(),
            r.next_id == 3,
            r.streams@.len() == 0,
    {
        StreamCoordinator { next_id: 3, streams: Vec::new() }
    }

    /// Where stream `id` is stored, if it is.
    pub fn find(&self, id: StreamId) -> (r: Option<usize>)
        ensures
            ({
                match r {
                    Some(i) => i < self.streams@.len() && self.streams@[i as int].id == id,
                    None => forall|i: int|
                        0 <= i < self.streams@.len() ==> (#[trigger] self.streams@[i]).id != id,
                }
            }),
    {
        let mut i: usize = 0;
        while i < self.streams.len()
            invariant
                i <= self.streams@.len(),
                forall|j: int| 0 <= j < i ==> (#[trigger] self.streams@[j]).id != id,
            decreases self.streams@.len() - i,
        {
            if self.streams[i].id == id {
                return Some(i);
            }
            i = i + 1;
        }
        None
    }

    /// The index of stream `id`, created in the idle state with send window
    /// `initial_window` on first reference.
    pub fn get_mut(&mut self, id: StreamId, initial_window: u32) -> (r: usize)
        requires
            old(self).wf(),
            0 < id <= U31_MAX,
            initial_window <= U31_MAX,
        ensures
            final(self).wf(),
            final(self).next_id == old(self).next_id,
            r < final(self).streams@.len(),
            final(self).streams@[r as int].id == id,
            final(self).streams@ == old(self).streams@ || (final(self).streams@.len() == old(self).streams@.len() + 1 && final(self).streams@.subrange(0, old(self).streams@.len() as int)
                == old(self).streams@ && final(self).streams@.last().is_fresh(
                id,
                initial_window,
            )),
    {
        match self.find(id) {
            Some(i) => i,
            None => {
                let s = Stream::new(id, initial_window);
                let ghost before = self.streams@;
                self.streams.push(s);
                assert(self.streams@.subrange(0, before.len() as int) =~= before);
                self.streams.len() - 1
            },
        }
    }

    /// One allocation step: `id` came out and the allocator advanced by
    /// two, past every identifier allocated before it.
    pub open spec fn spec_allocates(pre: StreamCoordinator, post: StreamCoordinator, id: StreamId) -> bool {
        &&& pre.next_id <= U31_MAX
        &&& id == pre.next_id
        &&& post.next_id == pre.next_id + 2
    }

    /// Reserves the next odd client-initiated identifier and creates its
    /// stream, or reports identifier exhaustion, on which the caller needs
    /// a fresh connection.
    pub fn create_mut(&mut self, initial_window: u32) -> (r: Option<(StreamId, usize)>)
        requires
            old(self).wf(),
            initial_window <= U31_MAX,
        ensures
            final(self).wf(),
            ({
                match r {
                    Some((id, i)) => {
                        &&& StreamCoordinator::spec_allocates(*old(self), *final(self), id)
                        &&& id % 2 == 1
                        &&& i < final(self).streams@.len()
                        &&& final(self).streams@[i as int].id == id
                        &&& (final(self).streams@ == old(self).streams@ || (final(self).streams@.len() == old(self).streams@.len() + 1 && final(self).streams@.subrange(0, old(self).streams@.len() as int) == old(self).streams@ && final(self).streams@.last().is_fresh(id, initial_window)))
                    },
                    None => old(self).next_id > U31_MAX && *final(self) == *old(self),
                }
            }),
    {
        if self.next_id > U31_MAX {
            return None;
        }
        let id = self.next_id;
        self.next_id = self.next_id + 2;
        let i = self.get_mut(id, initial_window);
        Some((id, i))
    }
}

/// Client-allocated stream identifiers are strictly increasing and all
/// odd: whatever happens to the coordinator between two allocations, as
/// long as the allocator only ever advances, the identifier handed out
/// later is the larger, and both are odd. Requests submitted in order
/// therefore ride stream identifiers in the same order.
pub proof fn lemma_client_ids_increase(
    a: StreamCoordinator,
    b: StreamCoordinator,
    c: StreamCoordinator,
    d: StreamCoordinator,
    id1: StreamId,
    id2: StreamId,
)
    requires
        a.wf(),
        StreamCoordinator::spec_allocates(a, b, id1),
        b.next_id <= c.next_id,
        c.wf(),
        StreamCoordinator::spec_allocates(c, d, id2),
    ensures
        id1 < id2,
        id1 % 2 == 1,
        id2 % 2 == 1,
{
}

/// The stream stored under `id`, if any: the ghost-level counterpart of
/// `find`, over which the engine's contracts speak.
pub open spec fn spec_find_stream(s: Seq<Stream>, id: StreamId) -> Option<Stream>
    decreases s.len(),
{
    if s.len() == 0 {
        None
    } else if s[0].id == id {
        Some(s[0])
    } else {
        spec_find_stream(s.skip(1), id)
    }
}

/// All identifiers in the sequence are distinct.
pub open spec fn spec_ids_unique(s: Seq<Stream>) -> bool {
    forall|i: int, j: int| 0 <= i < j < s.len() ==> s[i].id != s[j].id
}

/// With unique identifiers, the lookup finds exactly the element that
/// carries the identifier.
pub proof fn lemma_find_stream_at(s: Seq<Stream>, id: StreamId, i: int)
    requires
        spec_ids_unique(s),
        0 <= i < s.len(),
        s[i].id == id,
    ensures
        spec_find_stream(s, id) == Some(s[i]),
    decreases s.len(),
{
    if i == 0 {
    } else {
        assert(s[0].id != id);
        assert(s.skip(1)[i - 1] == s[i]);
        assert(spec_ids_unique(s.skip(1))) by {
            assert(forall|a: int, b: int|
                0 <= a < b < s.skip(1).len() ==> s.skip(1)[a] == s[a + 1] && s.skip(1)[b] == s[b
                    + 1]);
        }
        lemma_find_stream_at(s.skip(1), id, i - 1);
    }
}

/// An identifier nothing carries is not found.
pub proof fn lemma_find_stream_absent(s: Seq<Stream>, id: StreamId)
    requires
        forall|i: int| 0 <= i < s.len() ==> (#[trigger] s[i]).id != id,
    ensures
        spec_find_stream(s, id) is None,
    decreases s.len(),
{
    if s.len() > 0 {
        assert(forall|i: int|
            0 <= i < s.skip(1).len() ==> (#[trigger] s.skip(1)[i]).id == s[i + 1].id);
        lemma_find_stream_absent(s.skip(1), id);
    }
}

/// Replacing an element with one of the same identifier leaves every other
/// lookup unchanged.
pub proof fn lemma_find_stream_update_other(s: Seq<Stream>, i: int, v: Stream, other: StreamId)
    requires
        0 <= i < s.len(),
        s[i].id == v.id,
        other != v.id,
    ensures
        spec_find_stream(s.update(i, v), other) == spec_find_stream(s, other),
    decreases s.len(),
{
    let u = s.update(i, v);
    if i == 0 {
        assert(u[0] == v);
        assert(u.skip(1) =~= s.skip(1));
    } else {
        assert(u[0] == s[0]);
        if s[0].id != other {
            assert(u.skip(1) =~= s.skip(1).update(i - 1, v));
            assert(s.skip(1)[i - 1] == s[i]);
            lemma_find_stream_update_other(s.skip(1), i - 1, v, other);
        }
    }
}

/// Appending a stream leaves every other lookup unchanged.
pub proof fn lemma_find_stream_push_other(s: Seq<Stream>, v: Stream, other: StreamId)
    requires
        other != v.id,
    ensures
        spec_find_stream(s.push(v), other) == spec_find_stream(s, other),
    decreases s.len(),
{
    if s.len() == 0 {
        assert(s.push(v)[0] == v);
        assert(s.push(v).skip(1) =~= Seq::<Stream>::empty());
        assert(spec_find_stream(Seq::<Stream>::empty(), other) is None);
    } else {
        assert(s.push(v)[0] == s[0]);
        if s[0].id != other {
            assert(s.push(v).skip(1) =~= s.skip(1).push(v));
            lemma_find_stream_push_other(s.skip(1), v, other);
        }
    }
}

/// What `get_mut` leaves behind, seen through the lookup: either the stored
/// stream under `id` was already there, or a fresh one now sits at the end;
/// every other identifier resolves as before.
pub proof fn lemma_get_mut_find(s0: Seq<Stream>, mid: Seq<Stream>, i: int, id: StreamId, initial: u32)
    requires
        spec_ids_unique(s0),
        spec_ids_unique(mid),
        0 <= i < mid.len(),
        mid[i].id == id,
        mid == s0 || (mid.len() == s0.len() + 1 && mid.subrange(0, s0.len() as int) == s0
            && mid.last().is_fresh(id, initial)),
    ensures
        mid == s0 ==> spec_find_stream(s0, id) == Some(s0[i]),
        mid != s0 ==> spec_find_stream(s0, id) is None && i == s0.len() && mid[i].is_fresh(
            id,
            initial,
        ),
        forall|o: StreamId| o != id ==> spec_find_stream(mid, o) == spec_find_stream(s0, o),
{
    if mid == s0 {
        lemma_find_stream_at(s0, id, i);
        assert(forall|o: StreamId|
            o != id ==> spec_find_stream(mid, o) == spec_find_stream(s0, o));
    } else {
        assert(mid.last().id == id);
        assert(forall|k: int| 0 <= k < s0.len() ==> #[trigger] mid[k] == s0[k]);
        assert(forall|k: int| 0 <= k < s0.len() ==> (#[trigger] s0[k]).id != id) by {
            assert(forall|k: int|
                0 <= k < s0.len() ==> mid[k].id != mid[s0.len() as int].id && #[trigger] s0[k]
                    == mid[k]);
        }
        lemma_find_stream_absent(s0, id);
        assert(i == s0.len()) by {
            if i < s0.len() {
                assert(mid[i].id == mid[s0.len() as int].id);
            }
        }
        assert(mid =~= s0.push(mid.last()));
        assert forall|o: StreamId| o != id implies spec_find_stream(mid, o) == spec_find_stream(
            s0,
            o,
        ) by {
            lemma_find_stream_push_other(s0, mid.last(), o);
        }
    }
}

/// Writing a stream back under its identifier: the lookup now yields it,
/// and every other identifier resolves as before.
pub proof fn lemma_put_back_find(mid: Seq<Stream>, fin: Seq<Stream>, i: int, s2: Stream)
    requires
        spec_ids_unique(mid),
        0 <= i < mid.len(),
        s2.id == mid[i].id,
        fin == mid.update(i, s2),
    ensures
        spec_find_stream(fin, s2.id) == Some(s2),
        forall|o: StreamId| o != s2.id ==> spec_find_stream(fin, o) == spec_find_stream(mid, o),
{
    assert(spec_ids_unique(fin)) by {
        assert(forall|a: int| 0 <= a < fin.len() ==> (#[trigger] fin[a]).id == mid[a].id);
    }
    lemma_find_stream_at(fin, s2.id, i);
    assert forall|o: StreamId| o != s2.id implies spec_find_stream(fin, o) == spec_find_stream(
        mid,
        o,
    ) by {
        lemma_find_stream_update_other(mid, i, s2, o);
    }
}

} // verus!
