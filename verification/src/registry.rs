use vstd::prelude::*;
use crate::events::DomainEvent;
use crate::sse::{Broadcaster, SendOutcome, SseError, SseRxClient};
use crate::x_accept::ContentType;

verus! {

/// The process-wide map from room identity to that room's broadcaster.
/// Entries are created lazily on first subscription and never removed.
pub struct Registry {
    pub rooms: Vec<(u128, Broadcaster)>,
}

/// The clients registered for a room: those of the first entry under
/// its identity, or none where the room has no broadcaster.
pub open spec fn spec_room_clients(s: Seq<(u128, Broadcaster)>, uuid: u128) -> Seq<
    crate::sse::SseTxClient,
>
    decreases s.len(),
{
    if s.len() == 0 {
        Seq::<crate::sse::SseTxClient>::empty()
    } else if s[0].0 == uuid {
        s[0].1.clients@
    } else {
        spec_room_clients(s.drop_first(), uuid)
    }
}

/// The clients of a room are those of its first entry.
proof fn lemma_room_clients_at(s: Seq<(u128, Broadcaster)>, uuid: u128, i: int)
    requires
        0 <= i < s.len(),
        s[i].0 == uuid,
        forall|j: int| 0 <= j < i ==> (#[trigger] s[j]).0 != uuid,
    ensures
        spec_room_clients(s, uuid) == s[i].1.clients@,
    decreases i,
{
    if i > 0 {
        let rest = s.drop_first();
        assert forall|j: int| 0 <= j < i - 1 implies (#[trigger] rest[j]).0 != uuid by {
            assert(rest[j] == s[j + 1]);
        }
        assert(rest[i - 1] == s[i]);
        lemma_room_clients_at(rest, uuid, i - 1);
    }
}

/// Entries under other identities do not move a room's clients.
proof fn lemma_room_clients_same_entries(
    s1: Seq<(u128, Broadcaster)>,
    s2: Seq<(u128, Broadcaster)>,
    u: u128,
)
    requires
        s1.len() == s2.len(),
        forall|j: int| 0 <= j < s1.len() ==> (#[trigger] s1[j]).0 == s2[j].0,
        forall|j: int|
            0 <= j < s1.len() ==> ((#[trigger] s1[j]).0 == u ==> s1[j].1.clients@
                == s2[j].1.clients@),
    ensures
        spec_room_clients(s1, u) == spec_room_clients(s2, u),
    decreases s1.len(),
{
    if s1.len() > 0 {
        assert(s1[0].0 == s2[0].0);
        if s1[0].0 == u {
            assert(s1[0].1.clients@ == s2[0].1.clients@);
        } else {
            let r1 = s1.drop_first();
            let r2 = s2.drop_first();
            assert forall|j: int| 0 <= j < r1.len() implies (#[trigger] r1[j]).0 == r2[j].0 by {
                assert(r1[j] == s1[j + 1] && r2[j] == s2[j + 1]);
            }
            assert forall|j: int|
                0 <= j < r1.len() implies ((#[trigger] r1[j]).0 == u ==> r1[j].1.clients@
                    == r2[j].1.clients@) by {
                assert(r1[j] == s1[j + 1] && r2[j] == s2[j + 1]);
            }
            lemma_room_clients_same_entries(r1, r2, u);
        }
    }
}

/// Appending an entry under another identity does not move a room's
/// clients.
proof fn lemma_room_clients_push_other(s: Seq<(u128, Broadcaster)>, e: (u128, Broadcaster), u: u128)
    requires
        e.0 != u,
    ensures
        spec_room_clients(s.push(e), u) == spec_room_clients(s, u),
    decreases s.len(),
{
    if s.len() == 0 {
        assert(s.push(e)[0] == e);
        assert(s.push(e).drop_first() =~= Seq::<(u128, Broadcaster)>::empty());
        assert(spec_room_clients(Seq::<(u128, Broadcaster)>::empty(), u) == Seq::<
            crate::sse::SseTxClient,
        >::empty());
    } else {
        assert(s.push(e)[0] == s[0]);
        assert(s.push(e).drop_first() =~= s.drop_first().push(e));
        lemma_room_clients_push_other(s.drop_first(), e, u);
    }
}

/// A room without an entry has no clients.
proof fn lemma_room_clients_absent(s: Seq<(u128, Broadcaster)>, uuid: u128)
    requires
        forall|j: int| 0 <= j < s.len() ==> (#[trigger] s[j]).0 != uuid,
    ensures
        spec_room_clients(s, uuid) == Seq::<crate::sse::SseTxClient>::empty(),
    decreases s.len(),
{
    if s.len() > 0 {
        let rest = s.drop_first();
        assert forall|j: int| 0 <= j < rest.len() implies (#[trigger] rest[j]).0 != uuid by {
            assert(rest[j] == s[j + 1]);
        }
        lemma_room_clients_absent(rest, uuid);
    }
}

impl Registry {
    /// Exactly one broadcaster exists per room identity.
    pub open spec fn wf(self) -> bool {
        forall|i: int, j: int|
            0 <= i < j < self.rooms@.len() ==> (#[trigger] self.rooms@[i]).0 != (
            #[trigger] self.rooms@[j]).0
    }

    pub fn new() -> (r: Registry)
        ensures
            r.wf(),
            r.rooms@.len() == 0,
    {
        Registry { rooms: Vec::new() }
    }

    /// The position of a room's broadcaster, if the room has one.
    fn find_room(&self, room_uuid: u128) -> (r: Option<usize>)
        ensures
            match r {
                Some(i) => i < self.rooms@.len() && self.rooms@[i as int].0 == room_uuid
                    && forall|j: int|
                    0 <= j < i ==> (#[trigger] self.rooms@[j]).0 != room_uuid,
                None => forall|j: int|
                    0 <= j < self.rooms@.len() ==> (#[trigger] self.rooms@[j]).0 != room_uuid,
            },
    {
        let n = self.rooms.len();
        let mut i: usize = 0;
        while i < n
            invariant
                n == self.rooms@.len(),
                i <= n,
                forall|j: int| 0 <= j < i ==> (#[trigger] self.rooms@[j]).0 != room_uuid,
            decreases n - i,
        {
            if self.rooms[i].0 == room_uuid {
                return Some(i);
            }
            i += 1;
        }
        None
    }

    /// The broadcaster's position for the room, creating an empty one
    /// when the room has none yet; every other entry stays as it was.
    pub fn get_or_create(&mut self, room_uuid: u128) -> (idx: usize)
        requires
            old(self).wf(),
        ensures
            final(self).wf(),
            idx < final(self).rooms@.len(),
            final(self).rooms@[idx as int].0 == room_uuid,
            (exists|i: int|
                0 <= i < old(self).rooms@.len() && (#[trigger] old(self).rooms@[i]).0
                    == room_uuid) ==> *final(self) == *old(self),
            (forall|i: int|
                0 <= i < old(self).rooms@.len() ==> (#[trigger] old(self).rooms@[i]).0
                    != room_uuid) ==> (final(self).rooms@.len() == old(self).rooms@.len() + 1
                && final(self).rooms@.subrange(0, old(self).rooms@.len() as int) == old(
                self,
            ).rooms@ && final(self).rooms@.last().0 == room_uuid
                && final(self).rooms@.last().1.clients@.len() == 0),
    {
        match self.find_room(room_uuid) {
            Some(i) => i,
            None => {
                let idx = self.rooms.len();
                self.rooms.push((room_uuid, Broadcaster::new(room_uuid)));
                proof {
                    assert(final(self).rooms@.subrange(0, old(self).rooms@.len() as int) =~= old(
                        self,
                    ).rooms@);
                }
                idx
            },
        }
    }

    /// Subscribes one client to a room under its negotiated encoding,
    /// creating the room's broadcaster on first subscription. On
    /// success the room gained exactly that one client, at the end of
    /// its client set; on failure the room's clients are as they were.
    /// Other rooms are untouched either way.
    pub fn subscribe(&mut self, room_uuid: u128, content_type: ContentType) -> (r: Result<
        SseRxClient,
        SseError,
    >)
        requires
            old(self).wf(),
        ensures
            final(self).wf(),
            forall|u: u128|
                u != room_uuid ==> #[trigger] spec_room_clients(final(self).rooms@, u)
                    == spec_room_clients(old(self).rooms@, u),
            ({
                let was = spec_room_clients(old(self).rooms@, room_uuid);
                let now = spec_room_clients(final(self).rooms@, room_uuid);
                match r {
                    Ok(rx) => {
                        &&& rx.content_type == content_type
                        &&& now.len() == was.len() + 1
                        &&& now.subrange(0, was.len() as int) == was
                        &&& now.last().content_type == content_type
                    },
                    Err(_) => now == was,
                }
            }),
    {
        let idx = self.get_or_create(room_uuid);
        let ghost mid = self.rooms@;
        proof {
            assert forall|j: int| 0 <= j < idx implies (#[trigger] mid[j]).0 != room_uuid by {
                assert(mid[j].0 != mid[idx as int].0);
            }
            lemma_room_clients_at(mid, room_uuid, idx as int);
            if exists|i: int|
                0 <= i < old(self).rooms@.len() && (#[trigger] old(self).rooms@[i]).0
                    == room_uuid {
                assert(mid == old(self).rooms@);
            } else {
                lemma_room_clients_absent(old(self).rooms@, room_uuid);
                assert(mid =~= old(self).rooms@.push(mid.last()));
                assert(spec_room_clients(mid, room_uuid) =~= Seq::<
                    crate::sse::SseTxClient,
                >::empty());
            }
            assert(spec_room_clients(mid, room_uuid) == spec_room_clients(
                old(self).rooms@,
                room_uuid,
            ));
            assert forall|u: u128|
                u != room_uuid implies #[trigger] spec_room_clients(mid, u) == spec_room_clients(
                old(self).rooms@,
                u,
            ) by {
                if !(exists|i: int|
                    0 <= i < old(self).rooms@.len() && (#[trigger] old(self).rooms@[i]).0
                        == room_uuid) {
                    lemma_room_clients_push_other(old(self).rooms@, mid.last(), u);
                }
            }
        }
        let ghost before = self.rooms@;
        let mut entry = self.rooms.remove(idx);
        let result = entry.1.new_client(content_type);
        self.rooms.insert(idx, entry);
        proof {
            let fin = final(self).rooms@;
            assert(fin =~= before.update(idx as int, fin[idx as int]));
            assert(fin[idx as int].0 == room_uuid);
            assert forall|i: int, j: int|
                0 <= i < j < fin.len() implies (#[trigger] fin[i]).0 != (#[trigger] fin[j]).0 by {
                assert(before[i].0 == fin[i].0);
                assert(before[j].0 == fin[j].0);
            }
            assert forall|j: int| 0 <= j < idx implies (#[trigger] fin[j]).0 != room_uuid by {
                assert(fin[j].0 == before[j].0);
                assert(before[j].0 != before[idx as int].0);
            }
            lemma_room_clients_at(fin, room_uuid, idx as int);
            assert forall|u: u128|
                u != room_uuid implies #[trigger] spec_room_clients(fin, u) == spec_room_clients(
                before,
                u,
            ) by {
                assert forall|j: int| 0 <= j < fin.len() implies (#[trigger] fin[j]).0
                    == before[j].0 by {}
                assert forall|j: int|
                    0 <= j < fin.len() implies ((#[trigger] fin[j]).0 == u ==> fin[j].1.clients@
                        == before[j].1.clients@) by {
                    if fin[j].0 == u {
                        assert(j != idx as int);
                    }
                }
                lemma_room_clients_same_entries(fin, before, u);
            }
        }
        match result {
            Ok(rx) => Ok(rx),
            Err(e) => Err(e),
        }
    }

    /// Fans one event out to every client of the room's broadcaster,
    /// best effort, and reports the per-client outcomes; a room nobody
    /// ever subscribed to has no broadcaster and the call reports that
    /// instead.
    pub fn publish(&self, room_uuid: u128, event: &DomainEvent) -> (r: Option<Vec<SendOutcome>>)
        requires
            self.wf(),
        ensures
            match r {
                Some(outcomes) => outcomes@.len() == spec_room_clients(
                    self.rooms@,
                    room_uuid,
                ).len() && exists|i: int|
                    0 <= i < self.rooms@.len() && (#[trigger] self.rooms@[i]).0 == room_uuid,
                None => forall|j: int|
                    0 <= j < self.rooms@.len() ==> (#[trigger] self.rooms@[j]).0 != room_uuid,
            },
    {
        match self.find_room(room_uuid) {
            Some(i) => {
                proof {
                    lemma_room_clients_at(self.rooms@, room_uuid, i as int);
                }
                Some(self.rooms[i].1.send(event))
            },
            None => None,
        }
    }

    /// Runs one heartbeat tick for the room's broadcaster, reaping every
    /// client whose delivery attempt was refused; reports which clients
    /// stayed. Other rooms are untouched.
    pub fn remove_stale(&mut self, room_uuid: u128) -> (r: Option<Vec<bool>>)
        requires
            old(self).wf(),
        ensures
            final(self).wf(),
            forall|u: u128|
                u != room_uuid ==> #[trigger] spec_room_clients(final(self).rooms@, u)
                    == spec_room_clients(old(self).rooms@, u),
            match r {
                Some(kept) => {
                    &&& kept@.len() == spec_room_clients(old(self).rooms@, room_uuid).len()
                    &&& spec_room_clients(final(self).rooms@, room_uuid)
                        == crate::sse::filter_by_flags(
                        spec_room_clients(old(self).rooms@, room_uuid),
                        kept@,
                    )
                    &&& final(self).rooms@.len() == old(self).rooms@.len()
                },
                None => *final(self) == *old(self) && forall|j: int|
                    0 <= j < old(self).rooms@.len() ==> (#[trigger] old(self).rooms@[j]).0
                        != room_uuid,
            },
    {
        match self.find_room(room_uuid) {
            Some(idx) => {
                let ghost before = self.rooms@;
                proof {
                    assert forall|j: int| 0 <= j < idx implies (#[trigger] before[j]).0
                        != room_uuid by {
                        assert(before[j].0 != before[idx as int].0);
                    }
                    lemma_room_clients_at(before, room_uuid, idx as int);
                }
                let mut entry = self.rooms.remove(idx);
                let kept = entry.1.remove_stale_clients();
                self.rooms.insert(idx, entry);
                proof {
                    let fin = final(self).rooms@;
                    assert(fin =~= before.update(idx as int, fin[idx as int]));
                    assert(fin[idx as int].0 == room_uuid);
                    assert forall|i: int, j: int|
                        0 <= i < j < fin.len() implies (#[trigger] fin[i]).0 != (
                        #[trigger] fin[j]).0 by {
                        assert(before[i].0 == fin[i].0);
                        assert(before[j].0 == fin[j].0);
                    }
                    assert forall|j: int| 0 <= j < idx implies (#[trigger] fin[j]).0
                        != room_uuid by {
                        assert(fin[j].0 == before[j].0);
                        assert(before[j].0 != before[idx as int].0);
                    }
                    lemma_room_clients_at(fin, room_uuid, idx as int);
                    assert forall|u: u128|
                        u != room_uuid implies #[trigger] spec_room_clients(fin, u)
                            == spec_room_clients(before, u) by {
                        assert forall|j: int| 0 <= j < fin.len() implies (#[trigger] fin[j]).0
                            == before[j].0 by {}
                        assert forall|j: int|
                            0 <= j < fin.len() implies ((#[trigger] fin[j]).0 == u
                                ==> fin[j].1.clients@ == before[j].1.clients@) by {
                            if fin[j].0 == u {
                                assert(j != idx as int);
                            }
                        }
                        lemma_room_clients_same_entries(fin, before, u);
                    }
                }
                Some(kept)
            },
            None => None,
        }
    }

    /// How many clients the room's broadcaster holds, if it exists.
    pub fn client_count(&self, room_uuid: u128) -> (r: Option<usize>)
        requires
            self.wf(),
        ensures
            match r {
                Some(n) => n == spec_room_clients(self.rooms@, room_uuid).len() && exists|i: int|
                    0 <= i < self.rooms@.len() && (#[trigger] self.rooms@[i]).0 == room_uuid,
                None => forall|j: int|
                    0 <= j < self.rooms@.len() ==> (#[trigger] self.rooms@[j]).0 != room_uuid,
            },
    {
        match self.find_room(room_uuid) {
            Some(i) => {
                proof {
                    lemma_room_clients_at(self.rooms@, room_uuid, i as int);
                }
                Some(self.rooms[i].1.client_count())
            },
            None => None,
        }
    }
}

} // verus!
