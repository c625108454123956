use vstd::prelude::*;

use crate::room::Room;

verus! {

/// The room registry: maps a room name to that room's members. Rooms are
/// created lazily on first join and persist for the life of the process;
/// the registry never shrinks.
pub struct RoomRegistry<T> {
    rooms: Vec<(Vec<u8>, Room<T>)>,
}

impl<T> RoomRegistry<T> {
    /// Well-formed: no room name occurs twice, and every room is
    /// well-formed.
    pub closed spec fn wf(&self) -> bool {
        &&& forall|i: int, j: int|
            0 <= i < j < self.rooms@.len() ==> self.rooms@[i].0@ != self.rooms@[j].0@
        &&& forall|i: int| 0 <= i < self.rooms@.len() ==> (#[trigger] self.rooms@[i].1).wf()
    }

    /// Whether a room of this name exists.
    pub closed spec fn has_room(&self, name: Seq<u8>) -> bool {
        exists|i: int| 0 <= i < self.rooms@.len() && self.rooms@[i].0@ == name
    }

    /// The room registered under `name` (meaningful when `has_room(name)`).
    pub closed spec fn room_at(&self, name: Seq<u8>) -> Room<T> {
        let i = choose|i: int| 0 <= i < self.rooms@.len() && self.rooms@[i].0@ == name;
        self.rooms@[i].1
    }

    /// Whether client `id` is currently a member of room `name`.
    pub open spec fn member(&self, name: Seq<u8>, id: u64) -> bool {
        self.has_room(name) && self.room_at(name).has(id)
    }

    /// The outbound handle of member `id` of room `name`.
    pub open spec fn handle_in(&self, name: Seq<u8>, id: u64) -> T {
        self.room_at(name).handle_of(id)
    }

    /// How many rooms exist.
    pub closed spec fn room_count(&self) -> nat {
        self.rooms@.len()
    }

    /// An empty registry: no rooms at all.
    pub fn new() -> (r: RoomRegistry<T>)
        ensures
            r.wf(),
            r.room_count() == 0,
            forall|n: Seq<u8>| !r.has_room(n),
    {
        RoomRegistry { rooms: Vec::new() }
    }

    /// How many rooms exist.
    pub fn len(&self) -> (n: usize)
        ensures
            n == self.room_count(),
    {
        self.rooms.len()
    }

    /// The index of the room named `name`, if one exists.
    fn index_of_room(&self, name: &Vec<u8>) -> (r: Option<usize>)
        ensures
            match r {
                Some(i) => i < self.rooms@.len() && self.rooms@[i as int].0@ == name@,
                None => !self.has_room(name@),
            },
    {
        let n: usize = self.rooms.len();
        let mut k: usize = 0;
        while k < n
            invariant
                n == self.rooms@.len(),
                0 <= k <= n,
                forall|j: int| 0 <= j < k ==> self.rooms@[j].0@ != name@,
            decreases n - k,
        {
            if crate::bytes_eq(&self.rooms[k].0, name) {
                return Some(k);
            }
            k = k + 1;
        }
        None
    }

    /// Under one exclusive borrow: finds the room named `name`, creating it
    /// empty if absent, and registers `id` with its outbound handle there.
    /// No other room and no other member is touched.
    pub fn join(&mut self, name: &Vec<u8>, id: u64, handle: T)
        requires
            old(self).wf(),
        ensures
            final(self).wf(),
            final(self).has_room(name@),
            final(self).member(name@, id),
            final(self).handle_in(name@, id) == handle,
            forall|n: Seq<u8>| n != name@ ==> final(self).has_room(n) == old(self).has_room(n),
            forall|n: Seq<u8>|
                n != name@ && old(self).has_room(n) ==> final(self).room_at(n) == old(
                    self,
                ).room_at(n),
            forall|j: u64|
                j != id ==> final(self).member(name@, j) == old(self).member(name@, j),
            forall|j: u64|
                j != id && old(self).member(name@, j) ==> final(self).handle_in(name@, j) == old(
                    self,
                ).handle_in(name@, j),
            final(self).room_count() == if old(self).has_room(name@) {
                old(self).room_count()
            } else {
                old(self).room_count() + 1
            },
    {
        let found = self.index_of_room(name);
        match found {
            Some(i) => {
                proof {
                    let m0 = old(self).rooms@;
                    assert forall|k: int| 0 <= k < m0.len() && m0[k].0@ == name@ implies k
                        == i as int by {
                        if k != i as int {
                            assert(m0[k].0@ == m0[i as int].0@);
                        }
                    }
                    assert(old(self).room_at(name@) == m0[i as int].1);
                    assert(m0[i as int].1.wf());
                }
                self.rooms[i].1.join(id, handle);
                proof {
                    let m0 = old(self).rooms@;
                    let m1 = self.rooms@;
                    let iv = i as int;
                    assert(m1.len() == m0.len());
                    assert(m1[iv].0 == m0[iv].0);
                    assert forall|k: int| 0 <= k < m1.len() && k != iv implies m1[k] == m0[k] by {}
                    assert(self.wf());
                    assert forall|k: int| 0 <= k < m1.len() && m1[k].0@ == name@ implies k == iv by {
                        if k != iv {
                            assert(m0[k].0@ == m0[iv].0@);
                        }
                    }
                    assert(self.has_room(name@));
                    assert(self.room_at(name@) == m1[iv].1);
                    assert forall|n: Seq<u8>| n != name@ implies self.has_room(n) == old(
                        self,
                    ).has_room(n) && (old(self).has_room(n) ==> self.room_at(n) == old(
                        self,
                    ).room_at(n)) by {
                        if old(self).has_room(n) {
                            let k0 = choose|k: int| 0 <= k < m0.len() && m0[k].0@ == n;
                            assert(k0 != iv);
                            assert(m1[k0].0@ == n);
                            assert(self.has_room(n));
                            let k1 = choose|k: int| 0 <= k < m1.len() && m1[k].0@ == n;
                            if k1 != k0 {
                                if k1 != iv {
                                    assert(m0[k1].0@ == n);
                                }
                                assert(false);
                            }
                        }
                        if self.has_room(n) {
                            let k1 = choose|k: int| 0 <= k < m1.len() && m1[k].0@ == n;
                            assert(k1 != iv);
                            assert(m0[k1].0@ == n);
                        }
                    }
                }
            },
            None => {
                let mut room: Room<T> = Room::new();
                room.join(id, handle);
                let name_c = crate::to_owned_bytes(name);
                self.rooms.push((name_c, room));
                proof {
                    let m0 = old(self).rooms@;
                    let m1 = self.rooms@;
                    let n_len: int = m0.len() as int;
                    assert(m1[n_len].0@ == name@);
                    assert(self.has_room(name@));
                    assert forall|k: int| 0 <= k < m1.len() && m1[k].0@ == name@ implies k
                        == n_len by {
                        if k < n_len {
                            assert(m0[k].0@ == name@);
                        }
                    }
                    assert(self.room_at(name@) == m1[n_len].1);
                    assert(self.wf());
                    assert forall|n: Seq<u8>| n != name@ implies self.has_room(n) == old(
                        self,
                    ).has_room(n) && (old(self).has_room(n) ==> self.room_at(n) == old(
                        self,
                    ).room_at(n)) by {
                        if old(self).has_room(n) {
                            let k0 = choose|k: int| 0 <= k < m0.len() && m0[k].0@ == n;
                            assert(m1[k0].0@ == n);
                            assert(self.has_room(n));
                            let k1 = choose|k: int| 0 <= k < m1.len() && m1[k].0@ == n;
                            assert(k1 != n_len);
                            if k1 != k0 {
                                assert(m0[k1].0@ == n);
                                assert(false);
                            }
                        }
                        if self.has_room(n) {
                            let k1 = choose|k: int| 0 <= k < m1.len() && m1[k].0@ == n;
                            assert(k1 != n_len);
                            assert(m0[k1].0@ == n);
                        }
                    }
                }
            },
        }
    }

    /// Removes `id` from room `name` if present; absent room or absent
    /// member is no error. Rooms are never deleted, and no other room or
    /// member is touched.
    pub fn leave(&mut self, name: &Vec<u8>, id: u64)
        requires
            old(self).wf(),
        ensures
            final(self).wf(),
            !final(self).member(name@, id),
            forall|n: Seq<u8>| final(self).has_room(n) == old(self).has_room(n),
            forall|n: Seq<u8>|
                n != name@ && old(self).has_room(n) ==> final(self).room_at(n) == old(
                    self,
                ).room_at(n),
            forall|j: u64|
                j != id ==> final(self).member(name@, j) == old(self).member(name@, j),
            forall|j: u64|
                j != id && old(self).member(name@, j) ==> final(self).handle_in(name@, j) == old(
                    self,
                ).handle_in(name@, j),
            final(self).room_count() == old(self).room_count(),
    {
        let found = self.index_of_room(name);
        match found {
            Some(i) => {
                proof {
                    let m0 = old(self).rooms@;
                    assert forall|k: int| 0 <= k < m0.len() && m0[k].0@ == name@ implies k
                        == i as int by {
                        if k != i as int {
                            assert(m0[k].0@ == m0[i as int].0@);
                        }
                    }
                    assert(old(self).room_at(name@) == m0[i as int].1);
                    assert(m0[i as int].1.wf());
                }
                self.rooms[i].1.leave(id);
                proof {
                    let m0 = old(self).rooms@;
                    let m1 = self.rooms@;
                    let iv = i as int;
                    assert(m1.len() == m0.len());
                    assert(m1[iv].0 == m0[iv].0);
                    assert forall|k: int| 0 <= k < m1.len() && k != iv implies m1[k] == m0[k] by {}
                    assert(self.wf());
                    assert forall|k: int| 0 <= k < m1.len() && m1[k].0@ == name@ implies k == iv by {
                        if k != iv {
                            assert(m0[k].0@ == m0[iv].0@);
                        }
                    }
                    assert(self.room_at(name@) == m1[iv].1);
                    assert forall|n: Seq<u8>| n != name@ implies self.has_room(n) == old(
                        self,
                    ).has_room(n) && (old(self).has_room(n) ==> self.room_at(n) == old(
                        self,
                    ).room_at(n)) by {
                        if old(self).has_room(n) {
                            let k0 = choose|k: int| 0 <= k < m0.len() && m0[k].0@ == n;
                            assert(k0 != iv);
                            assert(m1[k0].0@ == n);
                            assert(self.has_room(n));
                            let k1 = choose|k: int| 0 <= k < m1.len() && m1[k].0@ == n;
                            if k1 != k0 {
                                if k1 != iv {
                                    assert(m0[k1].0@ == n);
                                }
                                assert(false);
                            }
                        }
                        if self.has_room(n) {
                            let k1 = choose|k: int| 0 <= k < m1.len() && m1[k].0@ == n;
                            assert(k1 != iv);
                            assert(m0[k1].0@ == n);
                        }
                    }
                }
            },
            None => {},
        }
    }

    /// The ids a message from `sender` in room `name` is fanned out to:
    /// every current member of that room except the sender, each exactly
    /// once; nobody if the room does not exist.
    pub fn recipients(&self, name: &Vec<u8>, sender: u64) -> (r: Vec<u64>)
        requires
            self.wf(),
        ensures
            r@.no_duplicates(),
            forall|id: u64| r@.contains(id) <==> (self.member(name@, id) && id != sender),
    {
        let found = self.index_of_room(name);
        match found {
            Some(i) => {
                proof {
                    let m0 = self.rooms@;
                    assert forall|k: int| 0 <= k < m0.len() && m0[k].0@ == name@ implies k
                        == i as int by {
                        if k != i as int {
                            assert(m0[k].0@ == m0[i as int].0@);
                        }
                    }
                    assert(self.room_at(name@) == m0[i as int].1);
                    assert(m0[i as int].1.wf());
                }
                self.rooms[i].1.recipients(sender)
            },
            None => {
                let r: Vec<u64> = Vec::new();
                r
            },
        }
    }

    /// Looks up the outbound handle of member `id` of room `name`.
    pub fn get(&self, name: &Vec<u8>, id: u64) -> (r: Option<&T>)
        requires
            self.wf(),
        ensures
            match r {
                Some(h) => self.member(name@, id) && *h == self.handle_in(name@, id),
                None => !self.member(name@, id),
            },
    {
        let found = self.index_of_room(name);
        match found {
            Some(i) => {
                proof {
                    let m0 = self.rooms@;
                    assert forall|k: int| 0 <= k < m0.len() && m0[k].0@ == name@ implies k
                        == i as int by {
                        if k != i as int {
                            assert(m0[k].0@ == m0[i as int].0@);
                        }
                    }
                    assert(self.room_at(name@) == m0[i as int].1);
                    assert(m0[i as int].1.wf());
                }
                self.rooms[i].1.get(id)
            },
            None => None,
        }
    }

    /// A message fanned out in room `x` is observed by members of room `x`
    /// alone: a client of a different room that is not also a member of
    /// `x` is never among the recipients.
    pub proof fn lemma_rooms_isolated(
        &self,
        x: Seq<u8>,
        y: Seq<u8>,
        sender: u64,
        c: u64,
        r: Seq<u64>,
    )
        requires
            self.wf(),
            forall|id: u64| r.contains(id) <==> (self.member(x, id) && id != sender),
            x != y,
            self.member(y, c),
            !self.member(x, c),
        ensures
            !r.contains(c),
    {
    }
}

} // verus!
