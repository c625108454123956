use vstd::prelude::*;

verus! {

/// The members of one room: each connected client's id mapped to the
/// handle of its outbound queue. The handle type is whatever the
/// surrounding service uses to reach a client; the room never looks
/// inside it.
pub struct Room<T> {
    members: Vec<(u64, T)>,
}

impl<T> Room<T> {
    /// Well-formed: no client id occurs twice.
    pub closed spec fn wf(&self) -> bool {
        forall|i: int, j: int|
            0 <= i < j < self.members@.len() ==> self.members@[i].0 != self.members@[j].0
    }

    /// How many clients are registered.
    pub closed spec fn len(&self) -> nat {
        self.members@.len()
    }

    /// Whether the client `id` is registered.
    pub closed spec fn has(&self, id: u64) -> bool {
        exists|i: int| 0 <= i < self.members@.len() && self.members@[i].0 == id
    }

    /// The handle registered for `id` (meaningful when `has(id)`).
    pub closed spec fn handle_of(&self, id: u64) -> T {
        let i = choose|i: int| 0 <= i < self.members@.len() && self.members@[i].0 == id;
        self.members@[i].1
    }

    /// A room starts empty.
    pub fn new() -> (r: Room<T>)
        ensures
            r.wf(),
            r.len() == 0,
            forall|id: u64| !r.has(id),
    {
        Room { members: Vec::new() }
    }

    /// How many clients are registered.
    pub fn member_count(&self) -> (n: usize)
        ensures
            n == self.len(),
    {
        self.members.len()
    }

    /// The index at which `id` is registered, if it is.
    fn index_of(&self, id: u64) -> (r: Option<usize>)
        ensures
            match r {
                Some(i) => i < self.members@.len() && self.members@[i as int].0 == id,
                None => !self.has(id),
            },
    {
        let n: usize = self.members.len();
        let mut k: usize = 0;
        while k < n
            invariant
                n == self.members@.len(),
                0 <= k <= n,
                forall|j: int| 0 <= j < k ==> self.members@[j].0 != id,
            decreases n - k,
    {
            if self.members[k].0 == id {
                return Some(k);
            }
            k = k + 1;
        }
        None
    }

    /// Registers `id` with its outbound handle. A fresh id is appended; an
    /// id already present has its handle replaced, so the call is
    /// idempotent per client id. No other member is touched.
    pub fn join(&mut self, id: u64, handle: T)
        requires
            old(self).wf(),
        ensures
            final(self).wf(),
            final(self).has(id),
            final(self).handle_of(id) == handle,
            forall|j: u64| j != id ==> final(self).has(j) == old(self).has(j),
            forall|j: u64|
                j != id && old(self).has(j) ==> final(self).handle_of(j) == old(self).handle_of(j),
            final(self).len() == if old(self).has(id) {
                old(self).len()
            } else {
                old(self).len() + 1
            },
    {
        let found = self.index_of(id);
        match found {
            Some(i) => {
                self.members[i] = (id, handle);
                proof {
                    let m0 = old(self).members@;
                    let m1 = self.members@;
                    assert(m1[i as int].0 == id);
                    assert(m1[i as int].1 == handle);
                    assert(self.has(id));
                    assert forall|k: int| 0 <= k < m1.len() implies m1[k].0 == m0[k].0 by {}
                    assert(self.wf());
                    assert forall|k: int| 0 <= k < m1.len() && m1[k].0 == id implies k == i as int by {
                        if k != i as int {
                            assert(m0[k].0 == id);
                        }
                    }
                    assert(self.handle_of(id) == handle);
                    assert forall|j: u64| j != id && old(self).has(j) implies self.has(j)
                        && self.handle_of(j) == old(self).handle_of(j) by {
                        let k0 = choose|k: int| 0 <= k < m0.len() && m0[k].0 == j;
                        assert(k0 != i as int);
                        assert(m1[k0].0 == j);
                        assert(self.has(j));
                        let k1 = choose|k: int| 0 <= k < m1.len() && m1[k].0 == j;
                        if k1 != k0 {
                            if k1 != i as int {
                                assert(m0[k1].0 == j);
                            }
                            assert(false);
                        }
                    }
                    assert forall|j: u64| j != id && self.has(j) implies old(self).has(j) by {
                        let k1 = choose|k: int| 0 <= k < m1.len() && m1[k].0 == j;
                        assert(k1 != i as int);
                        assert(m0[k1].0 == j);
                    }
                }
            },
            None => {
                self.members.push((id, handle));
                proof {
                    let m0 = old(self).members@;
                    let m1 = self.members@;
                    let n: int = m0.len() as int;
                    assert(m1[n].0 == id);
                    assert(self.has(id));
                    assert forall|k: int| 0 <= k < m1.len() && m1[k].0 == id implies k == n by {
                        if k < n {
                            assert(m0[k].0 == id);
                        }
                    }
                    assert(self.handle_of(id) == handle);
                    assert(self.wf());
                    assert forall|j: u64| j != id && old(self).has(j) implies self.has(j)
                        && self.handle_of(j) == old(self).handle_of(j) by {
                        let k0 = choose|k: int| 0 <= k < m0.len() && m0[k].0 == j;
                        assert(m1[k0].0 == j);
                        assert(self.has(j));
                        let k1 = choose|k: int| 0 <= k < m1.len() && m1[k].0 == j;
                        assert(k1 != n);
                        if k1 != k0 {
                            assert(m0[k1].0 == j);
                            assert(false);
                        }
                    }
                    assert forall|j: u64| j != id && self.has(j) implies old(self).has(j) by {
                        let k1 = choose|k: int| 0 <= k < m1.len() && m1[k].0 == j;
                        assert(k1 != n);
                        assert(m0[k1].0 == j);
                    }
                }
            },
        }
    }

    /// Removes `id` if present; removing an absent id is no error. No other
    /// member is touched, and the room itself persists.
    pub fn leave(&mut self, id: u64)
        requires
            old(self).wf(),
        ensures
            final(self).wf(),
            !final(self).has(id),
            forall|j: u64| j != id ==> final(self).has(j) == old(self).has(j),
            forall|j: u64|
                j != id && old(self).has(j) ==> final(self).handle_of(j) == old(self).handle_of(j),
            final(self).len() == if old(self).has(id) {
                (old(self).len() - 1) as nat
            } else {
                old(self).len()
            },
    {
        let found = self.index_of(id);
        match found {
            Some(i) => {
                self.members.remove(i);
                proof {
                    let m0 = old(self).members@;
                    let m1 = self.members@;
                    let iv = i as int;
                    assert(m1 == m0.remove(iv));
                    assert forall|k: int| 0 <= k < m1.len() implies m1[k] == (if k < iv {
                        m0[k]
                    } else {
                        m0[k + 1]
                    }) by {}
                    assert forall|k: int| 0 <= k < m1.len() implies m1[k].0 != id by {
                        if k < iv {
                            assert(m0[k].0 != m0[iv].0);
                        } else {
                            assert(m0[k + 1].0 != m0[iv].0);
                        }
                    }
                    assert(!self.has(id));
                    assert(self.wf());
                    assert forall|j: u64| j != id && old(self).has(j) implies self.has(j)
                        && self.handle_of(j) == old(self).handle_of(j) by {
                        let k0 = choose|k: int| 0 <= k < m0.len() && m0[k].0 == j;
                        assert(k0 != iv);
                        let k0n: int = if k0 < iv {
                            k0
                        } else {
                            k0 - 1
                        };
                        assert(m1[k0n].0 == j);
                        assert(self.has(j));
                        let k1 = choose|k: int| 0 <= k < m1.len() && m1[k].0 == j;
                        if k1 != k0n {
                            let k1o: int = if k1 < iv {
                                k1
                            } else {
                                k1 + 1
                            };
                            assert(m0[k1o].0 == j);
                            assert(k1o == k0);
                            assert(false);
                        }
                        assert(m1[k1].1 == m0[k0].1);
                    }
                    assert forall|j: u64| j != id && self.has(j) implies old(self).has(j) by {
                        let k1 = choose|k: int| 0 <= k < m1.len() && m1[k].0 == j;
                        let k1o: int = if k1 < iv {
                            k1
                        } else {
                            k1 + 1
                        };
                        assert(m0[k1o].0 == j);
                    }
                }
            },
            None => {},
        }
    }

    /// The ids a message from `sender` is fanned out to: every member
    /// currently registered, except the sender, each exactly once.
    pub fn recipients(&self, sender: u64) -> (r: Vec<u64>)
        requires
            self.wf(),
        ensures
            r@.no_duplicates(),
            forall|id: u64| r@.contains(id) <==> (self.has(id) && id != sender),
    {
        let n: usize = self.members.len();
        let mut r: Vec<u64> = Vec::new();
        let mut k: usize = 0;
        while k < n
            invariant
                self.wf(),
                n == self.members@.len(),
                0 <= k <= n,
                r@.no_duplicates(),
                forall|id: u64|
                    r@.contains(id) <==> (exists|j: int|
                        0 <= j < k && self.members@[j].0 == id && id != sender),
            decreases n - k,
        {
            let cur = self.members[k].0;
            if cur != sender {
                proof {
                    if r@.contains(cur) {
                        let j = choose|j: int|
                            0 <= j < k && self.members@[j].0 == cur && cur != sender;
                        assert(self.members@[j].0 == self.members@[k as int].0);
                        assert(false);
                    }
                }
                let ghost r0 = r@;
                r.push(cur);
                proof {
                    assert(r@ == r0.push(cur));
                    assert forall|a: int, b: int|
                        0 <= a < r@.len() && 0 <= b < r@.len() && a != b implies r@[a] != r@[b] by {
                        if a < r0.len() && b < r0.len() {
                        } else if b == r0.len() {
                            assert(r@[b] == cur);
                            assert(r0.contains(r0[a]) || a >= r0.len());
                            if a < r0.len() && r0[a] == cur {
                                assert(r0.contains(cur));
                                assert(false);
                            }
                        } else {
                            assert(r@[a] == cur);
                            if b < r0.len() && r0[b] == cur {
                                assert(r0.contains(cur));
                                assert(false);
                            }
                        }
                    }
                    assert forall|id: u64|
                        r@.contains(id) <==> (exists|j: int|
                            0 <= j < k + 1 && self.members@[j].0 == id && id != sender) by {
                        if r@.contains(id) {
                            let w = choose|w: int| 0 <= w < r@.len() && r@[w] == id;
                            if w < r0.len() {
                                assert(r0[w] == id);
                                assert(r0.contains(id));
                            } else {
                                assert(self.members@[k as int].0 == id);
                            }
                        }
                        if exists|j: int|
                            0 <= j < k + 1 && self.members@[j].0 == id && id != sender {
                            let j = choose|j: int|
                                0 <= j < k + 1 && self.members@[j].0 == id && id != sender;
                            if j < k {
                                assert(r0.contains(id));
                                let w = choose|w: int| 0 <= w < r0.len() && r0[w] == id;
                                assert(r@[w] == id);
                                assert(r@.contains(id));
                            } else {
                                assert(r@[r0.len() as int] == id);
                                assert(r@.contains(id));
                            }
                        }
                    }
                }
            }
            k = k + 1;
        }
        r
    }

    /// Looks up the outbound handle of `id`.
    pub fn get(&self, id: u64) -> (r: Option<&T>)
        requires
            self.wf(),
        ensures
            match r {
                Some(h) => self.has(id) && *h == self.handle_of(id),
                None => !self.has(id),
            },
    {
        let found = self.index_of(id);
        match found {
            Some(i) => {
                proof {
                    let k = choose|k: int| 0 <= k < self.members@.len() && self.members@[k].0 == id;
                    if k != i as int {
                        assert(self.members@[k].0 == self.members@[i as int].0);
                    }
                }
                Some(&self.members[i].1)
            },
            None => None,
        }
    }
}

/// A message a member sends is fanned out to every other member of its
/// room exactly once — it enters that member's outbound queue at exactly
/// one position of the fan-out — and is never delivered back to the
/// sender.
pub proof fn lemma_fanout_exactly_once<T>(room: &Room<T>, sender: u64, peer: u64, r: Seq<u64>)
    requires
        r.no_duplicates(),
        forall|id: u64| r.contains(id) <==> (room.has(id) && id != sender),
        room.has(peer),
        peer != sender,
    ensures
        r.contains(peer),
        forall|i: int, j: int|
            0 <= i < r.len() && 0 <= j < r.len() && r[i] == peer && r[j] == peer ==> i == j,
        !r.contains(sender),
{
}

/// Once a client has left a room, later fan-outs in that room never
/// include it as a recipient.
pub proof fn lemma_departed_never_recipient<T>(room: &Room<T>, sender: u64, departed: u64, r: Seq<u64>)
    requires
        !room.has(departed),
        forall|id: u64| r.contains(id) <==> (room.has(id) && id != sender),
    ensures
        !r.contains(departed),
{
}

} // verus!
