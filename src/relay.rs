//! The relay's pairing table: connections waiting for a peer, keyed by the
//! identifier that they presented, with a bound on how many may wait.
use vstd::prelude::*;

verus! {

/// A waiting connection: the identifier it presented and the caller's number
/// for it.
#[derive(Debug, Clone, PartialEq, Eq)]
pub struct PendingEntry {
    pub id: Vec<u8>,
    pub conn: u64,
}

/// What becomes of a connection that presents an identifier.
#[derive(Debug, Clone, Copy, PartialEq, Eq, Structural)]
pub enum Arrival {
    /// A peer with the same identifier was waiting: splice with that
    /// connection.
    Paired(u64),
    /// No peer yet: the connection waits.
    Waiting,
    /// No peer, and the table is full: close the connection.
    Rejected,
}

/// Whether some entry of `s` holds `id`.
pub open spec fn has_id(s: Seq<(Seq<u8>, u64)>, id: Seq<u8>) -> bool {
    exists|i: int| 0 <= i < s.len() && (#[trigger] s[i]).0 == id
}

/// No two entries of `s` hold the same identifier.
pub open spec fn unique_ids(s: Seq<(Seq<u8>, u64)>) -> bool {
    forall|i: int, j: int| 0 <= i < s.len() && 0 <= j < s.len() && i != j ==> (#[trigger] s[i]).0 != (#[trigger] s[j]).0
}

/// The pairing table.
///
/// The waiting connections stand in a `Vec` whose invariant keeps each
/// identifier at most once, rather than in a `HashMap`: identifiers are 32-byte
/// strings, and for a map keyed by byte strings vstd gives no specification of
/// `insert`, `remove` or `get` that the contracts below could rest on.
pub struct Relay {
    pending: Vec<PendingEntry>,
    max_clients: usize,
}

/// Whether two byte strings are equal.
pub fn same_bytes(a: &[u8], b: &[u8]) -> (r: bool)
    ensures
        r == (a@ == b@),
{
    if a.len() != b.len() {
        return false;
    }
    let mut i: usize = 0;
    while i < a.len()
        invariant
            i <= a@.len(),
            a@.len() == b@.len(),
            forall|j: int| 0 <= j < i ==> a@[j] == b@[j],
        decreases a@.len() - i,
    {
        if a[i] != b[i] {
            return false;
        }
        i = i + 1;
    }
    assert(a@ == b@);
    true
}

impl Relay {
    /// The waiting connections, in order of arrival.
    pub closed spec fn pending(&self) -> Seq<(Seq<u8>, u64)> {
        self.pending@.map_values(|e: PendingEntry| (e.id@, e.conn))
    }

    pub closed spec fn max_clients(&self) -> nat {
        self.max_clients as nat
    }

    /// No identifier waits twice, and no more than `max_clients` wait.
    pub open spec fn wf(&self) -> bool {
        &&& unique_ids(self.pending())
        &&& self.pending().len() <= self.max_clients()
    }

    /// An empty table that lets at most `max_clients` connections wait.
    pub fn new(max_clients: usize) -> (r: Relay)
        ensures
            r.wf(),
            r.pending().len() == 0,
            r.max_clients() == max_clients,
    {
        let r = Relay { pending: Vec::new(), max_clients };
        assert(r.pending().len() == 0);
        r
    }

    /// The number of waiting connections.
    pub fn len(&self) -> (r: usize)
        ensures
            r == self.pending().len(),
    {
        self.pending.len()
    }

    fn find(&self, id: &[u8]) -> (r: Option<usize>)
        ensures
            match r {
                Some(i) => i < self.pending().len() && self.pending()[i as int].0 == id@,
                None => !has_id(self.pending(), id@),
            },
    {
        let mut i: usize = 0;
        while i < self.pending.len()
            invariant
                i <= self.pending@.len(),
                forall|j: int| 0 <= j < i ==> (#[trigger] self.pending()[j]).0 != id@,
            decreases self.pending@.len() - i,
        {
            if same_bytes(self.pending[i].id.as_slice(), id) {
                return Some(i);
            }
            i = i + 1;
        }
        None
    }

    /// A connection `conn` presents `id`. A waiting connection with the same
    /// identifier is claimed and leaves the table, whatever the table's fill;
    /// otherwise the connection waits if there is room and is rejected if not.
    pub fn arrive(&mut self, id: &Vec<u8>, conn: u64) -> (r: Arrival)
        requires
            old(self).wf(),
        ensures
            final(self).wf(),
            final(self).max_clients() == old(self).max_clients(),
            has_id(old(self).pending(), id@) ==> r is Paired && exists|i: int|
                0 <= i < old(self).pending().len() && old(self).pending()[i] == (id@, r->Paired_0)
                    && final(self).pending() == old(self).pending().remove(i),
            has_id(old(self).pending(), id@) ==> !has_id(final(self).pending(), id@),
            !has_id(old(self).pending(), id@) && old(self).pending().len() < old(self).max_clients()
                ==> r == Arrival::Waiting && final(self).pending() == old(self).pending().push(
                (id@, conn),
            ),
            !has_id(old(self).pending(), id@) && old(self).pending().len() >= old(self).max_clients()
                ==> r == Arrival::Rejected && final(self).pending() == old(self).pending(),
            forall|other: Seq<u8>|
                other != id@ ==> (has_id(final(self).pending(), other) <==> has_id(
                    old(self).pending(),
                    other,
                )),
    {
        match self.find(id.as_slice()) {
            Some(i) => {
                let ghost before = self.pending();
                let e = self.pending.remove(i);
                assert(self.pending() == before.remove(i as int));
                assert forall|k: int| 0 <= k < self.pending().len() implies (#[trigger] self.pending()[k]).0 != id@ by {
                    if k < i {
                        assert(self.pending()[k] == before[k]);
                    } else {
                        assert(self.pending()[k] == before[k + 1]);
                    }
                }
                assert forall|other: Seq<u8>| other != id@ implies (has_id(self.pending(), other) <==> has_id(before, other)) by {
                    if has_id(before, other) {
                        let j = choose|j: int| 0 <= j < before.len() && (#[trigger] before[j]).0 == other;
                        if j < i {
                            assert(self.pending()[j] == before[j]);
                        } else {
                            assert(j != i);
                            assert(self.pending()[j - 1] == before[j]);
                        }
                    }
                    if has_id(self.pending(), other) {
                        let j = choose|j: int| 0 <= j < self.pending().len() && (#[trigger] self.pending()[j]).0 == other;
                        if j < i {
                            assert(self.pending()[j] == before[j]);
                        } else {
                            assert(self.pending()[j] == before[j + 1]);
                        }
                    }
                }
                Arrival::Paired(e.conn)
            },
            None => {
                if self.pending.len() < self.max_clients {
                    let ghost before = self.pending();
                    self.pending.push(PendingEntry { id: id.clone(), conn });
                    assert(self.pending() == before.push((id@, conn)));
                    assert forall|other: Seq<u8>| other != id@ implies (has_id(self.pending(), other) <==> has_id(before, other)) by {
                        if has_id(before, other) {
                            let j = choose|j: int| 0 <= j < before.len() && (#[trigger] before[j]).0 == other;
                            assert(self.pending()[j] == before[j]);
                        }
                        if has_id(self.pending(), other) {
                            let j = choose|j: int| 0 <= j < self.pending().len() && (#[trigger] self.pending()[j]).0 == other;
                            assert(j < before.len());
                            assert(self.pending()[j] == before[j]);
                        }
                    }
                    Arrival::Waiting
                } else {
                    Arrival::Rejected
                }
            },
        }
    }

    /// Connection `conn`, waiting under `id`, is gone: it timed out or closed.
    /// Its entry leaves the table; an entry of another connection stays.
    pub fn leave(&mut self, id: &Vec<u8>, conn: u64) -> (r: bool)
        requires
            old(self).wf(),
        ensures
            final(self).wf(),
            final(self).max_clients() == old(self).max_clients(),
            r <==> exists|i: int|
                0 <= i < old(self).pending().len() && old(self).pending()[i] == (id@, conn),
            r ==> !has_id(final(self).pending(), id@),
            r ==> exists|i: int|
                0 <= i < old(self).pending().len() && final(self).pending() == old(
                    self,
                ).pending().remove(i),
            !r ==> final(self).pending() == old(self).pending(),
    {
        match self.find(id.as_slice()) {
            Some(i) => {
                if self.pending[i].conn != conn {
                    assert forall|j: int| 0 <= j < self.pending().len() implies self.pending()[j] != (id@, conn) by {
                        if j != i {
                            assert(self.pending()[j].0 != self.pending()[i as int].0);
                        }
                    }
                    return false;
                }
                let ghost before = self.pending();
                self.pending.remove(i);
                assert(self.pending() == before.remove(i as int));
                assert forall|k: int| 0 <= k < self.pending().len() implies (#[trigger] self.pending()[k]).0 != id@ by {
                    if k < i {
                        assert(self.pending()[k] == before[k]);
                    } else {
                        assert(self.pending()[k] == before[k + 1]);
                    }
                }
                true
            },
            None => false,
        }
    }
}

} // verus!
