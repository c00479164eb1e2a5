//! The peer registry: the live connections of the server, keyed by the id
//! each was given when it was accepted.
use vstd::prelude::*;

verus! {

/// Live peer connections by id. `H` is the handle of one connection.
pub struct PeerRegistry<H> {
    entries: Vec<(u64, H)>,
    model: Ghost<Map<u64, H>>,
}

impl<H> View for PeerRegistry<H> {
    type V = Map<u64, H>;

    /// The handle of each live peer, by id.
    closed spec fn view(&self) -> Map<u64, H> {
        self.model@
    }
}

/// The ids that a broadcast from `exclude` goes to: every live peer but that one.
pub open spec fn broadcast_set<H>(peers: Map<u64, H>, exclude: Option<u64>) -> Set<u64> {
    peers.dom().filter(|id: u64| exclude != Some(id))
}

/// The ids among the first `n` of `targets` whose send failed, as
/// `delivered` reports it.
pub open spec fn failed_among(targets: Seq<u64>, delivered: Seq<bool>, n: int) -> Set<u64> {
    Set::new(|id: u64| exists|j: int| 0 <= j < n && targets[j] == id && !delivered[j])
}

/// The ids in `targets` whose send failed, as `delivered` reports it.
pub open spec fn failed_set(targets: Seq<u64>, delivered: Seq<bool>) -> Set<u64> {
    failed_among(targets, delivered, targets.len() as int)
}

impl<H> PeerRegistry<H> {
    /// The entries hold each id once and agree with the model.
    pub closed spec fn wf(&self) -> bool {
        &&& forall|i: int, j: int|
            0 <= i < self.entries@.len() && 0 <= j < self.entries@.len() && i != j
                ==> self.entries@[i].0 != self.entries@[j].0
        &&& forall|i: int|
            #![trigger self.entries@[i]]
            0 <= i < self.entries@.len() ==> self.model@.contains_key(self.entries@[i].0)
                && self.model@[self.entries@[i].0] == self.entries@[i].1
        &&& forall|k: u64|
            #![trigger self.model@.contains_key(k)]
            self.model@.contains_key(k) ==> exists|i: int|
                0 <= i < self.entries@.len() && self.entries@[i].0 == k
    }

    /// An empty registry.
    pub fn new() -> (r: PeerRegistry<H>)
        ensures
            r.wf(),
            r@ == Map::<u64, H>::empty(),
    {
        PeerRegistry { entries: Vec::new(), model: Ghost(Map::empty()) }
    }

    /// The position of `id` among the entries, if it is there.
    fn find(&self, id: u64) -> (r: Option<usize>)
        requires
            self.wf(),
        ensures
            match r {
                Some(i) => i < self.entries@.len() && self.entries@[i as int].0 == id,
                None => !self@.contains_key(id),
            },
    {
        let mut i: usize = 0;
        while i < self.entries.len()
            invariant
                i <= self.entries@.len(),
                forall|j: int| 0 <= j < i ==> self.entries@[j].0 != id,
            decreases self.entries@.len() - i,
        {
            if self.entries[i].0 == id {
                return Some(i);
            }
            i = i + 1;
        }
        None
    }

    /// Whether `id` is live.
    pub fn contains(&self, id: u64) -> (r: bool)
        requires
            self.wf(),
        ensures
            r == self@.contains_key(id),
    {
        self.find(id).is_some()
    }

    /// Registers `conn` under `id`, replacing the connection held there.
    pub fn insert(&mut self, id: u64, conn: H)
        requires
            old(self).wf(),
        ensures
            final(self).wf(),
            final(self)@ == old(self)@.insert(id, conn),
    {
        let ghost conn_g = conn;
        let ghost mut at: int = 0;
        match self.find(id) {
            Some(i) => {
                self.entries.set(i, (id, conn));
                proof {
                    at = i as int;
                }
            },
            None => {
                self.entries.push((id, conn));
                proof {
                    at = self.entries@.len() - 1;
                }
            },
        }
        self.model = Ghost(self.model@.insert(id, conn_g));
        assert(self.entries@[at].0 == id);
        assert forall|k: u64| #[trigger] self.model@.contains_key(k) implies exists|i: int|
            0 <= i < self.entries@.len() && self.entries@[i].0 == k by {
            if k != id {
                let i = choose|i: int| 0 <= i < old(self).entries@.len() && old(self).entries@[i].0 == k;
                assert(self.entries@[i].0 == k);
            }
        }
    }

    /// Removes `id` and returns its connection, if it was live.
    pub fn remove(&mut self, id: u64) -> (r: Option<H>)
        requires
            old(self).wf(),
        ensures
            final(self).wf(),
            final(self)@ == old(self)@.remove(id),
            r == (if old(self)@.contains_key(id) {
                Some(old(self)@[id])
            } else {
                None::<H>
            }),
    {
        match self.find(id) {
            None => {
                assert(self.model@.remove(id) =~= self.model@);
                None
            },
            Some(i) => {
                let (_, conn) = self.entries.remove(i);
                self.model = Ghost(self.model@.remove(id));
                assert forall|k: u64| #[trigger] self.model@.contains_key(k) implies exists|j: int|
                    0 <= j < self.entries@.len() && self.entries@[j].0 == k by {
                    let j = choose|j: int| 0 <= j < old(self).entries@.len() && old(self).entries@[j].0 == k;
                    if j < i {
                        assert(self.entries@[j].0 == k);
                    } else {
                        assert(self.entries@[j - 1].0 == k);
                    }
                }
                Some(conn)
            },
        }
    }

    /// The connection of `id`, if it is live.
    pub fn get(&self, id: u64) -> (r: Option<&H>)
        requires
            self.wf(),
        ensures
            match r {
                Some(h) => self@.contains_key(id) && *h == self@[id],
                None => !self@.contains_key(id),
            },
    {
        match self.find(id) {
            Some(i) => Some(&self.entries[i].1),
            None => None,
        }
    }

    /// Drops the peers whose send failed: `delivered[i]` tells whether the
    /// send to `targets[i]` went through.
    pub fn drop_failed(&mut self, targets: &Vec<u64>, delivered: &Vec<bool>)
        requires
            old(self).wf(),
            targets@.len() == delivered@.len(),
        ensures
            final(self).wf(),
            final(self)@ == old(self)@.remove_keys(failed_set(targets@, delivered@)),
    {
        let mut i: usize = 0;
        while i < targets.len()
            invariant
                self.wf(),
                i <= targets@.len(),
                targets@.len() == delivered@.len(),
                self@ == old(self)@.remove_keys(failed_among(targets@, delivered@, i as int)),
            decreases targets@.len() - i,
        {
            if !delivered[i] {
                let _ = self.remove(targets[i]);
            }
            i = i + 1;
            proof {
                let now = failed_among(targets@, delivered@, i as int);
                let before = failed_among(targets@, delivered@, i - 1);
                assert forall|id: u64| #[trigger] now.contains(id) <==> (before.contains(id) || (
                targets@[i - 1] == id && !delivered@[i - 1])) by {
                    if now.contains(id) {
                        let j = choose|j: int| 0 <= j < i && targets@[j] == id && !delivered@[j];
                        assert(j < i - 1 ==> before.contains(id));
                    }
                }
                assert(self@ =~= old(self)@.remove_keys(now));
            }
        }
    }

    /// The ids that a broadcast from `exclude` goes to, each once: every live
    /// peer but `exclude`, whatever the state of its connection.
    pub fn broadcast_targets(&self, exclude: Option<u64>) -> (r: Vec<u64>)
        requires
            self.wf(),
        ensures
            r@.no_duplicates(),
            r@.to_set() == broadcast_set(self@, exclude),
    {
        let mut r: Vec<u64> = Vec::new();
        let mut i: usize = 0;
        while i < self.entries.len()
            invariant
                self.wf(),
                i <= self.entries@.len(),
                r@.no_duplicates(),
                forall|k: int|
                    #![trigger r@[k]]
                    0 <= k < r@.len() ==> exists|j: int|
                        0 <= j < i && self.entries@[j].0 == r@[k] && exclude != Some(r@[k]),
                forall|j: int|
                    0 <= j < i && exclude != Some(self.entries@[j].0) ==> r@.contains(
                        #[trigger] self.entries@[j].0,
                    ),
            decreases self.entries@.len() - i,
        {
            let id = self.entries[i].0;
            let skip = match exclude {
                Some(x) => x == id,
                None => false,
            };
            if !skip {
                let ghost before = r@;
                proof {
                    assert forall|k: int| 0 <= k < before.len() implies before[k] != id by {
                        let j = choose|j: int|
                            0 <= j < i && self.entries@[j].0 == before[k] && exclude != Some(
                                before[k],
                            );
                        assert(j != i);
                    }
                }
                r.push(id);
                proof {
                    assert(r@[r@.len() - 1] == id);
                    assert forall|k: int| #![trigger r@[k]] 0 <= k < r@.len() implies exists|j: int|
                        0 <= j < i + 1 && self.entries@[j].0 == r@[k] && exclude != Some(r@[k]) by {
                        if k < before.len() {
                            assert(r@[k] == before[k]);
                        } else {
                            assert(self.entries@[i as int].0 == r@[k]);
                        }
                    }
                    assert forall|j: int|
                        0 <= j < i + 1 && exclude != Some(self.entries@[j].0) implies r@.contains(
                        #[trigger] self.entries@[j].0,
                    ) by {
                        if j < i {
                            let k = choose|k: int| 0 <= k < before.len() && before[k] == self.entries@[j].0;
                            assert(r@[k] == before[k]);
                        } else {
                            assert(r@[r@.len() - 1] == id);
                        }
                    }
                }
            }
            i = i + 1;
        }
        proof {
            assert forall|id: u64| r@.to_set().contains(id) <==> broadcast_set(self@, exclude).contains(id) by {
                if self@.contains_key(id) && exclude != Some(id) {
                    let j = choose|j: int| 0 <= j < self.entries@.len() && self.entries@[j].0 == id;
                    assert(r@.contains(self.entries@[j].0));
                }
                if r@.contains(id) {
                    let k = choose|k: int| 0 <= k < r@.len() && r@[k] == id;
                    let j = choose|j: int|
                        0 <= j < self.entries@.len() && self.entries@[j].0 == r@[k] && exclude != Some(r@[k]);
                    assert(self.entries@[j] == self.entries@[j]);
                }
            }
            assert(r@.to_set() =~= broadcast_set(self@, exclude));
        }
        r
    }
}

/// One call on a registry: `insert(id, conn)` or `remove(id)`.
pub enum RegistryOp<H> {
    Insert(u64, H),
    Remove(u64),
}

/// The registry that `new` followed by the calls `ops` leaves.
pub open spec fn replay<H>(ops: Seq<RegistryOp<H>>) -> Map<u64, H>
    decreases ops.len(),
{
    if ops.len() == 0 {
        Map::empty()
    } else {
        let m = replay(ops.drop_last());
        match ops.last() {
            RegistryOp::Insert(id, conn) => m.insert(id, conn),
            RegistryOp::Remove(id) => m.remove(id),
        }
    }
}

/// Whether the call `op` is on `id`.
pub open spec fn touches<H>(op: RegistryOp<H>, id: u64) -> bool {
    match op {
        RegistryOp::Insert(k, _) => k == id,
        RegistryOp::Remove(k) => k == id,
    }
}

/// Whether the call `op` inserts `id`.
pub open spec fn is_insert_of<H>(op: RegistryOp<H>, id: u64) -> bool {
    match op {
        RegistryOp::Insert(k, _) => k == id,
        RegistryOp::Remove(_) => false,
    }
}

/// The last call of `ops` on `id` is an insert.
pub open spec fn inserted_last<H>(ops: Seq<RegistryOp<H>>, id: u64) -> bool {
    exists|i: int|
        #![trigger ops[i]]
        0 <= i < ops.len() && is_insert_of(ops[i], id) && forall|j: int|
            i < j < ops.len() ==> !touches(#[trigger] ops[j], id)
}

/// Registry invariant: after any sequence of inserts and removes, `id` is
/// live exactly when the last call on it was an insert.
pub proof fn lemma_registry_history<H>(ops: Seq<RegistryOp<H>>, id: u64)
    ensures
        replay(ops).contains_key(id) == inserted_last(ops, id),
    decreases ops.len(),
{
    if ops.len() > 0 {
        let prev = ops.drop_last();
        lemma_registry_history(prev, id);
        let n = ops.len() - 1;
        if touches(ops[n], id) {
            if ops[n] matches RegistryOp::Remove(_) {
                if inserted_last(ops, id) {
                    let i = choose|i: int|
                        #![trigger ops[i]]
                        0 <= i < ops.len() && is_insert_of(ops[i], id)
                            && forall|j: int| i < j < ops.len() ==> !touches(#[trigger] ops[j], id);
                    assert(i != n);
                    assert(!touches(ops[n], id));
                }
            } else {
                assert(is_insert_of(ops[n], id));
            }
        } else {
            if inserted_last(prev, id) {
                let i = choose|i: int|
                    #![trigger prev[i]]
                    0 <= i < prev.len() && is_insert_of(prev[i], id)
                        && forall|j: int| i < j < prev.len() ==> !touches(#[trigger] prev[j], id);
                assert(ops[i] == prev[i]);
                assert forall|j: int| i < j < ops.len() implies !touches(#[trigger] ops[j], id) by {
                    if j < n {
                        assert(ops[j] == prev[j]);
                    }
                }
            }
            if inserted_last(ops, id) {
                let i = choose|i: int|
                    #![trigger ops[i]]
                    0 <= i < ops.len() && is_insert_of(ops[i], id)
                        && forall|j: int| i < j < ops.len() ==> !touches(#[trigger] ops[j], id);
                assert(prev[i] == ops[i]);
                assert forall|j: int| i < j < prev.len() implies !touches(#[trigger] prev[j], id) by {
                    assert(ops[j] == prev[j]);
                }
            }
        }
    }
}

/// Broadcast isolation: a live peer other than the sender is a target of
/// the broadcast, and whichever other peers failed, it stays live as long as
/// its own send went through.
pub proof fn lemma_broadcast_isolation<H>(
    peers: Map<u64, H>,
    exclude: Option<u64>,
    targets: Seq<u64>,
    delivered: Seq<bool>,
    id: u64,
)
    requires
        targets.to_set() == broadcast_set(peers, exclude),
        targets.len() == delivered.len(),
        peers.contains_key(id),
        exclude != Some(id),
        forall|i: int| 0 <= i < targets.len() && targets[i] == id ==> delivered[i],
    ensures
        targets.contains(id),
        peers.remove_keys(failed_set(targets, delivered)).contains_key(id),
{
    assert(broadcast_set(peers, exclude).contains(id));
    assert(targets.to_set().contains(id));
}

} // verus!
