//! The peers of a server: one outbound handle per connection, keyed by the
//! identity of the connection.

use crate::message_handler::{MessageType, MessageView};
use vstd::prelude::*;

verus! {

/// One registered peer: the identity of its connection and the handle on
/// which frames for it are queued.
pub struct Peer<H> {
    pub id: String,
    pub handle: H,
}

/// The registry of the connected peers. No two entries share an identity.
pub struct PeerRegistry<H> {
    peers: Vec<Peer<H>>,
}

/// Whether entry `i` of `peers` belongs to `id`.
pub open spec fn is_entry_of<H>(peers: Seq<Peer<H>>, i: int, id: Seq<char>) -> bool {
    0 <= i < peers.len() && peers[i].id@ == id
}

/// No identity occurs twice in `peers`.
pub open spec fn distinct_ids<H>(peers: Seq<Peer<H>>) -> bool {
    forall|i: int, j: int|
        0 <= i < peers.len() && 0 <= j < peers.len() && #[trigger] peers[i].id@
            == #[trigger] peers[j].id@ ==> i == j
}

/// The handle registered in `peers` for `id`, if there is one.
pub open spec fn handle_in<H>(peers: Seq<Peer<H>>, id: Seq<char>) -> Option<H> {
    if exists|i: int| is_entry_of(peers, i, id) {
        Some(peers[choose|i: int| is_entry_of(peers, i, id)].handle)
    } else {
        None
    }
}

impl<H> PeerRegistry<H> {
    /// The entries, in the order in which frames are fanned out.
    pub closed spec fn entries(&self) -> Seq<Peer<H>> {
        self.peers@
    }

    /// The registry keeps its invariant.
    pub open spec fn wf(&self) -> bool {
        distinct_ids(self.entries())
    }

    /// The handle registered for `id`, if there is one.
    pub open spec fn handle_of(&self, id: Seq<char>) -> Option<H> {
        handle_in(self.entries(), id)
    }

    /// How many peers are registered.
    pub open spec fn count(&self) -> nat {
        self.entries().len()
    }

    /// A registry without peers.
    pub fn new() -> (registry: Self)
        ensures
            registry.wf(),
            registry.count() == 0,
            forall|id: Seq<char>| registry.handle_of(id) is None,
    {
        PeerRegistry { peers: Vec::new() }
    }

    /// How many peers are registered.
    pub fn len(&self) -> (n: usize)
        ensures
            n == self.count(),
    {
        self.peers.len()
    }

    /// The registered peers, each exactly once, in fan-out order.
    pub fn peers(&self) -> (peers: &Vec<Peer<H>>)
        ensures
            peers@ == self.entries(),
    {
        &self.peers
    }

    fn position(&self, id: &str) -> (at: Option<usize>)
        ensures
            match at {
                Some(i) => is_entry_of(self.entries(), i as int, id@),
                None => forall|i: int| !is_entry_of(self.entries(), i, id@),
            },
    {
        let wanted = id.to_owned();
        let mut i: usize = 0;
        while i < self.peers.len()
            invariant
                i <= self.peers@.len(),
                wanted@ == id@,
                forall|j: int| 0 <= j < i ==> self.peers@[j].id@ != id@,
            decreases self.peers@.len() - i,
        {
            if self.peers[i].id == wanted {
                return Some(i);
            }
            i += 1;
        }
        None
    }

    /// Whether a peer is registered under `id`.
    pub fn contains(&self, id: &str) -> (found: bool)
        ensures
            found == self.handle_of(id@) is Some,
    {
        self.position(id).is_some()
    }

    /// Registers `handle` under `id`. A handle that was registered under
    /// that identity before is replaced and handed back; every other peer
    /// keeps its handle.
    pub fn register(&mut self, id: String, handle: H) -> (replaced: Option<H>)
        requires
            old(self).wf(),
        ensures
            final(self).wf(),
            replaced == old(self).handle_of(id@),
            final(self).handle_of(id@) == Some(handle),
            forall|other: Seq<char>|
                other != id@ ==> final(self).handle_of(other) == old(self).handle_of(other),
            final(self).count() == old(self).count() + if replaced is Some {
                0nat
            } else {
                1nat
            },
    {
        let ghost before = self.entries();
        let replaced = match self.position(id.as_str()) {
            Some(i) => {
                let gone = self.peers.remove(i);
                proof {
                    lemma_handle_at(before, i as int);
                    lemma_remove_entry(before, i as int);
                }
                Some(gone.handle)
            },
            None => None,
        };
        let ghost kept = self.entries();
        self.peers.push(Peer { id, handle });
        proof {
            assert(self.entries().drop_last() =~= kept);
            lemma_push_entry(kept, self.entries());
        }
        replaced
    }

    /// Takes the peer registered under `id` out of the registry and hands
    /// its handle back. Where none is registered, nothing changes: taking a
    /// peer out twice is the same as taking it out once.
    pub fn unregister(&mut self, id: &str) -> (removed: Option<H>)
        requires
            old(self).wf(),
        ensures
            final(self).wf(),
            removed == old(self).handle_of(id@),
            final(self).handle_of(id@) is None,
            forall|other: Seq<char>|
                other != id@ ==> final(self).handle_of(other) == old(self).handle_of(other),
            removed is None ==> final(self).entries() == old(self).entries(),
            final(self).count() == old(self).count() - if removed is Some {
                1int
            } else {
                0int
            },
    {
        let ghost before = self.entries();
        match self.position(id) {
            Some(i) => {
                let gone = self.peers.remove(i);
                proof {
                    lemma_handle_at(before, i as int);
                    lemma_remove_entry(before, i as int);
                }
                Some(gone.handle)
            },
            None => None,
        }
    }
}

/// With distinct identities, the handle of an identity is that of the one
/// entry that carries it.
pub proof fn lemma_handle_at<H>(peers: Seq<Peer<H>>, i: int)
    requires
        distinct_ids(peers),
        0 <= i < peers.len(),
    ensures
        handle_in(peers, peers[i].id@) == Some(peers[i].handle),
{
    let id = peers[i].id@;
    assert(is_entry_of(peers, i, id));
    let j = choose|j: int| is_entry_of(peers, j, id);
    assert(peers[j].id@ == peers[i].id@);
}

/// Taking entry `i` out leaves its identity without a handle and every
/// other identity with the handle it had.
pub proof fn lemma_remove_entry<H>(peers: Seq<Peer<H>>, i: int)
    requires
        distinct_ids(peers),
        0 <= i < peers.len(),
    ensures
        distinct_ids(peers.remove(i)),
        handle_in(peers.remove(i), peers[i].id@) is None,
        forall|other: Seq<char>|
            other != peers[i].id@ ==> handle_in(peers.remove(i), other) == handle_in(peers, other),
{
    let rest = peers.remove(i);
    assert forall|a: int, b: int|
        0 <= a < rest.len() && 0 <= b < rest.len() && #[trigger] rest[a].id@
            == #[trigger] rest[b].id@ implies a == b by {
        let a0 = if a < i { a } else { a + 1 };
        let b0 = if b < i { b } else { b + 1 };
        assert(rest[a] == peers[a0] && rest[b] == peers[b0]);
    }
    assert forall|k: int| !is_entry_of(rest, k, peers[i].id@) by {
        if 0 <= k < rest.len() {
            let k0 = if k < i { k } else { k + 1 };
            assert(rest[k] == peers[k0]);
            assert(peers[k0].id@ == peers[i].id@ ==> k0 == i);
        }
    }
    assert forall|other: Seq<char>| other != peers[i].id@ implies handle_in(rest, other)
        == handle_in(peers, other) by {
        if exists|k: int| is_entry_of(peers, k, other) {
            let k = choose|k: int| is_entry_of(peers, k, other);
            let k1 = if k < i { k } else { k - 1 };
            assert(rest[k1] == peers[k]);
            assert(is_entry_of(rest, k1, other));
            lemma_handle_at(peers, k);
            lemma_handle_at(rest, k1);
        } else {
            assert forall|k: int| !is_entry_of(rest, k, other) by {
                if 0 <= k < rest.len() {
                    let k0 = if k < i { k } else { k + 1 };
                    assert(rest[k] == peers[k0]);
                    assert(!is_entry_of(peers, k0, other));
                }
            }
        }
    }
}

/// Adding an entry whose identity is new gives that identity its handle
/// and leaves every other identity with the handle it had.
pub proof fn lemma_push_entry<H>(peers: Seq<Peer<H>>, grown: Seq<Peer<H>>)
    requires
        distinct_ids(peers),
        grown.len() == peers.len() + 1,
        grown.drop_last() == peers,
        handle_in(peers, grown.last().id@) is None,
    ensures
        distinct_ids(grown),
        handle_in(grown, grown.last().id@) == Some(grown.last().handle),
        forall|other: Seq<char>|
            other != grown.last().id@ ==> handle_in(grown, other) == handle_in(peers, other),
{
    let id = grown.last().id@;
    let n = peers.len() as int;
    assert forall|k: int| 0 <= k < n implies grown[k] == peers[k] && peers[k].id@ != id by {
        assert(grown.drop_last()[k] == grown[k]);
        assert(!is_entry_of(peers, k, id));
    }
    assert forall|a: int, b: int|
        0 <= a < grown.len() && 0 <= b < grown.len() && #[trigger] grown[a].id@
            == #[trigger] grown[b].id@ implies a == b by {
        if a < n && b < n {
            assert(peers[a].id@ == peers[b].id@);
        }
    }
    lemma_handle_at(grown, n);
    assert forall|other: Seq<char>| other != id implies handle_in(grown, other) == handle_in(
        peers,
        other,
    ) by {
        if exists|k: int| is_entry_of(peers, k, other) {
            let k = choose|k: int| is_entry_of(peers, k, other);
            assert(is_entry_of(grown, k, other));
            lemma_handle_at(peers, k);
            lemma_handle_at(grown, k);
        } else {
            assert forall|k: int| !is_entry_of(grown, k, other) by {
                if 0 <= k < n {
                    assert(!is_entry_of(peers, k, other));
                }
            }
        }
    }
}

/// The positions in `peers` of the entries that do not belong to `origin`,
/// in rising order.
pub open spec fn other_positions<H>(peers: Seq<Peer<H>>, origin: Seq<char>) -> Seq<int>
    decreases peers.len(),
{
    if peers.len() == 0 {
        Seq::empty()
    } else if peers.last().id@ == origin {
        other_positions(peers.drop_last(), origin)
    } else {
        other_positions(peers.drop_last(), origin).push(peers.len() - 1)
    }
}

/// A change that a peer reported is passed on to the other peers; a full
/// dump is not, for it has no business reaching a server.
pub open spec fn is_relayed(msg: MessageView) -> bool {
    !(msg is Sync)
}

/// The positions that a list of indices names, in order.
pub open spec fn positions_view(positions: Seq<usize>) -> Seq<int> {
    positions.map_values(|i: usize| i as int)
}

/// The positions of the others are positions of entries, rise strictly, so
/// that none occurs twice, never name an entry of the origin, and name
/// every other entry.
pub proof fn lemma_other_positions<H>(peers: Seq<Peer<H>>, origin: Seq<char>)
    ensures
        forall|k: int|
            0 <= k < other_positions(peers, origin).len() ==> {
                &&& 0 <= #[trigger] other_positions(peers, origin)[k] < peers.len()
                &&& peers[other_positions(peers, origin)[k]].id@ != origin
            },
        forall|k: int, l: int|
            0 <= k < l < other_positions(peers, origin).len() ==> other_positions(peers, origin)[k]
                < other_positions(peers, origin)[l],
        forall|i: int|
            0 <= i < peers.len() && (#[trigger] peers[i]).id@ != origin ==> other_positions(
                peers,
                origin,
            ).contains(i),
    decreases peers.len(),
{
    if peers.len() > 0 {
        let earlier = peers.drop_last();
        let n = earlier.len() as int;
        lemma_other_positions(earlier, origin);
        let before = other_positions(earlier, origin);
        let all = other_positions(peers, origin);
        assert forall|k: int| 0 <= k < all.len() implies {
            &&& 0 <= #[trigger] all[k] < peers.len()
            &&& peers[all[k]].id@ != origin
        } by {
            if k < before.len() {
                assert(all[k] == before[k]);
                assert(earlier[before[k]] == peers[before[k]]);
            }
        }
        assert forall|k: int, l: int| 0 <= k < l < all.len() implies all[k] < all[l] by {
            assert(all[k] == before[k]);
            if l < before.len() {
                assert(all[l] == before[l]);
            }
        }
        assert forall|i: int| 0 <= i < peers.len() && (#[trigger] peers[i]).id@
            != origin implies all.contains(i) by {
            if i < n {
                assert(earlier[i] == peers[i]);
                assert(before.contains(i));
                let k = choose|k: int| 0 <= k < before.len() && before[k] == i;
                assert(all[k] == i);
            } else {
                assert(all[all.len() - 1] == i);
            }
        }
    }
}

impl<H> PeerRegistry<H> {
    /// The peers to pass `msg` on to after it came in from `origin` and was
    /// applied, as positions in `peers()`: every registered peer but
    /// `origin`, each once, in fan-out order; none for a message that is not
    /// passed on.
    pub fn relay_targets(&self, origin: &str, msg: &MessageType) -> (targets: Vec<usize>)
        ensures
            positions_view(targets@) == if is_relayed(msg@) {
                other_positions(self.entries(), origin@)
            } else {
                Seq::empty()
            },
            forall|k: int| 0 <= k < targets@.len() ==> (#[trigger] targets@[k]) < self.count(),
    {
        let mut targets: Vec<usize> = Vec::new();
        if let MessageType::Sync { files } = msg {
            proof {
                assert(positions_view(targets@) =~= Seq::empty());
            }
            return targets;
        }
        let from = origin.to_owned();
        let mut i: usize = 0;
        proof {
            assert(positions_view(targets@) =~= other_positions(self.peers@.take(0), origin@));
        }
        while i < self.peers.len()
            invariant
                i <= self.peers@.len(),
                from@ == origin@,
                positions_view(targets@) == other_positions(self.peers@.take(i as int), origin@),
                forall|k: int| 0 <= k < targets@.len() ==> (#[trigger] targets@[k]) < i,
            decreases self.peers@.len() - i,
        {
            proof {
                assert(self.peers@.take(i + 1).drop_last() =~= self.peers@.take(i as int));
                assert(self.peers@.take(i + 1).last() == self.peers@[i as int]);
            }
            if self.peers[i].id != from {
                let ghost before = positions_view(targets@);
                targets.push(i);
                proof {
                    assert(positions_view(targets@) =~= before.push(i as int));
                }
            }
            i += 1;
        }
        proof {
            assert(self.peers@.take(i as int) =~= self.peers@);
        }
        targets
    }
}

} // verus!
