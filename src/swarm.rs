//! The decisions of the download loop: which missing piece to ask which peer
//! for, what a sent request, a finished piece and a failed peer change. The
//! caller runs the sockets and threads and reports what happened.
use vstd::prelude::*;

use crate::bitfield::has_bit;
use crate::content::{Content, Piece};
use crate::peer::Peer;

verus! {

/// Piece `i` is the first missing one.
pub open spec fn is_first_missing(pieces: Seq<Piece>, i: int) -> bool {
    &&& 0 <= i < pieces.len()
    &&& pieces[i].is_missing()
    &&& forall|j: int| 0 <= j < i ==> !(#[trigger] pieces[j]).is_missing()
}

/// `peer` can be asked for piece `i`: it has it and waits for no answer.
pub open spec fn eligible(peer: Peer, i: int) -> bool {
    i >= 0 && has_bit(peer.bitfield@, i as nat) && !peer.busy
}

/// Piece `i` can be handed out now: it is the first missing one, and some
/// peer can be asked for it.
pub open spec fn assignable(pieces: Seq<Piece>, peers: Seq<Peer>, i: int) -> bool {
    &&& is_first_missing(pieces, i)
    &&& exists|k: int| 0 <= k < peers.len() && eligible(#[trigger] peers[k], i)
}

/// `after` is `before` given up: missing again with no blocks, unless it
/// was already here.
pub open spec fn given_up(before: Piece, after: Piece) -> bool {
    &&& after.same_piece(&before)
    &&& before.is_available() ==> after == before
    &&& !before.is_available() ==> after.is_missing() && after.spec_block_count() == 0
}

/// The active peers, and for each the piece it was asked for, if any.
pub struct Swarm {
    pub peers: Vec<Peer>,
    pub in_flight: Vec<Option<usize>>,
}

impl Swarm {
    /// One piece slot per peer.
    pub open spec fn wf(&self) -> bool {
        self.peers@.len() == self.in_flight@.len()
    }

    /// `new` is `old` with peer `k` gone, and the piece it was asked for
    /// missing again in `content`.
    pub open spec fn dropped(
        old: &Swarm,
        new: &Swarm,
        old_content: &Content,
        new_content: &Content,
        k: int,
    ) -> bool {
        &&& new.peers@ == old.peers@.remove(k)
        &&& new.in_flight@ == old.in_flight@.remove(k)
        &&& new_content.pieces@.len() == old_content.pieces@.len()
        &&& forall|i: int|
            0 <= i < old_content.pieces@.len() && old.in_flight@[k] != Some(i as usize)
                ==> #[trigger] new_content.pieces@[i] == old_content.pieces@[i]
        &&& (old.in_flight@[k] is Some && old.in_flight@[k]->Some_0 < old_content.pieces@.len())
            ==> given_up(
            old_content.pieces@[old.in_flight@[k]->Some_0 as int],
            new_content.pieces@[old.in_flight@[k]->Some_0 as int],
        )
    }

    /// A swarm of the peers that answered the handshake, none asked yet.
    pub fn new(peers: Vec<Peer>) -> (s: Swarm)
        ensures
            s.wf(),
            s.peers@ == peers@,
            forall|k: int| 0 <= k < s.in_flight@.len() ==> (#[trigger] s.in_flight@[k]) is None,
    {
        let mut in_flight: Vec<Option<usize>> = Vec::new();
        let mut k: usize = 0;
        while k < peers.len()
            invariant
                k <= peers@.len(),
                in_flight@.len() == k,
                forall|j: int| 0 <= j < k ==> (#[trigger] in_flight@[j]) is None,
            decreases peers@.len() - k,
        {
            in_flight.push(None);
            k = k + 1;
        }
        Swarm { peers, in_flight }
    }

    /// The next piece to ask for and whom to ask: the first missing piece,
    /// and the first peer that has it and is not busy. `None` when no piece is
    /// missing or no peer can be asked for the first missing one.
    pub fn next_assignment(&self, content: &Content) -> (r: Option<(usize, usize)>)
        ensures
            r matches Some((i, k)) ==> {
                &&& is_first_missing(content.pieces@, i as int)
                &&& 0 <= k < self.peers@.len()
                &&& eligible(self.peers@[k as int], i as int)
                &&& forall|j: int| 0 <= j < k ==> !eligible(#[trigger] self.peers@[j], i as int)
            },
            r is None ==> forall|i: int| !assignable(content.pieces@, self.peers@, i),
    {
        let n = content.pieces.len();
        let mut i: usize = 0;
        while i < n && !content.pieces[i].is_missing_now()
            invariant
                n == content.pieces@.len(),
                i <= n,
                forall|j: int| 0 <= j < i ==> !(#[trigger] content.pieces@[j]).is_missing(),
            decreases n - i,
        {
            i = i + 1;
        }
        if i == n {
            return None;
        }
        let mut k: usize = 0;
        while k < self.peers.len()
            invariant
                k <= self.peers@.len(),
                i < n == content.pieces@.len(),
                is_first_missing(content.pieces@, i as int),
                forall|j: int| 0 <= j < k ==> !eligible(#[trigger] self.peers@[j], i as int),
            decreases self.peers@.len() - k,
        {
            if self.peers[k].has_piece(i) && !self.peers[k].busy {
                return Some((i, k));
            }
            k = k + 1;
        }
        proof {
            assert forall|t: int| !assignable(content.pieces@, self.peers@, t) by {
                if is_first_missing(content.pieces@, t) {
                    if t > i {
                        assert(!content.pieces@[i as int].is_missing());
                    } else if t < i {
                        assert(!content.pieces@[t].is_missing());
                    } else {
                        assert(forall|j: int|
                            0 <= j < self.peers@.len() ==> !eligible(#[trigger] self.peers@[j], t));
                    }
                }
            }
        }
        None
    }

    /// Peer `k` was asked for piece `i`: the piece is awaited, so no other
    /// peer is asked for it, and the peer's slot remembers it.
    pub fn requested(&mut self, content: &mut Content, i: usize, k: usize)
        requires
            old(self).wf(),
            old(content).wf(),
            i < old(content).pieces@.len(),
            k < old(self).peers@.len(),
        ensures
            final(self).wf(),
            final(content).wf(),
            final(self).peers@ == old(self).peers@,
            final(self).in_flight@ == old(self).in_flight@.update(k as int, Some(i)),
            final(content).pieces@.len() == old(content).pieces@.len(),
            old(content).pieces@[i as int].is_missing() ==> final(content).pieces@[i as int].awaiting()
                is Some,
            old(content).pieces@[i as int].is_missing() ==> !final(content).pieces@[
                i as int
            ].is_missing(),
            forall|j: int|
                0 <= j < old(content).pieces@.len() && j != i ==> #[trigger] final(content).pieces@[j]
                    == old(content).pieces@[j],
    {
        content.pieces[i].make_awaiting();
        proof {
            assert forall|j: int| 0 <= j < content.pieces@.len() implies (
            #[trigger] content.pieces@[j]).wf() && content.pieces@[j].spec_number() == j by {
                if j != i {
                    assert(content.pieces@[j] == old(content).pieces@[j]);
                }
            }
        }
        self.in_flight.set(k, Some(i));
    }

    /// Peer `k` answered the piece it was asked for, well or not: it may be
    /// asked again.
    pub fn piece_done(&mut self, k: usize)
        requires
            old(self).wf(),
            k < old(self).peers@.len(),
        ensures
            final(self).wf(),
            final(self).peers@.len() == old(self).peers@.len(),
            final(self).in_flight@ == old(self).in_flight@.update(k as int, None),
            !final(self).peers@[k as int].busy,
            final(self).peers@[k as int].bitfield == old(self).peers@[k as int].bitfield,
            forall|j: int|
                0 <= j < old(self).peers@.len() && j != k ==> #[trigger] final(self).peers@[j]
                    == old(self).peers@[j],
    {
        self.peers[k].busy = false;
        self.in_flight.set(k, None);
    }

    /// Peer `k` failed: it leaves the swarm, and the piece it was asked for,
    /// unless already here, is missing again so that another peer is asked.
    pub fn peer_failed(&mut self, content: &mut Content, k: usize)
        requires
            old(self).wf(),
            old(content).wf(),
            k < old(self).peers@.len(),
        ensures
            final(self).wf(),
            final(content).wf(),
            Swarm::dropped(old(self), final(self), old(content), final(content), k as int),
    {
        let slot = self.in_flight[k];
        self.peers.remove(k);
        self.in_flight.remove(k);
        match slot {
            Some(p) => {
                if p < content.pieces.len() {
                    content.pieces[p].reset();
                    proof {
                        assert forall|j: int| 0 <= j < content.pieces@.len() implies (
                        #[trigger] content.pieces@[j]).wf() && content.pieces@[j].spec_number()
                            == j by {
                            if j != p {
                                assert(content.pieces@[j] == old(content).pieces@[j]);
                            }
                        }
                    }
                }
            },
            None => {},
        }
    }
}

/// A peer that fails while asked for a piece leaves the swarm, and its piece
/// is missing again. When no piece before it is missing and some remaining
/// peer has it and is free, that piece is the next to be handed out, to one
/// of the remaining peers.
pub proof fn lemma_failed_peer_piece_reassigned(
    old: &Swarm,
    new: &Swarm,
    old_content: &Content,
    new_content: &Content,
    k: int,
    p: usize,
    q: int,
)
    requires
        0 <= k < old.peers@.len(),
        old.wf(),
        Swarm::dropped(old, new, old_content, new_content, k),
        old.in_flight@[k] == Some(p),
        0 <= p < old_content.pieces@.len(),
        !old_content.pieces@[p as int].is_available(),
        forall|j: int| 0 <= j < p ==> !(#[trigger] new_content.pieces@[j]).is_missing(),
        0 <= q < new.peers@.len(),
        eligible(new.peers@[q], p as int),
    ensures
        new.peers@.len() == old.peers@.len() - 1,
        new_content.pieces@[p as int].is_missing(),
        assignable(new_content.pieces@, new.peers@, p as int),
{
    assert(new_content.pieces@[p as int].is_missing());
    assert(is_first_missing(new_content.pieces@, p as int));
    assert(eligible(new.peers@[q], p as int));
}

} // verus!
