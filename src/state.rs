//! Peer records and the validator state that is persisted between rounds.

use vstd::prelude::*;

verus! {

/// Public key bytes that identify a peer on the chain.
pub struct AccountId {
    pub bytes: Vec<u8>,
}

impl AccountId {
    /// Whether both identities hold the same key bytes.
    pub fn same_as(&self, other: &AccountId) -> (r: bool)
        ensures
            r == (self.bytes@ == other.bytes@),
    {
        if self.bytes.len() != other.bytes.len() {
            return false;
        }
        let mut i: usize = 0;
        while i < self.bytes.len()
            invariant
                self.bytes.len() == other.bytes.len(),
                0 <= i <= self.bytes.len(),
                self.bytes@.subrange(0, i as int) == other.bytes@.subrange(0, i as int),
            decreases self.bytes.len() - i,
        {
            if self.bytes[i] != other.bytes[i] {
                assert(self.bytes@[i as int] != other.bytes@[i as int]);
                return false;
            }
            i = i + 1;
            assert(self.bytes@.subrange(0, i as int) =~= other.bytes@.subrange(0, i as int));
        }
        assert(self.bytes@ =~= self.bytes@.subrange(0, i as int));
        assert(other.bytes@ =~= other.bytes@.subrange(0, i as int));
        true
    }

    /// A second identity with the same key bytes.
    pub fn duplicate(&self) -> (r: AccountId)
        ensures
            r.bytes@ == self.bytes@,
    {
        let mut out: Vec<u8> = Vec::new();
        let mut i: usize = 0;
        while i < self.bytes.len()
            invariant
                0 <= i <= self.bytes.len(),
                out@ == self.bytes@.subrange(0, i as int),
            decreases self.bytes.len() - i,
        {
            out.push(self.bytes[i]);
            i = i + 1;
            assert(out@ =~= self.bytes@.subrange(0, i as int));
        }
        assert(out@ =~= self.bytes@);
        AccountId { bytes: out }
    }
}

/// One entry of the peer directory.
pub struct PeerRecord {
    pub hotkey: AccountId,
    pub uid: u16,
    /// Block of the peer's last weight submission.
    pub last_update: u64,
    /// 4 for an IPv4 address held in the low 32 bits of `ip`, else IPv6.
    pub ip_type: u8,
    pub ip: u128,
    pub port: u16,
}

/// Key bytes of each identity, in order.
pub open spec fn ids_of(ids: Seq<AccountId>) -> Seq<Seq<u8>> {
    ids.map_values(|a: AccountId| a.bytes@)
}

/// Key bytes of each peer's identity, in directory order.
pub open spec fn peer_ids(peers: Seq<PeerRecord>) -> Seq<Seq<u8>> {
    peers.map_values(|p: PeerRecord| p.hotkey.bytes@)
}

/// Scores after the peer list changes to `new_len` entries: entry `i` keeps
/// its score where it existed, new entries are zero.
pub open spec fn resized_scores(old: Seq<u16>, new_len: int) -> Seq<u16> {
    Seq::new(new_len as nat, |i: int| if i < old.len() { old[i] } else { 0u16 })
}

/// Round counter, peer identities and their scores.
pub struct ValidatorState {
    pub step: u64,
    pub hotkeys: Vec<AccountId>,
    pub scores: Vec<u16>,
}

impl ValidatorState {
    /// One score per peer identity.
    pub open spec fn wf(&self) -> bool {
        self.hotkeys@.len() == self.scores@.len()
    }

    /// The state of a validator that has run no round: round 1, the
    /// directory's identities and a zero score each.
    pub fn initial(peers: &Vec<PeerRecord>) -> (r: ValidatorState)
        ensures
            r.wf(),
            r.step == 1,
            ids_of(r.hotkeys@) == peer_ids(peers@),
            r.scores@ == resized_scores(Seq::empty(), peers@.len() as int),
    {
        let hotkeys = identities_of(peers);
        let empty: Vec<u16> = Vec::new();
        let scores = resize_scores(&empty, peers.len());
        assert(empty@ =~= Seq::<u16>::empty());
        ValidatorState { step: 1, hotkeys, scores }
    }
}

/// The identities of the peers, in directory order.
pub fn identities_of(peers: &Vec<PeerRecord>) -> (r: Vec<AccountId>)
    ensures
        r@.len() == peers@.len(),
        ids_of(r@) == peer_ids(peers@),
{
    let mut out: Vec<AccountId> = Vec::new();
    let mut i: usize = 0;
    while i < peers.len()
        invariant
            0 <= i <= peers.len(),
            out@.len() == i,
            forall|k: int| 0 <= k < i ==> #[trigger] out@[k].bytes@ == peers@[k].hotkey.bytes@,
        decreases peers.len() - i,
    {
        let id = peers[i].hotkey.duplicate();
        out.push(id);
        i = i + 1;
    }
    assert(ids_of(out@) =~= peer_ids(peers@));
    out
}

/// Score vector for a peer list of `new_len` entries: scores kept by index,
/// new entries zero.
pub fn resize_scores(scores: &Vec<u16>, new_len: usize) -> (r: Vec<u16>)
    ensures
        r@ == resized_scores(scores@, new_len as int),
{
    let mut out: Vec<u16> = Vec::new();
    let mut i: usize = 0;
    while i < new_len
        invariant
            0 <= i <= new_len,
            out@ == resized_scores(scores@, new_len as int).subrange(0, i as int),
        decreases new_len - i,
    {
        let v = if i < scores.len() {
            scores[i]
        } else {
            0u16
        };
        out.push(v);
        i = i + 1;
        assert(out@ =~= resized_scores(scores@, new_len as int).subrange(0, i as int));
    }
    assert(out@ =~= resized_scores(scores@, new_len as int));
    out
}

/// Growing the peer list keeps the scores already held and gives each new
/// peer a zero score.
pub proof fn lemma_resize_grow(old: Seq<u16>, new_len: int)
    requires
        new_len > old.len(),
    ensures
        resized_scores(old, new_len).len() == new_len,
        resized_scores(old, new_len).subrange(0, old.len() as int) == old,
        forall|i: int| old.len() <= i < new_len ==> #[trigger] resized_scores(old, new_len)[i] == 0,
{
    assert(resized_scores(old, new_len).subrange(0, old.len() as int) =~= old);
}

} // verus!
