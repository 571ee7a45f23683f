//! Per-round decisions of the validator. The caller performs the chain calls,
//! the connections and the exchanges, and hands their results to these
//! functions: sync check, sync, schedule, exchange input and output, seam
//! repair, and the round counter.

use vstd::prelude::*;

use crate::lanes::{normalize_response_data, reconciled};
use crate::schedule::{schedule, ChunkAssignment, byte_count_spec, chunk_start_spec, chunk_end_spec};
use crate::state::{
    resize_scores, resized_scores, identities_of, ids_of, peer_ids, AccountId, PeerRecord,
    ValidatorState,
};
use crate::store::{MappedStorage, grown_len};

verus! {

/// Conditions that stop the validator before its first round.
#[derive(Debug, PartialEq, Eq, Structural)]
pub enum StartupError {
    /// The validator's own identity is not in the peer directory.
    NotRegistered,
    /// The saved state holds a different number of scores and identities.
    InvalidSnapshot,
}

/// Conditions that end one round early; the next round starts as usual.
#[derive(Debug, PartialEq, Eq, Structural)]
pub enum RoundError {
    /// The validator's own identity left the peer directory.
    NotRegistered,
    /// A chunk ends beyond what the row store can address.
    RangeTooLarge,
    /// The round counter cannot advance any further.
    StepOverflow,
}

/// Handle on the shared row. Exchanges of one round touch disjoint chunks of
/// it, as the schedule assigns them.
pub struct CurrentRow(MappedStorage);

impl View for CurrentRow {
    type V = Seq<u8>;

    closed spec fn view(&self) -> Seq<u8> {
        self.0@
    }
}

impl CurrentRow {
    /// A row holding `bytes`, as read from its backing file.
    pub fn new(bytes: Vec<u8>) -> (r: CurrentRow)
        ensures
            r@ == bytes@,
    {
        CurrentRow(MappedStorage::from_bytes(bytes))
    }

    /// The row's store.
    pub fn deref(&self) -> (r: &MappedStorage)
        ensures
            r@ == self@,
    {
        &self.0
    }

    /// The row's store, for writing.
    pub fn deref_mut(&mut self) -> (r: &mut MappedStorage)
        ensures
            r@ == old(self)@,
            final(self)@ == final(r)@,
    {
        &mut self.0
    }
}

/// Index of the first peer whose identity is `id`.
pub open spec fn first_index_of(peers: Seq<PeerRecord>, id: Seq<u8>, i: int) -> bool {
    &&& 0 <= i < peers.len()
    &&& peers[i].hotkey.bytes@ == id
    &&& forall|j: int| 0 <= j < i ==> #[trigger] peers[j].hotkey.bytes@ != id
}

/// Whether some peer has identity `id`.
pub open spec fn registered(peers: Seq<PeerRecord>, id: Seq<u8>) -> bool {
    exists|i: int| 0 <= i < peers.len() && #[trigger] peers[i].hotkey.bytes@ == id
}

/// Whether a refresh is due: at least `epoch_length` blocks since `last`.
pub open spec fn sync_due(current: u64, last: u64, epoch_length: u64) -> bool {
    current >= last && current - last >= epoch_length
}

/// The validator's peers, row, column and persisted state.
pub struct Validator {
    pub hotkey: AccountId,
    pub peers: Vec<PeerRecord>,
    pub uid: u16,
    pub current_row: CurrentRow,
    pub center_column: MappedStorage,
    pub state: ValidatorState,
    pub last_metagraph_sync: u64,
}

impl Validator {
    /// Consistent state: one score per recorded peer identity.
    pub open spec fn wf(&self) -> bool {
        self.state.wf()
    }

    /// Position of the first peer with identity `id`, if any.
    pub fn find_neuron_info(peers: &Vec<PeerRecord>, id: &AccountId) -> (r: Option<usize>)
        ensures
            r matches Some(i) ==> first_index_of(peers@, id.bytes@, i as int),
            r is None <==> !registered(peers@, id.bytes@),
    {
        let mut i: usize = 0;
        while i < peers.len()
            invariant
                0 <= i <= peers.len(),
                forall|j: int| 0 <= j < i ==> #[trigger] peers@[j].hotkey.bytes@ != id.bytes@,
            decreases peers.len() - i,
        {
            if peers[i].hotkey.same_as(id) {
                return Some(i);
            }
            i = i + 1;
        }
        None
    }

    /// Sets up a validator from the directory fetched at `block`, the saved
    /// state if one exists, and the stored row and column. Without a saved
    /// state it starts at round 1 with the directory's identities and zero
    /// scores. A store given as `None` has just been created: it starts
    /// empty and gets cell 0 set to 1; an existing store is kept as it is.
    pub fn new(
        peers: Vec<PeerRecord>,
        hotkey: AccountId,
        block: u64,
        saved: Option<ValidatorState>,
        row: Option<Vec<u8>>,
        column: Option<Vec<u8>>,
    ) -> (r: Result<Validator, StartupError>)
        ensures
            r == Err::<Validator, StartupError>(StartupError::NotRegistered) <==> !registered(
                peers@,
                hotkey.bytes@,
            ),
            r == Err::<Validator, StartupError>(StartupError::InvalidSnapshot) <==> (registered(
                peers@,
                hotkey.bytes@,
            ) && snapshot_invalid(saved)),
            r matches Ok(v) ==> {
                &&& v.wf()
                &&& v.peers@ == peers@
                &&& v.hotkey.bytes@ == hotkey.bytes@
                &&& v.last_metagraph_sync == block
                &&& exists|i: int| first_index_of(peers@, hotkey.bytes@, i) && v.uid == peers@[i].uid
                &&& match saved {
                    Some(s) => v.state == s,
                    None => {
                        &&& v.state.step == 1
                        &&& ids_of(v.state.hotkeys@) == peer_ids(peers@)
                        &&& v.state.scores@ == resized_scores(Seq::empty(), peers@.len() as int)
                    },
                }
                &&& v.current_row@ == opened(row)
                &&& v.center_column@ == opened(column)
            },
    {
        let index = match Self::find_neuron_info(&peers, &hotkey) {
            None => return Err(StartupError::NotRegistered),
            Some(i) => i,
        };
        let uid = peers[index].uid;
        let state = match saved {
            Some(s) => {
                if s.hotkeys.len() != s.scores.len() {
                    return Err(StartupError::InvalidSnapshot);
                }
                s
            },
            None => ValidatorState::initial(&peers),
        };
        let current_row = CurrentRow(open_store(row));
        let center_column = open_store(column);
        Ok(Validator {
            hotkey,
            peers,
            uid,
            current_row,
            center_column,
            state,
            last_metagraph_sync: block,
        })
    }

    /// Whether the peer directory is due for a refresh at `current_block`.
    pub fn needs_sync(&self, current_block: u64, epoch_length: u64) -> (r: bool)
        ensures
            r == sync_due(current_block, self.last_metagraph_sync, epoch_length),
    {
        current_block >= self.last_metagraph_sync && current_block - self.last_metagraph_sync
            >= epoch_length
    }

    /// Takes the directory fetched at `block`. The peer list and the recorded
    /// identities are replaced, the scores resized by index (kept where they
    /// existed, zero for new peers), and the validator's uid looked up again.
    /// Returns the scores to submit when the validator's own last submission
    /// is at least `epoch_length` blocks old, else `None`; fails when the
    /// validator is no longer registered, with only the peer list and the
    /// sync block updated.
    pub fn sync(&mut self, peers: Vec<PeerRecord>, block: u64, epoch_length: u64) -> (r: Result<
        Option<Vec<u16>>,
        RoundError,
    >)
        requires
            old(self).wf(),
        ensures
            final(self).wf(),
            final(self).peers@ == peers@,
            final(self).last_metagraph_sync == block,
            final(self).state.step == old(self).state.step,
            final(self).current_row@ == old(self).current_row@,
            final(self).center_column@ == old(self).center_column@,
            final(self).hotkey == old(self).hotkey,
            r is Err <==> !registered(peers@, old(self).hotkey.bytes@),
            r is Err ==> r == Err::<Option<Vec<u16>>, RoundError>(RoundError::NotRegistered)
                && final(self).state == old(self).state && final(self).uid == old(self).uid,
            r is Ok ==> {
                &&& ids_of(final(self).state.hotkeys@) == peer_ids(peers@)
                &&& final(self).state.scores@ == resized_scores(
                    old(self).state.scores@,
                    peers@.len() as int,
                )
                &&& exists|i: int|
                    {
                        &&& first_index_of(peers@, old(self).hotkey.bytes@, i)
                        &&& final(self).uid == peers@[i].uid
                        &&& (r matches Ok(Some(w)) <==> sync_due(
                            block,
                            peers@[i].last_update,
                            epoch_length,
                        ))
                    }
                &&& r matches Ok(Some(w)) ==> w@ == final(self).state.scores@
            },
    {
        self.peers = peers;
        self.last_metagraph_sync = block;
        let index = match Self::find_neuron_info(&self.peers, &self.hotkey) {
            None => return Err(RoundError::NotRegistered),
            Some(i) => i,
        };
        self.uid = self.peers[index].uid;
        let last_update = self.peers[index].last_update;
        let scores = resize_scores(&self.state.scores, self.peers.len());
        let hotkeys = identities_of(&self.peers);
        self.state.scores = scores;
        self.state.hotkeys = hotkeys;
        if block >= last_update && block - last_update >= epoch_length {
            let n = self.state.scores.len();
            let weights = resize_scores(&self.state.scores, n);
            assert(weights@ =~= self.state.scores@);
            Ok(Some(weights))
        } else {
            Ok(None)
        }
    }

    /// Chunk assignments for this round's `connection_count` connections;
    /// none when there is no connection.
    pub fn plan_round(&self, connection_count: usize) -> (r: Vec<ChunkAssignment>)
        ensures
            r.len() == connection_count,
            forall|i: int|
                0 <= i < r.len() ==> {
                    &&& #[trigger] r[i].index == i
                    &&& r[i].start == chunk_start_spec(
                        connection_count as int,
                        byte_count_spec(self.state.step),
                        i,
                    )
                    &&& r[i].end == chunk_end_spec(
                        connection_count as int,
                        byte_count_spec(self.state.step),
                        i,
                    )
                },
    {
        let r = schedule(connection_count, self.state.step);
        r
    }

    /// Bytes to send for a chunk. The row first grows, once, to cover the
    /// chunk when it is shorter; fails when the chunk lies beyond what the
    /// store can address, with the row unchanged.
    pub fn chunk_bytes(&mut self, start: u64, end: u64) -> (r: Result<Vec<u8>, RoundError>)
        requires
            start <= end,
        ensures
            final(self).state == old(self).state,
            final(self).peers == old(self).peers,
            final(self).center_column@ == old(self).center_column@,
            r is Err <==> end > usize::MAX,
            r is Err ==> final(self).current_row@ == old(self).current_row@,
            r matches Ok(v) ==> {
                &&& final(self).current_row@.len() == grown_len(
                    old(self).current_row@.len() as int,
                    end as int,
                )
                &&& final(self).current_row@.subrange(0, old(self).current_row@.len() as int)
                    == old(self).current_row@
                &&& forall|i: int|
                    old(self).current_row@.len() <= i < final(self).current_row@.len()
                        ==> #[trigger] final(self).current_row@[i] == 0
                &&& v@ == final(self).current_row@.subrange(start as int, end as int)
            },
    {
        if end > usize::MAX as u64 {
            return Err(RoundError::RangeTooLarge);
        }
        let s = start as usize;
        let e = end as usize;
        let store = self.current_row.deref_mut();
        store.grow(e);
        Ok(store.read_range(s, e))
    }

    /// Takes a peer's answer for a chunk. A complete answer, exactly as long
    /// as the chunk, replaces the chunk's bytes and nothing else; a fault
    /// (`None`) or an answer of another length leaves the row unchanged.
    /// Returns whether the answer was taken.
    pub fn apply_response(&mut self, start: u64, end: u64, response: Option<Vec<u8>>) -> (r: bool)
        requires
            start <= end,
        ensures
            final(self).state == old(self).state,
            final(self).peers == old(self).peers,
            final(self).center_column@ == old(self).center_column@,
            r == answer_taken(response, start as int, end as int, old(self).current_row@.len() as int),
            final(self).current_row@ == answered(
                old(self).current_row@,
                start as int,
                end as int,
                response,
            ),
            final(self).current_row@.len() == old(self).current_row@.len(),
            forall|i: int|
                0 <= i < old(self).current_row@.len() ==> #[trigger] final(self).current_row@[i]
                    == if r && start <= i < end {
                    response.unwrap()@[i - start]
                } else {
                    old(self).current_row@[i]
                },
    {
        match response {
            None => false,
            Some(v) => {
                let store = self.current_row.deref_mut();
                if end > store.len() as u64 || v.len() as u64 != end - start {
                    return false;
                }
                store.write_range(start as usize, &v);
                assert(store@ =~= answered(old(self).current_row@, start as int, end as int, Some(v)));
                true
            },
        }
    }

    /// Repairs the row's lane seams after every exchange of the round has
    /// joined, and returns the repaired row.
    /// With no connection the round has no exchange and the row is left as
    /// it is.
    pub fn reconcile(&mut self, connection_count: usize) -> (r: Vec<u8>)
        ensures
            final(self).state == old(self).state,
            final(self).peers == old(self).peers,
            final(self).center_column@ == old(self).center_column@,
            connection_count == 0 ==> final(self).current_row@ == old(self).current_row@
                && r@.len() == 0,
            connection_count > 0 ==> final(self).current_row@ == reconciled(
                old(self).current_row@,
            ),
            connection_count > 0 ==> r@ == reconciled(old(self).current_row@),
    {
        if connection_count == 0 {
            return Vec::new();
        }
        let store = self.current_row.deref_mut();
        normalize_response_data(store.bytes_mut())
    }

    /// Closes the round: the round counter advances by one.
    pub fn finish_round(&mut self) -> (r: Result<(), RoundError>)
        ensures
            r is Err <==> old(self).state.step == u64::MAX,
            r is Err ==> *final(self) == *old(self),
            r is Ok ==> final(self).state.step == old(self).state.step + 1,
            final(self).state.hotkeys == old(self).state.hotkeys,
            final(self).state.scores == old(self).state.scores,
            final(self).peers == old(self).peers,
            final(self).current_row == old(self).current_row,
            final(self).center_column == old(self).center_column,
    {
        if self.state.step == u64::MAX {
            return Err(RoundError::StepOverflow);
        }
        self.state.step = self.state.step + 1;
        Ok(())
    }
}

/// A saved state that holds a different number of scores and identities.
pub open spec fn snapshot_invalid(saved: Option<ValidatorState>) -> bool {
    match saved {
        Some(s) => !s.wf(),
        None => false,
    }
}

/// Whether an answer for `[start, end)` is taken into a row of `len` bytes:
/// it arrived whole, with exactly the chunk's length, inside the row.
pub open spec fn answer_taken(response: Option<Vec<u8>>, start: int, end: int, len: int) -> bool {
    match response {
        Some(v) => v@.len() == end - start && end <= len,
        None => false,
    }
}

/// The row after the answer for `[start, end)`: a taken answer replaces the
/// chunk's bytes, anything else leaves the row as it was.
pub open spec fn answered(row: Seq<u8>, start: int, end: int, response: Option<Vec<u8>>) -> Seq<u8> {
    if answer_taken(response, start, end, row.len() as int) {
        Seq::new(
            row.len(),
            |i: int|
                if start <= i < end {
                    response.unwrap()@[i - start]
                } else {
                    row[i]
                },
        )
    } else {
        row
    }
}

/// The row after the answers of a round are taken in order, answer `q` for
/// chunk `q`.
pub open spec fn after_answers(
    row: Seq<u8>,
    chunks: Seq<(int, int)>,
    answers: Seq<Option<Vec<u8>>>,
) -> Seq<u8>
    decreases chunks.len(),
{
    if chunks.len() == 0 {
        row
    } else {
        let q = chunks.len() - 1;
        answered(
            after_answers(row, chunks.drop_last(), answers),
            chunks[q].0,
            chunks[q].1,
            answers[q],
        )
    }
}

/// Chunks that are well formed and pairwise disjoint, in order.
pub open spec fn disjoint_chunks(chunks: Seq<(int, int)>) -> bool {
    &&& forall|q: int| 0 <= q < chunks.len() ==> 0 <= #[trigger] chunks[q].0 <= chunks[q].1
    &&& forall|q: int, t: int|
        0 <= q < t < chunks.len() ==> #[trigger] chunks[q].1 <= #[trigger] chunks[t].0
}

proof fn lemma_after_answers_at(
    row: Seq<u8>,
    chunks: Seq<(int, int)>,
    answers: Seq<Option<Vec<u8>>>,
    k: int,
)
    requires
        answers.len() >= chunks.len(),
        disjoint_chunks(chunks),
        0 <= k < row.len(),
    ensures
        after_answers(row, chunks, answers).len() == row.len(),
        forall|q: int|
            0 <= q < chunks.len() && answer_taken(answers[q], chunks[q].0, chunks[q].1, row.len() as int)
                && chunks[q].0 <= k < chunks[q].1 ==> after_answers(row, chunks, answers)[k]
                == (#[trigger] answers[q]).unwrap()@[k - chunks[q].0],
        (forall|q: int|
            0 <= q < chunks.len() && answer_taken(answers[q], chunks[q].0, chunks[q].1, row.len() as int)
                ==> !(chunks[q].0 <= k < #[trigger] chunks[q].1)) ==> after_answers(row, chunks, answers)[k]
            == row[k],
    decreases chunks.len(),
{
    if chunks.len() > 0 {
        let init = chunks.drop_last();
        let q = chunks.len() - 1;
        assert(disjoint_chunks(init)) by {
            assert forall|t: int| 0 <= t < init.len() implies 0 <= #[trigger] init[t].0 <= init[t].1 by {
                assert(init[t] == chunks[t]);
            }
            assert forall|a: int, b: int| 0 <= a < b < init.len() implies #[trigger] init[a].1
                <= #[trigger] init[b].0 by {
                assert(init[a] == chunks[a] && init[b] == chunks[b]);
            }
        }
        lemma_after_answers_at(row, init, answers, k);
        assert forall|t: int| 0 <= t < init.len() implies #[trigger] init[t] == chunks[t] by {}
        if chunks[q].0 <= k < chunks[q].1 {
            assert forall|t: int| 0 <= t < q implies !(chunks[t].0 <= k < #[trigger] chunks[t].1) by {
                assert(chunks[t].1 <= chunks[q].0);
            }
        }
    }
}

/// A peer whose exchange fails changes nothing: after a round's answers
/// are taken, each byte of a chunk whose peer answered in full holds that
/// answer, and every other byte, the failed peer's chunk included, is as
/// before.
pub proof fn lemma_failed_peer_changes_nothing(
    row: Seq<u8>,
    chunks: Seq<(int, int)>,
    answers: Seq<Option<Vec<u8>>>,
    p: int,
)
    requires
        answers.len() == chunks.len(),
        disjoint_chunks(chunks),
        0 <= p < chunks.len(),
        answers[p] is None,
    ensures
        after_answers(row, chunks, answers).len() == row.len(),
        forall|q: int, k: int|
            0 <= q < chunks.len() && q != p && answer_taken(
                answers[q],
                chunks[q].0,
                chunks[q].1,
                row.len() as int,
            ) && chunks[q].0 <= k < chunks[q].1 ==> #[trigger] after_answers(row, chunks, answers)[k]
                == (#[trigger] answers[q]).unwrap()@[k - chunks[q].0],
        forall|k: int|
            0 <= k < row.len() && (forall|q: int|
                0 <= q < chunks.len() && q != p && #[trigger] answer_taken(
                    answers[q],
                    chunks[q].0,
                    chunks[q].1,
                    row.len() as int,
                ) ==> !(chunks[q].0 <= k < chunks[q].1)) ==> #[trigger] after_answers(
                row,
                chunks,
                answers,
            )[k] == row[k],
{
    if row.len() > 0 {
        lemma_after_answers_at(row, chunks, answers, 0);
    } else {
        assert(after_answers(row, chunks, answers).len() == row.len()) by {
            lemma_after_answers_len(row, chunks, answers);
        }
    }
    assert forall|q: int, k: int|
        0 <= q < chunks.len() && q != p && answer_taken(
            answers[q],
            chunks[q].0,
            chunks[q].1,
            row.len() as int,
        ) && chunks[q].0 <= k < chunks[q].1 implies #[trigger] after_answers(row, chunks, answers)[k]
        == (#[trigger] answers[q]).unwrap()@[k - chunks[q].0] by {
        assert(k < row.len());
        lemma_after_answers_at(row, chunks, answers, k);
    }
    assert forall|k: int|
        0 <= k < row.len() && (forall|q: int|
            0 <= q < chunks.len() && q != p && #[trigger] answer_taken(
                answers[q],
                chunks[q].0,
                chunks[q].1,
                row.len() as int,
            ) ==> !(chunks[q].0 <= k < chunks[q].1)) implies #[trigger] after_answers(
        row,
        chunks,
        answers,
    )[k] == row[k] by {
        lemma_after_answers_at(row, chunks, answers, k);
        assert(!answer_taken(answers[p], chunks[p].0, chunks[p].1, row.len() as int));
    }
}

proof fn lemma_after_answers_len(row: Seq<u8>, chunks: Seq<(int, int)>, answers: Seq<Option<Vec<u8>>>)
    ensures
        after_answers(row, chunks, answers).len() == row.len(),
    decreases chunks.len(),
{
    if chunks.len() > 0 {
        lemma_after_answers_len(row, chunks.drop_last(), answers);
    }
}

/// Contents of a store at startup: an existing store's bytes, or a newly
/// created one (`None`) seeded with cell 0 set to 1.
pub open spec fn opened(existing: Option<Vec<u8>>) -> Seq<u8> {
    match existing {
        Some(bytes) => bytes@,
        None => seq![1u8],
    }
}

/// The store for `existing` bytes, or a new store seeded with cell 0 set to 1.
pub fn open_store(existing: Option<Vec<u8>>) -> (r: MappedStorage)
    ensures
        r@ == opened(existing),
{
    match existing {
        Some(bytes) => MappedStorage::from_bytes(bytes),
        None => {
            let bytes: Vec<u8> = vec![1u8];
            assert(bytes@ =~= seq![1u8]);
            MappedStorage::from_bytes(bytes)
        },
    }
}

} // verus!
