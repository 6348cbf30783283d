//! Vote scoring: how the nearest-neighbour hits of a query's frames add up to
//! a score for each recording, and how the scores rank the recordings.

use std::collections::HashMap;
use vstd::prelude::*;
use vstd::std_specs::iter::IteratorSpec;

verus! {

/// One nearest-neighbour hit: a segment of a stored recording.
#[derive(Debug, Clone, Copy)]
pub struct Hit {
    pub recording_id: i64,
    pub segment_index: i64,
}

/// A recording with the score it has collected.
#[derive(Debug, Clone, Copy)]
pub struct Match {
    pub recording_id: i64,
    pub score: u64,
}

/// The vote total would not fit 64 bits; nothing was added.
#[derive(Debug, Clone, Copy)]
pub struct ScoreOverflow;

/// The recording of each hit, in the hits' order.
pub open spec fn recordings_of(hits: Seq<Hit>) -> Seq<i64> {
    Seq::new(hits.len(), |i: int| hits[i].recording_id)
}

/// What the first `k` hits of a result list give to recording `id`: the hit at
/// position `i` of a list of `n` hits gives `n - i` to its recording.
pub open spec fn votes_upto(ids: Seq<i64>, id: i64, k: nat) -> nat
    decreases k,
{
    if k == 0 || k > ids.len() {
        0
    } else {
        let i = (k - 1) as nat;
        votes_upto(ids, id, i) + if ids[i as int] == id {
            (ids.len() - i) as nat
        } else {
            0
        }
    }
}

/// What a whole result list gives to recording `id`.
pub open spec fn votes(ids: Seq<i64>, id: i64) -> nat {
    votes_upto(ids, id, ids.len())
}

/// What the first `k` hits of a list of `n` hits give to all recordings together.
pub open spec fn weight_upto(n: nat, k: nat) -> nat
    decreases k,
{
    if k == 0 || k > n {
        0
    } else {
        weight_upto(n, (k - 1) as nat) + (n - (k - 1)) as nat
    }
}

/// `n * (n + 1) / 2`: what a list of `n` hits gives to all recordings together.
pub open spec fn triangle(n: nat) -> nat {
    n * (n + 1) / 2
}

/// The sum, over the recordings of `recordings`, of what the first `k` hits of
/// a result list give to each.
pub open spec fn votes_over_upto(ids: Seq<i64>, recordings: Seq<i64>, k: nat) -> nat
    decreases recordings.len(),
{
    if recordings.len() == 0 {
        0
    } else {
        votes_over_upto(ids, recordings.drop_last(), k) + votes_upto(ids, recordings.last(), k)
    }
}

/// The sum of what a result list gives to each recording of `recordings`.
pub open spec fn votes_over(ids: Seq<i64>, recordings: Seq<i64>) -> nat {
    votes_over_upto(ids, recordings, ids.len())
}

/// The recordings of the hits of each of `lists`, list by list.
pub open spec fn recordings_of_lists(lists: Seq<Vec<Hit>>) -> Seq<Seq<i64>> {
    Seq::new(lists.len(), |l: int| recordings_of(lists[l]@))
}

/// What all of `lists` together give to recording `id`.
pub open spec fn votes_of_lists(lists: Seq<Seq<i64>>, id: i64) -> nat
    decreases lists.len(),
{
    if lists.len() == 0 {
        0
    } else {
        votes_of_lists(lists.drop_last(), id) + votes(lists.last(), id)
    }
}

/// What all of `lists` together give to all recordings together.
pub open spec fn weight_of_lists(lists: Seq<Seq<i64>>) -> nat
    decreases lists.len(),
{
    if lists.len() == 0 {
        0
    } else {
        weight_of_lists(lists.drop_last()) + triangle(lists.last().len())
    }
}

/// The sum, over the recordings of `recordings`, of what all of `lists`
/// together give to each.
pub open spec fn votes_of_lists_over(lists: Seq<Seq<i64>>, recordings: Seq<i64>) -> nat
    decreases recordings.len(),
{
    if recordings.len() == 0 {
        0
    } else {
        votes_of_lists_over(lists, recordings.drop_last()) + votes_of_lists(
            lists,
            recordings.last(),
        )
    }
}

/// `entries` lists every recording of the board once, each with its score.
pub open spec fn lists_board(entries: Seq<Match>, board: ScoreBoard) -> bool {
    &&& forall|i: int|
        0 <= i < entries.len() ==> board.recordings().contains(#[trigger] entries[i].recording_id)
            && board.score(entries[i].recording_id) == entries[i].score
    &&& forall|i: int, j: int|
        0 <= i < j < entries.len() ==> entries[i].recording_id != entries[j].recording_id
    &&& forall|id: i64| #[trigger]
        board.recordings().contains(id) ==> exists|i: int|
            0 <= i < entries.len() && entries[i].recording_id == id
}

/// `ranked` is a ranking of the board's recordings: its best `ranked.len()`
/// recordings, each once and with its score, best first. Which of several
/// recordings with equal scores comes first, or is left out, is open.
pub open spec fn ranks_board(ranked: Seq<Match>, board: ScoreBoard) -> bool {
    &&& forall|i: int|
        0 <= i < ranked.len() ==> board.recordings().contains(#[trigger] ranked[i].recording_id)
            && board.score(ranked[i].recording_id) == ranked[i].score
    &&& forall|i: int, j: int|
        0 <= i < j < ranked.len() ==> ranked[i].recording_id != ranked[j].recording_id
    &&& forall|i: int, j: int| 0 <= i < j < ranked.len() ==> ranked[i].score >= ranked[j].score
    &&& forall|id: i64| #[trigger]
        board.recordings().contains(id) ==> (exists|i: int|
            0 <= i < ranked.len() && ranked[i].recording_id == id) || (forall|i: int|
            0 <= i < ranked.len() ==> (#[trigger] ranked[i]).score >= board.score(id))
}

/// The scores that recordings have collected from the result lists added so far.
pub struct ScoreBoard {
    scores: HashMap<i64, u64>,
    cast: u64,
}

impl ScoreBoard {
    #[verifier::type_invariant]
    spec fn bounded(&self) -> bool {
        forall|id: i64| #[trigger] self.scores@.contains_key(id) ==> self.scores@[id] <= self.cast
    }

    /// The recordings that have been hit at least once.
    pub closed spec fn recordings(&self) -> Set<i64> {
        self.scores@.dom()
    }

    /// The score of a recording; zero for one that was never hit.
    pub closed spec fn score(&self, id: i64) -> nat {
        if self.scores@.contains_key(id) {
            self.scores@[id] as nat
        } else {
            0
        }
    }

    /// All votes given so far, to all recordings together.
    pub closed spec fn votes_cast(&self) -> nat {
        self.cast as nat
    }

    /// A board on which no recording has a score.
    pub fn new() -> (r: ScoreBoard)
        ensures
            r.recordings() == Set::<i64>::empty(),
            r.votes_cast() == 0,
            forall|id: i64| r.score(id) == 0,
    {
        let r = ScoreBoard { scores: HashMap::new(), cast: 0 };
        assert(r.scores@.dom() =~= Set::<i64>::empty());
        r
    }

    /// Number of recordings that have been hit.
    pub fn len(&self) -> (r: usize)
        ensures
            r == self.recordings().len(),
    {
        self.scores.len()
    }

    /// The score of recording `id`, zero if it was never hit.
    pub fn score_of(&self, id: i64) -> (r: u64)
        ensures
            r == self.score(id),
    {
        broadcast use vstd::std_specs::hash::group_hash_axioms;

        match self.scores.get(&id) {
            Some(v) => *v,
            None => 0,
        }
    }

    /// All votes given so far.
    pub fn total_votes(&self) -> (r: u64)
        ensures
            r == self.votes_cast(),
    {
        self.cast
    }

    /// Adds one query frame's result list, nearest hit first: the hit at
    /// position `i` of `n` adds `n - i` to its recording's score. Fails, and
    /// changes nothing, when the votes of all lists together would pass
    /// `u64::MAX`.
    pub fn add_votes(&mut self, hits: &Vec<Hit>) -> (r: Result<(), ScoreOverflow>)
        ensures
            r is Ok <==> old(self).votes_cast() + triangle(hits@.len()) <= u64::MAX,
            r is Ok ==> final(self).votes_cast() == old(self).votes_cast() + triangle(
                hits@.len(),
            ),
            r is Ok ==> forall|id: i64|
                final(self).recordings().contains(id) <==> (old(self).recordings().contains(id)
                    || recordings_of(hits@).contains(id)),
            r is Ok ==> forall|id: i64| #[trigger]
                final(self).score(id) == old(self).score(id) + votes(recordings_of(hits@), id),
            r is Err ==> final(self).votes_cast() == old(self).votes_cast(),
            r is Err ==> final(self).recordings() == old(self).recordings(),
            r is Err ==> forall|id: i64| #[trigger] final(self).score(id) == old(self).score(id),
    {
        broadcast use vstd::std_specs::hash::group_hash_axioms;

        let n: usize = hits.len();
        let wide: u128 = n as u128;
        assert(wide * (wide + 1) <= 0xffff_ffff_ffff_ffff * 0x1_0000_0000_0000_0000)
            by (nonlinear_arith)
            requires
                0 <= wide <= 0xffff_ffff_ffff_ffff,
        ;
        let weight: u128 = wide * (wide + 1) / 2;
        if weight > (u64::MAX - self.cast) as u128 {
            return Err(ScoreOverflow);
        }
        proof {
            use_type_invariant(&*self);
            lemma_weight_total(n as nat);
        }
        let ghost ids = recordings_of(hits@);
        let ghost before = *self;
        let ghost old_cast = self.cast as nat;
        let mut scores: HashMap<i64, u64> = HashMap::new();
        std::mem::swap(&mut self.scores, &mut scores);
        let mut i: usize = 0;
        while i < n
            invariant
                n == hits@.len(),
                ids == recordings_of(hits@),
                i <= n,
                old_cast == before.cast,
                old_cast + triangle(n as nat) <= u64::MAX,
                forall|id: i64|
                    scores@.contains_key(id) <==> (before.scores@.contains_key(id) || exists|
                        j: int,
                    |
                        0 <= j < i && ids[j] == id),
                forall|id: i64| #[trigger]
                    scores@.contains_key(id) ==> scores@[id] == before.score(id) + votes_upto(
                        ids,
                        id,
                        i as nat,
                    ),
                forall|id: i64| #[trigger]
                    scores@.contains_key(id) ==> scores@[id] <= old_cast + weight_upto(
                        n as nat,
                        i as nat,
                    ),
                forall|id: i64|
                    !scores@.contains_key(id) ==> #[trigger] votes_upto(ids, id, i as nat) == 0,
            decreases n - i,
        {
            let id: i64 = hits[i].recording_id;
            let gain: u64 = (n - i) as u64;
            let held: u64 = match scores.get(&id) {
                Some(v) => *v,
                None => 0,
            };
            proof {
                lemma_weight_bound(n as nat, (i + 1) as nat);
                lemma_weight_total(n as nat);
                assert(ids[i as int] == id);
            }
            let ghost prior = scores@;
            scores.insert(id, held + gain);
            proof {
                assert forall|other: i64| #[trigger]
                    scores@.contains_key(other) implies scores@[other] == before.score(other)
                    + votes_upto(ids, other, (i + 1) as nat) by {
                    if other == id {
                        if prior.contains_key(id) {
                            assert(held == before.score(id) + votes_upto(ids, id, i as nat));
                        } else {
                            assert(votes_upto(ids, id, i as nat) == 0);
                            assert(!before.scores@.contains_key(id));
                        }
                    } else {
                        assert(prior.contains_key(other));
                        assert(votes_upto(ids, other, (i + 1) as nat) == votes_upto(
                            ids,
                            other,
                            i as nat,
                        ));
                    }
                }
                assert forall|other: i64| !scores@.contains_key(other) implies #[trigger] votes_upto(
                    ids,
                    other,
                    (i + 1) as nat,
                ) == 0 by {
                    assert(!prior.contains_key(other));
                    assert(votes_upto(ids, other, i as nat) == 0);
                }
                assert forall|other: i64|
                    scores@.contains_key(other) <==> (before.scores@.contains_key(other)
                        || exists|j: int| 0 <= j < i + 1 && ids[j] == other) by {
                    if other != id && scores@.contains_key(other) {
                        assert(prior.contains_key(other));
                    }
                }
            }
            i += 1;
        }
        proof {
            lemma_weight_total(n as nat);
        }
        self.cast = self.cast + weight as u64;
        self.scores = scores;
        proof {
            assert forall|id: i64|
                self.recordings().contains(id) <==> (before.recordings().contains(id)
                    || ids.contains(id)) by {
                if ids.contains(id) {
                    let j = choose|j: int| 0 <= j < ids.len() && ids[j] == id;
                    assert(0 <= j < n && ids[j] == id);
                }
            }
        }
        Ok(())
    }

    /// The board's recordings, each once and with its score, in no particular order.
    pub fn entries(&self) -> (r: Vec<Match>)
        ensures
            r@.len() == self.recordings().len(),
            lists_board(r@, *self),
    {
        broadcast use vstd::std_specs::hash::group_hash_axioms;

        let mut out: Vec<Match> = Vec::new();
        let ghost walk = self.scores.iter().remaining();
        for pair in it: self.scores.iter()
            invariant
                it.seq() == walk,
                out@.len() == it.index(),
                forall|j: int|
                    0 <= j < it.index() ==> out@[j].recording_id == *walk[j].0 && out@[j].score
                        == *walk[j].1,
        {
            let (id, score) = pair;
            out.push(Match { recording_id: *id, score: *score });
        }
        proof {
            assert forall|i: int| 0 <= i < out@.len() implies self.recordings().contains(
                #[trigger] out@[i].recording_id,
            ) && self.score(out@[i].recording_id) == out@[i].score by {
                assert(self.scores@.contains_key(*walk[i].0));
                assert(self.scores@[*walk[i].0] == *walk[i].1);
            }
            assert forall|id: i64| #[trigger] self.recordings().contains(id) implies exists|i: int|
                0 <= i < out@.len() && out@[i].recording_id == id by {
                assert(walk.contains((&id, &self.scores@[id])));
                let i = choose|i: int| 0 <= i < walk.len() && walk[i] == (&id, &self.scores@[id]);
                assert(out@[i].recording_id == id);
            }
            assert forall|i: int, j: int| 0 <= i < j < out@.len() implies out@[i].recording_id
                != out@[j].recording_id by {
                if out@[i].recording_id == out@[j].recording_id {
                    assert(self.scores@[*walk[i].0] == *walk[i].1);
                    assert(self.scores@[*walk[j].0] == *walk[j].1);
                    assert(walk[i] == walk[j]);
                }
            }
        }
        out
    }

    /// The `n_matches` recordings with the highest scores, best first; all of
    /// them where fewer have been hit.
    pub fn ranking(&self, n_matches: usize) -> (r: Vec<Match>)
        ensures
            r@.len() == if n_matches <= self.recordings().len() {
                n_matches as nat
            } else {
                self.recordings().len()
            },
            ranks_board(r@, *self),
    {
        let mut pool: Vec<Match> = self.entries();
        let total: usize = pool.len();
        let limit: usize = if n_matches <= total {
            n_matches
        } else {
            total
        };
        let mut i: usize = 0;
        while i < limit
            invariant
                limit <= total,
                i <= limit,
                pool@.len() == total,
                lists_board(pool@, *self),
                forall|a: int, b: int| 0 <= a < b < i ==> pool@[a].score >= pool@[b].score,
                forall|a: int, b: int| 0 <= a < i <= b < total ==> pool@[a].score >= pool@[b].score,
            decreases limit - i,
        {
            let mut best: usize = i;
            let mut j: usize = i + 1;
            while j < total
                invariant
                    i < total,
                    i <= best < j <= total,
                    pool@.len() == total,
                    forall|b: int| i <= b < j ==> pool@[best as int].score >= pool@[b].score,
                decreases total - j,
            {
                if pool[j].score > pool[best].score {
                    best = j;
                }
                j += 1;
            }
            let ghost prior = pool@;
            let front: Match = pool[i];
            let winner: Match = pool[best];
            pool.set(i, winner);
            pool.set(best, front);
            proof {
                lemma_swap_keeps_listing(prior, *self, i as int, best as int);
                assert(pool@ =~= prior.update(i as int, prior[best as int]).update(
                    best as int,
                    prior[i as int],
                ));
            }
            i += 1;
        }
        let ghost full = pool@;
        pool.truncate(limit);
        proof {
            let ranked = pool@;
            assert forall|id: i64| #[trigger] self.recordings().contains(id) implies (exists|
                k: int,
            |
                0 <= k < ranked.len() && ranked[k].recording_id == id) || (forall|k: int|
                0 <= k < ranked.len() ==> (#[trigger] ranked[k]).score >= self.score(id)) by {
                let at = choose|at: int| 0 <= at < full.len() && full[at].recording_id == id;
                if at < limit {
                    assert(ranked[at].recording_id == id);
                } else {
                    assert forall|k: int| 0 <= k < ranked.len() implies (#[trigger] ranked[k]).score
                        >= self.score(id) by {
                        assert(full[k].score >= full[at].score);
                    }
                }
            }
        }
        pool
    }
}

/// Scores all the result lists of a query: each recording's score is the sum
/// of what each list gives to it. Fails when the votes of all lists together
/// would pass `u64::MAX`.
pub fn score_lists(lists: &Vec<Vec<Hit>>) -> (r: Result<ScoreBoard, ScoreOverflow>)
    ensures
        r is Ok <==> weight_of_lists(recordings_of_lists(lists@)) <= u64::MAX,
        r matches Ok(board) ==> board.votes_cast() == weight_of_lists(recordings_of_lists(lists@))
            && (forall|id: i64| #[trigger]
            board.score(id) == votes_of_lists(recordings_of_lists(lists@), id)) && (forall|
            id: i64,
        |
            board.recordings().contains(id) <==> exists|l: int|
                0 <= l < lists@.len() && #[trigger] recordings_of(lists@[l]@).contains(id)),
{
    let ghost all = recordings_of_lists(lists@);
    let mut board = ScoreBoard::new();
    let mut l: usize = 0;
    while l < lists.len()
        invariant
            l <= lists@.len(),
            all == recordings_of_lists(lists@),
            board.votes_cast() == weight_of_lists(all.take(l as int)),
            forall|id: i64| #[trigger] board.score(id) == votes_of_lists(all.take(l as int), id),
            forall|id: i64|
                board.recordings().contains(id) <==> exists|k: int|
                    0 <= k < l && #[trigger] recordings_of(lists@[k]@).contains(id),
        decreases lists@.len() - l,
    {
        let ghost before = board;
        let ghost seen = all.take(l as int);
        let ghost now = all.take(l + 1);
        proof {
            assert(now.drop_last() =~= seen);
            assert(now.last() == recordings_of(lists@[l as int]@));
            assert(now.last().len() == lists@[l as int]@.len());
        }
        match board.add_votes(&lists[l]) {
            Ok(()) => {},
            Err(overflow) => {
                proof {
                    lemma_weight_grows(all, (l + 1) as nat, all.len());
                    assert(all.take(all.len() as int) =~= all);
                }
                return Err(overflow);
            },
        }
        proof {
            assert forall|id: i64|
                board.recordings().contains(id) <==> exists|k: int|
                    0 <= k < l + 1 && #[trigger] recordings_of(lists@[k]@).contains(id) by {
                if before.recordings().contains(id) {
                    let k = choose|k: int|
                        0 <= k < l && #[trigger] recordings_of(lists@[k]@).contains(id);
                    assert(0 <= k < l + 1 && recordings_of(lists@[k]@).contains(id));
                }
                if recordings_of(lists@[l as int]@).contains(id) {
                    assert(0 <= l < l + 1 && recordings_of(lists@[l as int]@).contains(id));
                }
            }
        }
        l += 1;
    }
    proof {
        assert(all.take(all.len() as int) =~= all);
    }
    Ok(board)
}

/// The scores of a query add up to the votes that its result lists give:
/// summed over any list that names each hit recording once, they come to
/// `n * (n + 1) / 2` for each result list of `n` hits.
pub proof fn lemma_scores_sum_to_weight(lists: Seq<Seq<i64>>, recordings: Seq<i64>)
    requires
        recordings.no_duplicates(),
        forall|l: int, i: int|
            0 <= l < lists.len() && 0 <= i < lists[l].len() ==> recordings.contains(
                #[trigger] lists[l][i],
            ),
    ensures
        votes_of_lists_over(lists, recordings) == weight_of_lists(lists),
    decreases lists.len(),
{
    if lists.len() == 0 {
        lemma_no_list_gives_nothing(lists, recordings);
    } else {
        let last = lists.last();
        lemma_scores_sum_to_weight(lists.drop_last(), recordings);
        lemma_votes_of_lists_over_last(lists, recordings);
        assert forall|i: int| 0 <= i < last.len() implies recordings.contains(last[i]) by {
            assert(last[i] == lists[lists.len() - 1][i]);
        }
        lemma_votes_sum_to_triangle(last, recordings);
    }
}

proof fn lemma_no_list_gives_nothing(lists: Seq<Seq<i64>>, recordings: Seq<i64>)
    requires
        lists.len() == 0,
    ensures
        votes_of_lists_over(lists, recordings) == 0,
    decreases recordings.len(),
{
    if recordings.len() > 0 {
        lemma_no_list_gives_nothing(lists, recordings.drop_last());
    }
}

/// The last list adds to the sum what it gives to the recordings summed over.
proof fn lemma_votes_of_lists_over_last(lists: Seq<Seq<i64>>, recordings: Seq<i64>)
    requires
        lists.len() > 0,
    ensures
        votes_of_lists_over(lists, recordings) == votes_of_lists_over(
            lists.drop_last(),
            recordings,
        ) + votes_over(lists.last(), recordings),
    decreases recordings.len(),
{
    if recordings.len() > 0 {
        lemma_votes_of_lists_over_last(lists, recordings.drop_last());
    }
}

/// The order in which the result lists of a query come in does not matter:
/// with two lists exchanged, every recording is given what it was given
/// before, and so are all recordings together.
pub proof fn lemma_list_order_is_immaterial(lists: Seq<Seq<i64>>, a: int, b: int, id: i64)
    requires
        0 <= a < lists.len(),
        0 <= b < lists.len(),
    ensures
        votes_of_lists(lists.update(a, lists[b]).update(b, lists[a]), id) == votes_of_lists(
            lists,
            id,
        ),
        weight_of_lists(lists.update(a, lists[b]).update(b, lists[a])) == weight_of_lists(lists),
    decreases lists.len(),
{
    let swapped = lists.update(a, lists[b]).update(b, lists[a]);
    let last = lists.len() - 1;
    if a == b {
        assert(swapped =~= lists);
    } else if a != last && b != last {
        assert(swapped.drop_last() =~= lists.drop_last().update(a, lists[b]).update(b, lists[a]));
        lemma_list_order_is_immaterial(lists.drop_last(), a, b, id);
    } else {
        let other = if a == last {
            b
        } else {
            a
        };
        lemma_list_moved_to_end(lists.drop_last(), other, id);
        lemma_list_moved_to_end(swapped.drop_last(), other, id);
        assert(swapped.drop_last().remove(other) =~= lists.drop_last().remove(other));
    }
}

/// A list can be counted last: the lists give what the others give and the
/// list gives.
proof fn lemma_list_moved_to_end(lists: Seq<Seq<i64>>, at: int, id: i64)
    requires
        0 <= at < lists.len(),
    ensures
        votes_of_lists(lists, id) == votes_of_lists(lists.remove(at), id) + votes(lists[at], id),
        weight_of_lists(lists) == weight_of_lists(lists.remove(at)) + triangle(lists[at].len()),
    decreases lists.len(),
{
    if at == lists.len() - 1 {
        assert(lists.remove(at) =~= lists.drop_last());
    } else {
        lemma_list_moved_to_end(lists.drop_last(), at, id);
        assert(lists.remove(at).drop_last() =~= lists.drop_last().remove(at));
        assert(lists.remove(at).last() == lists.last());
    }
}

/// The lists seen so far never give more than all lists do.
proof fn lemma_weight_grows(lists: Seq<Seq<i64>>, j: nat, k: nat)
    requires
        j <= k <= lists.len(),
    ensures
        weight_of_lists(lists.take(j as int)) <= weight_of_lists(lists.take(k as int)),
    decreases k - j,
{
    if j < k {
        lemma_weight_grows(lists, j, (k - 1) as nat);
        assert(lists.take(k as int).drop_last() =~= lists.take(k - 1));
    }
}

/// Exchanging two entries of a listing of the board leaves a listing of the board.
proof fn lemma_swap_keeps_listing(entries: Seq<Match>, board: ScoreBoard, a: int, b: int)
    requires
        lists_board(entries, board),
        0 <= a < entries.len(),
        0 <= b < entries.len(),
    ensures
        lists_board(entries.update(a, entries[b]).update(b, entries[a]), board),
{
    let swapped = entries.update(a, entries[b]).update(b, entries[a]);
    assert forall|id: i64| #[trigger] board.recordings().contains(id) implies exists|i: int|
        0 <= i < swapped.len() && swapped[i].recording_id == id by {
        let i = choose|i: int| 0 <= i < entries.len() && entries[i].recording_id == id;
        if i == a {
            assert(swapped[b].recording_id == id);
        } else if i == b {
            assert(swapped[a].recording_id == id);
        } else {
            assert(swapped[i].recording_id == id);
        }
    }
}

/// Scoring law: a result list of `n` hits gives `n * (n + 1) / 2` in all.
/// Summed over any list that names each hit recording once, the list's votes
/// come to that number.
pub proof fn lemma_votes_sum_to_triangle(ids: Seq<i64>, recordings: Seq<i64>)
    requires
        recordings.no_duplicates(),
        forall|i: int| 0 <= i < ids.len() ==> recordings.contains(ids[i]),
    ensures
        votes_over(ids, recordings) == triangle(ids.len()),
{
    lemma_votes_over_prefix(ids, recordings, ids.len());
    lemma_weight_total(ids.len());
}

proof fn lemma_votes_over_prefix(ids: Seq<i64>, recordings: Seq<i64>, k: nat)
    requires
        recordings.no_duplicates(),
        forall|i: int| 0 <= i < ids.len() ==> recordings.contains(ids[i]),
        k <= ids.len(),
    ensures
        votes_over_upto(ids, recordings, k) == weight_upto(ids.len(), k),
    decreases k,
{
    if k == 0 {
        lemma_votes_over_nothing(ids, recordings);
    } else {
        lemma_votes_over_prefix(ids, recordings, (k - 1) as nat);
        lemma_votes_over_step(ids, recordings, (k - 1) as nat);
    }
}

proof fn lemma_votes_over_nothing(ids: Seq<i64>, recordings: Seq<i64>)
    ensures
        votes_over_upto(ids, recordings, 0) == 0,
    decreases recordings.len(),
{
    if recordings.len() > 0 {
        lemma_votes_over_nothing(ids, recordings.drop_last());
    }
}

/// The hit at position `k` adds its weight to the sum exactly when its
/// recording is among those summed over.
proof fn lemma_votes_over_step(ids: Seq<i64>, recordings: Seq<i64>, k: nat)
    requires
        recordings.no_duplicates(),
        k < ids.len(),
    ensures
        votes_over_upto(ids, recordings, k + 1) == votes_over_upto(ids, recordings, k) + if recordings.contains(
            ids[k as int],
        ) {
            (ids.len() - k) as nat
        } else {
            0
        },
    decreases recordings.len(),
{
    if recordings.len() > 0 {
        let init = recordings.drop_last();
        let last = recordings.last();
        assert(init.no_duplicates());
        lemma_votes_over_step(ids, init, k);
        assert(votes_upto(ids, last, k + 1) == votes_upto(ids, last, k) + if ids[k as int]
            == last {
            (ids.len() - k) as nat
        } else {
            0
        });
        if init.contains(ids[k as int]) {
            let at = choose|at: int| 0 <= at < init.len() && init[at] == ids[k as int];
            assert(recordings[at] == ids[k as int]);
            assert(last != ids[k as int]);
        } else if last == ids[k as int] {
            assert(recordings[recordings.len() - 1] == ids[k as int]);
        } else {
            if recordings.contains(ids[k as int]) {
                let at = choose|at: int|
                    0 <= at < recordings.len() && recordings[at] == ids[k as int];
                assert(init[at] == ids[k as int]);
            }
        }
    }
}

/// The first `k` hits never give more than the whole list does.
proof fn lemma_weight_bound(n: nat, k: nat)
    requires
        k <= n,
    ensures
        weight_upto(n, k) <= weight_upto(n, n),
    decreases n - k,
{
    if k < n {
        lemma_weight_bound(n, k + 1);
    }
}

/// A list of `n` hits gives `n * (n + 1) / 2` in all.
pub proof fn lemma_weight_total(n: nat)
    ensures
        weight_upto(n, n) == triangle(n),
{
    lemma_weight_closed_form(n, n);
    assert(n * (2 * n - n + 1) == n * (n + 1)) by (nonlinear_arith);
}

proof fn lemma_weight_closed_form(n: nat, k: nat)
    requires
        k <= n,
    ensures
        2 * weight_upto(n, k) == k * (2 * n - k + 1),
    decreases k,
{
    if k == 0 {
        assert(0 * (2 * n - 0 + 1) == 0) by (nonlinear_arith);
    } else {
        lemma_weight_closed_form(n, (k - 1) as nat);
        assert((k - 1) * (2 * n - (k - 1) + 1) + 2 * (n - (k - 1)) == k * (2 * n - k + 1))
            by (nonlinear_arith);
    }
}

} // verus!
