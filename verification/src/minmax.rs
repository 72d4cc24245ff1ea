//! A search for the best move within a time budget: minimax with
//! alpha-beta bounds, deepened pass by pass.
//!
//! A pass looks a fixed number of plies ahead. At each node the moves of
//! the side to move are shuffled, ranked by the evaluation of the boards
//! they lead to, and the first few of them are followed up. A pass that
//! runs to its end without the clock running out is complete; the move of
//! the last complete pass is the one made.

use crate::board::{Board, Move, Winner};
use crate::chance::{shuffle_moves, thread_generator};
use crate::clock::{elapsed, nanos, now};
use crate::game::GamePlayer;
use crate::geometry::Color;
use crate::heuristic::Heuristic;
use crate::rank::{higher, higher_of, lower, lower_of, Ranked};
use std::marker::PhantomData;
use std::time::{Duration, Instant};
use vstd::prelude::*;

verus! {

/// The plies that the first pass against the clock looks ahead.
pub const FIRST_DEPTH: usize = 3;

/// The plies beyond which no pass looks, however much time is left.
pub const DEPTH_LIMIT: usize = 64;

/// The number of moves that are followed up at a node.
pub const WIDTH: usize = 6;

/// A move that could be made at a node, with the board it leads to and the
/// evaluation of that board.
#[derive(Copy, Debug)]
pub struct Candidate<T> {
    pub estimate: T,
    pub mov: Move,
    pub board: Board,
}

impl<T: Copy> Clone for Candidate<T> {
    fn clone(&self) -> (r: Self)
        ensures
            r == *self,
    {
        *self
    }
}

/// The moves of a sequence of candidates, in order.
pub open spec fn moves_of<T>(candidates: Seq<Candidate<T>>) -> Seq<Move> {
    candidates.map_values(|c: Candidate<T>| c.mov)
}

/// Whether `a` may stand before `b` in the order in which a node follows
/// its candidates up: the higher first for the side that maximizes, the
/// lower first for the other.
pub open spec fn in_order<T: Ranked>(a: T, b: T, maximizing: bool) -> bool {
    if maximizing {
        b.rank_le(&a)
    } else {
        a.rank_le(&b)
    }
}

/// Whether the candidates stand in the order in which they are followed
/// up.
pub open spec fn ranked<T: Ranked>(candidates: Seq<Candidate<T>>, maximizing: bool) -> bool {
    forall|i: int, j: int|
        0 <= i < j < candidates.len() ==> in_order(
            (#[trigger] candidates[i]).estimate,
            (#[trigger] candidates[j]).estimate,
            maximizing,
        )
}

/// Whether `p` is the place of `item` in the ranked list: all before it may
/// stand before the item, and all from it on have to stand behind.
pub open spec fn place_of<T: Ranked>(
    list: Seq<Candidate<T>>,
    item: Candidate<T>,
    maximizing: bool,
    p: int,
) -> bool {
    &&& 0 <= p <= list.len()
    &&& forall|j: int|
        0 <= j < p ==> in_order((#[trigger] list[j]).estimate, item.estimate, maximizing)
    &&& forall|j: int|
        p <= j < list.len() ==> !in_order((#[trigger] list[j]).estimate, item.estimate, maximizing)
}

/// A ranked list has one place for an item.
pub proof fn lemma_place_unique<T: Ranked>(
    list: Seq<Candidate<T>>,
    item: Candidate<T>,
    maximizing: bool,
    p: int,
    q: int,
)
    requires
        place_of(list, item, maximizing, p),
        place_of(list, item, maximizing, q),
    ensures
        p == q,
{
    if p < q {
        assert(in_order(list[p].estimate, item.estimate, maximizing));
    } else if q < p {
        assert(in_order(list[q].estimate, item.estimate, maximizing));
    }
}

/// Putting a move into a sequence adds it to what the sequence holds.
pub proof fn lemma_insert_multiset(s: Seq<Move>, p: int, m: Move)
    requires
        0 <= p <= s.len(),
    ensures
        s.insert(p, m).to_multiset() == s.to_multiset().insert(m),
{
    let t = s.insert(p, m);
    assert(t.remove(p) =~= s);
    vstd::seq_lib::to_multiset_remove(t, p);
    t.to_multiset_ensures();
    assert(t.contains(m)) by {
        assert(t[p] == m);
    }
    assert(t.to_multiset() =~= s.to_multiset().insert(m));
}

/// Whether `a` has to stand before `b`.
fn precedes<T: Ranked>(a: &T, b: &T, maximizing: bool) -> (r: bool)
    requires
        a.well_formed(),
        b.well_formed(),
    ensures
        r == !in_order(*b, *a, maximizing),
{
    if maximizing {
        a.outranks(b)
    } else {
        b.outranks(a)
    }
}

/// Puts a candidate into a ranked list at its place, behind those it
/// ranks alike with.
pub fn insert_ranked<T: Ranked>(
    list: &mut Vec<Candidate<T>>,
    item: Candidate<T>,
    maximizing: bool,
)
    requires
        ranked(old(list)@, maximizing),
        forall|i: int| 0 <= i < old(list)@.len() ==> (#[trigger] old(list)@[i]).estimate.well_formed(),
        item.estimate.well_formed(),
    ensures
        ranked(final(list)@, maximizing),
        exists|p: int|
            #[trigger] place_of(old(list)@, item, maximizing, p) && final(list)@ == old(list)@.insert(
                p,
                item,
            ),
{
    let mut p: usize = list.len();
    while p > 0 && precedes(&item.estimate, &list[p - 1].estimate, maximizing)
        invariant
            0 <= p <= list@.len(),
            list@ == old(list)@,
            item.estimate.well_formed(),
            forall|i: int| 0 <= i < list@.len() ==> (#[trigger] list@[i]).estimate.well_formed(),
            forall|j: int|
                p <= j < list@.len() ==> !in_order(
                    (#[trigger] list@[j]).estimate,
                    item.estimate,
                    maximizing,
                ),
        decreases p,
    {
        p -= 1;
    }
    proof {
        let before = list@;
        let after = before.insert(p as int, item);
        assert forall|j: int| 0 <= j < p implies in_order(
            (#[trigger] before[j]).estimate,
            item.estimate,
            maximizing,
        ) by {
            let last = before[p - 1].estimate;
            let here = before[j].estimate;
            T::lemma_rank_total(last, last);
            if maximizing {
                T::lemma_rank_transitive(item.estimate, last, here);
            } else {
                T::lemma_rank_transitive(here, last, item.estimate);
            }
        }
        assert forall|j: int| p <= j < before.len() implies in_order(
            item.estimate,
            (#[trigger] before[j]).estimate,
            maximizing,
        ) by {
            T::lemma_rank_total(item.estimate, before[j].estimate);
        }
        assert(place_of(before, item, maximizing, p as int));
        assert forall|i: int, j: int| 0 <= i < j < after.len() implies in_order(
            (#[trigger] after[i]).estimate,
            (#[trigger] after[j]).estimate,
            maximizing,
        ) by {
            if j == p {
                assert(after[i] == before[i]);
            } else if i == p {
                assert(after[j] == before[j - 1]);
            } else {
                let a = if i < p {
                    i
                } else {
                    i - 1
                };
                let b = if j < p {
                    j
                } else {
                    j - 1
                };
                assert(after[i] == before[a] && after[j] == before[b]);
            }
        }
    }
    list.insert(p, item);
}

/// What a node has found while it follows its candidates up: the best
/// value so far and the move that leads to it, the bounds within which a
/// value still matters to the nodes above, and whether the node has been
/// cut off.
#[derive(Copy, Debug)]
pub struct Progress<T> {
    pub best_score: T,
    pub best_move: Option<Move>,
    pub alpha: T,
    pub beta: T,
    pub cut: bool,
}

impl<T: Copy> Clone for Progress<T> {
    fn clone(&self) -> (r: Self)
        ensures
            r == *self,
    {
        *self
    }
}

impl<T: Ranked> Progress<T> {
    /// Whether the values held can take part in comparisons.
    pub open spec fn wf(&self) -> bool {
        self.best_score.well_formed() && self.alpha.well_formed() && self.beta.well_formed()
    }

    /// What the node has found once the candidate `mov` has turned out to
    /// be worth `score`.
    ///
    /// The first candidate is taken in any case, a later one only if it is
    /// strictly better for the side that moves. A candidate that is taken
    /// cuts the node off if it is beyond the bound of the other side: above
    /// `beta` where the node maximizes, below `alpha` where it minimizes.
    /// Otherwise it tightens the bound of the side that moves.
    pub open spec fn taken_up(self, maximizing: bool, score: T, mov: Move) -> Progress<T> {
        let better = self.best_move is None || if maximizing {
            !score.rank_le(&self.best_score)
        } else {
            !self.best_score.rank_le(&score)
        };
        if !better {
            self
        } else if maximizing {
            if !score.rank_le(&self.beta) {
                Progress { best_score: score, best_move: Some(mov), cut: true, ..self }
            } else {
                Progress {
                    best_score: score,
                    best_move: Some(mov),
                    alpha: higher_of(self.alpha, score),
                    ..self
                }
            }
        } else {
            if !self.alpha.rank_le(&score) {
                Progress { best_score: score, best_move: Some(mov), cut: true, ..self }
            } else {
                Progress {
                    best_score: score,
                    best_move: Some(mov),
                    beta: lower_of(self.beta, score),
                    ..self
                }
            }
        }
    }

    /// Takes the value of a candidate into account.
    pub fn take_up(self, maximizing: bool, score: T, mov: Move) -> (after: Progress<T>)
        requires
            self.wf(),
            score.well_formed(),
        ensures
            after == self.taken_up(maximizing, score, mov),
            after.wf(),
    {
        let mut after = self;
        if maximizing {
            if after.best_move.is_none() || score.outranks(&after.best_score) {
                after.best_score = score;
                after.best_move = Some(mov);
                if after.best_score.outranks(&after.beta) {
                    after.cut = true;
                } else {
                    after.alpha = higher(after.alpha, after.best_score);
                }
            }
        } else if after.best_move.is_none() || after.best_score.outranks(&score) {
            after.best_score = score;
            after.best_move = Some(mov);
            if after.alpha.outranks(&after.best_score) {
                after.cut = true;
            } else {
                after.beta = lower(after.beta, after.best_score);
            }
        }
        after
    }
}

/// What a node has found once it has followed up the first `n` of its
/// candidates, one after the other, with `values[k]` as the value found for
/// the `k`-th of them. A node that is cut off follows up no more.
pub open spec fn followed_up<T: Ranked>(
    start: Progress<T>,
    maximizing: bool,
    candidates: Seq<Candidate<T>>,
    values: Seq<T>,
    n: int,
) -> Progress<T>
    decreases n,
{
    if n <= 0 {
        start
    } else {
        let before = followed_up(start, maximizing, candidates, values, n - 1);
        if before.cut {
            before
        } else {
            before.taken_up(maximizing, values[n - 1], candidates[n - 1].mov)
        }
    }
}

/// What a node has found after `n` candidates depends on the values of
/// these candidates only.
pub proof fn lemma_followed_up_values<T: Ranked>(
    start: Progress<T>,
    maximizing: bool,
    candidates: Seq<Candidate<T>>,
    values: Seq<T>,
    others: Seq<T>,
    n: int,
)
    requires
        forall|k: int| 0 <= k < n ==> values[k] == others[k],
    ensures
        followed_up(start, maximizing, candidates, values, n) == followed_up(
            start,
            maximizing,
            candidates,
            others,
            n,
        ),
    decreases n,
{
    if n > 0 {
        lemma_followed_up_values(start, maximizing, candidates, values, others, n - 1);
    }
}

/// A node that is cut off after `i` candidates has found all that it
/// finds.
pub proof fn lemma_followed_up_cut<T: Ranked>(
    start: Progress<T>,
    maximizing: bool,
    candidates: Seq<Candidate<T>>,
    values: Seq<T>,
    i: int,
    n: int,
)
    requires
        i <= n,
        followed_up(start, maximizing, candidates, values, i).cut,
    ensures
        followed_up(start, maximizing, candidates, values, n) == followed_up(
            start,
            maximizing,
            candidates,
            values,
            i,
        ),
    decreases n - i,
{
    if i < n {
        lemma_followed_up_cut(start, maximizing, candidates, values, i, n - 1);
    }
}

/// A node that starts without a move and follows a candidate up has the
/// move of one of the candidates that it followed up.
pub proof fn lemma_followed_up_move<T: Ranked>(
    start: Progress<T>,
    maximizing: bool,
    candidates: Seq<Candidate<T>>,
    values: Seq<T>,
    n: int,
)
    requires
        start.best_move is None,
        !start.cut,
    ensures
        n <= 0 ==> followed_up(start, maximizing, candidates, values, n).best_move is None,
        n >= 1 ==> exists|k: int|
            0 <= k < n && followed_up(start, maximizing, candidates, values, n).best_move == Some(
                (#[trigger] candidates[k]).mov,
            ),
    decreases n,
{
    if n >= 1 {
        lemma_followed_up_move(start, maximizing, candidates, values, n - 1);
        let before = followed_up(start, maximizing, candidates, values, n - 1);
        let after = followed_up(start, maximizing, candidates, values, n);
        if n == 1 {
            assert(after.best_move == Some(candidates[0].mov));
        } else {
            let k = choose|k: int|
                0 <= k < n - 1 && before.best_move == Some((#[trigger] candidates[k]).mov);
            if after.best_move == before.best_move {
                assert(after.best_move == Some(candidates[k].mov));
            } else {
                assert(after.best_move == Some(candidates[n - 1].mov));
            }
        }
    }
}

/// A player that searches ahead, for as long as its time per turn allows.
pub struct MinMaxPlayer<H, T> where H: Heuristic<T>, T: Ranked {
    heuristic: H,
    iterations: usize,
    max_depth: usize,
    max_width: usize,
    time_per_turn: u128,
    started: Option<Instant>,
    timed_out: bool,
    phantom: PhantomData<T>,
}

impl<H, T> MinMaxPlayer<H, T> where H: Heuristic<T>, T: Ranked {
    /// The evaluation that the search relies on.
    pub closed spec fn heuristic(&self) -> H {
        self.heuristic
    }

    /// The plies that the current pass looks ahead.
    pub closed spec fn depth(&self) -> usize {
        self.max_depth
    }

    /// The number of moves that the current pass follows up at a node.
    pub closed spec fn width(&self) -> usize {
        self.max_width
    }

    /// Whether the current pass is run against the clock.
    pub closed spec fn timed(&self) -> bool {
        self.started is Some
    }

    /// Whether the clock has run out on the current pass.
    pub closed spec fn expired(&self) -> bool {
        self.timed_out
    }

    /// The number of nodes looked at so far, as far as it can be counted.
    pub closed spec fn visited(&self) -> usize {
        self.iterations
    }

    /// The candidate that a move makes at a node: the board that the move
    /// leads to, and the value of that board to `color`.
    pub open spec fn candidate_of(&self, board: Board, color: Color, mov: Move) -> Candidate<T> {
        let next = board.apply_spec(mov);
        Candidate { estimate: self.heuristic().evaluate_spec(next, color), mov, board: next }
    }

    /// The candidates of `moves` in the order in which they are followed
    /// up: each is put in its place among those of the moves before it.
    pub open spec fn ranked_list(
        &self,
        board: Board,
        color: Color,
        moves: Seq<Move>,
        maximizing: bool,
    ) -> Seq<Candidate<T>>
        decreases moves.len(),
    {
        if moves.len() == 0 {
            Seq::empty()
        } else {
            let rest = self.ranked_list(board, color, moves.drop_last(), maximizing);
            let item = self.candidate_of(board, color, moves.last());
            rest.insert(choose|p: int| place_of(rest, item, maximizing, p), item)
        }
    }

    /// Whether two states of the player are set up for the same pass.
    pub open spec fn same_pass(&self, other: &Self) -> bool {
        &&& self.heuristic() == other.heuristic()
        &&& self.depth() == other.depth()
        &&& self.width() == other.width()
        &&& self.timed() == other.timed()
    }

    /// The value to `color` of a game that ended as `winner` says.
    pub open spec fn settled_spec(winner: Winner, color: Color) -> T {
        match winner.color_spec() {
            None => H::draw_spec(),
            Some(c) => if c == color {
                H::max_spec()
            } else {
                H::min_spec()
            },
        }
    }

    /// The side that moves at a node: the searching side where the node
    /// maximizes, its opponent where it minimizes.
    pub open spec fn mover(color: Color, maximizing: bool) -> Color {
        if maximizing {
            color
        } else {
            color.inverted()
        }
    }

    /// The value of a node that is not looked into: that of its outcome
    /// where the board is decided, and the evaluation of the board where
    /// the pass ends at the node's depth. A node that is looked into has
    /// none.
    pub open spec fn leaf_value(&self, board: Board, color: Color, depth: int) -> Option<T> {
        match board.winner_spec() {
            Some(winner) => Some(Self::settled_spec(winner, color)),
            None => if depth >= self.depth() {
                Some(self.heuristic().evaluate_spec(board, color))
            } else {
                None
            },
        }
    }

    /// What a node knows before it follows any candidate up: the worst
    /// value for the side that moves, no move, and the bounds it was given.
    pub open spec fn start_of(maximizing: bool, alpha: T, beta: T) -> Progress<T> {
        Progress {
            best_score: if maximizing {
                H::min_spec()
            } else {
                H::max_spec()
            },
            best_move: None,
            alpha,
            beta,
            cut: false,
        }
    }

    /// The number of candidates that a node follows up at most, of `len`
    /// that it has.
    pub open spec fn reach(&self, len: int) -> int {
        if self.width() <= len {
            self.width() as int
        } else {
            len
        }
    }

    /// Whether `r` is what a node `depth` plies down finds by following
    /// its candidates up, where `shuffled` is the order in which its moves
    /// came out of the shuffle and `values` are the values found for the
    /// candidates.
    ///
    /// The candidates are those of `shuffled`, ranked. As many of them are
    /// followed up as the pass is wide, best first, until the node is cut
    /// off; the result is the best value and its move. The value of a
    /// candidate is fixed where its board is decided or the pass ends a
    /// ply further down.
    pub open spec fn follows_up(
        &self,
        board: Board,
        color: Color,
        maximizing: bool,
        alpha: T,
        beta: T,
        depth: int,
        shuffled: Seq<Move>,
        values: Seq<T>,
        r: (T, Option<Move>),
    ) -> bool {
        let candidates = self.ranked_list(board, color, shuffled, maximizing);
        let n = self.reach(candidates.len() as int);
        let end = followed_up(Self::start_of(maximizing, alpha, beta), maximizing, candidates, values, n);
        &&& values.len() == n
        &&& forall|k: int|
            0 <= k < n ==> (self.leaf_value(
                (#[trigger] candidates[k]).board,
                color,
                depth + 1,
            ) matches Some(v) ==> values[k] == v)
        &&& r == (end.best_score, end.best_move)
    }

    /// Whether `r` is what a node `depth` plies down returns, where `late`
    /// says whether the clock had run out when the node was entered.
    ///
    /// A decided board has the value of its outcome. An open board on
    /// which the clock has run out, or at which the pass ends, has the
    /// value that the evaluation gives it. In both cases there is no move.
    /// Every other node follows its candidates up, in some order of its
    /// moves that the shuffle may give.
    pub open spec fn node_result(
        &self,
        late: bool,
        board: Board,
        color: Color,
        maximizing: bool,
        alpha: T,
        beta: T,
        depth: int,
        r: (T, Option<Move>),
    ) -> bool {
        match board.winner_spec() {
            Some(winner) => r == (Self::settled_spec(winner, color), None::<Move>),
            None => if late || depth >= self.depth() {
                r == (self.heuristic().evaluate_spec(board, color), None::<Move>)
            } else {
                exists|shuffled: Seq<Move>, values: Seq<T>|
                    shuffled.to_multiset() == board.side_moves(
                        Self::mover(color, maximizing),
                    ).to_multiset() && #[trigger] self.follows_up(
                        board,
                        color,
                        maximizing,
                        alpha,
                        beta,
                        depth,
                        shuffled,
                        values,
                        r,
                    )
            },
        }
    }

    /// Players that are set up for the same pass rank moves alike.
    pub proof fn lemma_same_pass_ranks(
        &self,
        other: &Self,
        board: Board,
        color: Color,
        moves: Seq<Move>,
        maximizing: bool,
    )
        requires
            self.same_pass(other),
        ensures
            self.ranked_list(board, color, moves, maximizing) == other.ranked_list(
                board,
                color,
                moves,
                maximizing,
            ),
        decreases moves.len(),
    {
        if moves.len() > 0 {
            self.lemma_same_pass_ranks(other, board, color, moves.drop_last(), maximizing);
        }
    }

    /// Players that are set up for the same pass follow candidates up
    /// alike.
    pub proof fn lemma_same_pass_follows_up(
        &self,
        other: &Self,
        board: Board,
        color: Color,
        maximizing: bool,
        alpha: T,
        beta: T,
        depth: int,
        shuffled: Seq<Move>,
        values: Seq<T>,
        r: (T, Option<Move>),
    )
        requires
            self.same_pass(other),
        ensures
            self.follows_up(board, color, maximizing, alpha, beta, depth, shuffled, values, r)
                == other.follows_up(
                board,
                color,
                maximizing,
                alpha,
                beta,
                depth,
                shuffled,
                values,
                r,
            ),
    {
        self.lemma_same_pass_ranks(other, board, color, shuffled, maximizing);
    }

    /// A player that relies on `heuristic` and takes about `time_per_turn`
    /// for a move.
    pub fn new(heuristic: H, time_per_turn: Duration) -> (player: MinMaxPlayer<H, T>)
        ensures
            player.heuristic() == heuristic,
            player.visited() == 0,
            !player.expired(),
    {
        MinMaxPlayer {
            heuristic,
            iterations: 0,
            max_depth: 0,
            max_width: 0,
            time_per_turn: nanos(&time_per_turn),
            started: None,
            timed_out: false,
            phantom: PhantomData,
        }
    }

    /// The number of nodes looked at so far, as far as it can be counted.
    pub fn iterations(&self) -> (r: usize)
        ensures
            r == self.visited(),
    {
        self.iterations
    }

    /// The value to `color` of a game that ended as `winner` says.
    pub fn settled(winner: &Winner, color: &Color) -> (r: T)
        ensures
            r == Self::settled_spec(*winner, *color),
            r.well_formed(),
    {
        match winner.color() {
            None => H::draw(),
            Some(c) => if c == *color {
                H::max()
            } else {
                H::min()
            },
        }
    }

    /// Whether the pass is run against the clock and the time for the turn
    /// is used up.
    fn out_of_time(&self) -> (r: bool)
        ensures
            !self.timed() ==> !r,
    {
        match &self.started {
            Some(start) => time_is_up(nanos(&elapsed(start)), self.time_per_turn),
            None => false,
        }
    }

    /// The candidates at a node: for each of `moves` the board it leads to
    /// and the value of that board to `color`, in the order in which they
    /// are followed up.
    pub fn rank_children(
        &self,
        board: &Board,
        color: &Color,
        moves: &Vec<Move>,
        maximizing: bool,
    ) -> (children: Vec<Candidate<T>>)
        requires
            board.wf(),
            forall|k: int| 0 <= k < moves@.len() ==> (#[trigger] moves@[k]).valid(),
        ensures
            children@ == self.ranked_list(*board, *color, moves@, maximizing),
            children@.len() == moves@.len(),
            moves_of(children@).to_multiset() == moves@.to_multiset(),
            ranked(children@, maximizing),
            forall|i: int|
                0 <= i < children@.len() ==> {
                    let child = #[trigger] children@[i];
                    &&& moves@.contains(child.mov)
                    &&& child.board == board.apply_spec(child.mov)
                    &&& child.board.wf()
                    &&& child.estimate == self.heuristic().evaluate_spec(child.board, *color)
                    &&& child.estimate.well_formed()
                },
    {
        let mut children: Vec<Candidate<T>> = Vec::new();
        let mut i: usize = 0;
        proof {
            assert(moves_of(children@) =~= moves@.take(0));
        }
        while i < moves.len()
            invariant
                0 <= i <= moves@.len(),
                board.wf(),
                forall|k: int| 0 <= k < moves@.len() ==> (#[trigger] moves@[k]).valid(),
                children@ == self.ranked_list(*board, *color, moves@.take(i as int), maximizing),
                children@.len() == i,
                moves_of(children@).to_multiset() == moves@.take(i as int).to_multiset(),
                ranked(children@, maximizing),
                forall|j: int|
                    0 <= j < children@.len() ==> {
                        let child = #[trigger] children@[j];
                        &&& moves@.contains(child.mov)
                        &&& child.board == board.apply_spec(child.mov)
                        &&& child.board.wf()
                        &&& child.estimate == self.heuristic().evaluate_spec(child.board, *color)
                        &&& child.estimate.well_formed()
                    },
            decreases moves@.len() - i,
        {
            let mov = moves[i];
            let next = board.apply_move(&mov);
            let estimate = self.heuristic.evaluate(&next, color);
            let item = Candidate { estimate, mov, board: next };
            let ghost before = children@;
            insert_ranked(&mut children, item, maximizing);
            proof {
                let p = choose|p: int|
                    #[trigger] place_of(before, item, maximizing, p) && children@
                        == before.insert(p, item);
                let q = choose|q: int| place_of(before, item, maximizing, q);
                lemma_place_unique(before, item, maximizing, p, q);
                assert(moves@.take(i + 1).drop_last() =~= moves@.take(i as int));
                assert(moves@.take(i + 1).last() == mov);
                assert(moves_of(children@) =~= moves_of(before).insert(p, mov));
                lemma_insert_multiset(moves_of(before), p, mov);
                assert(moves@.take(i + 1) =~= moves@.take(i as int).push(mov));
                vstd::seq_lib::to_multiset_build(moves@.take(i as int), mov);
                assert forall|j: int| 0 <= j < children@.len() implies {
                    let child = #[trigger] children@[j];
                    &&& moves@.contains(child.mov)
                    &&& child.board == board.apply_spec(child.mov)
                    &&& child.board.wf()
                    &&& child.estimate == self.heuristic().evaluate_spec(child.board, *color)
                    &&& child.estimate.well_formed()
                } by {
                    if j < p {
                        assert(children@[j] == before[j]);
                    } else if j > p {
                        assert(children@[j] == before[j - 1]);
                    } else {
                        assert(moves@[i as int] == mov);
                    }
                }
            }
            i += 1;
        }
        proof {
            assert(moves@.take(moves@.len() as int) =~= moves@);
        }
        children
    }

    /// Searches the node `board`, `depth` plies below the root, for the
    /// side `color`. Returns the value found for the node and, where
    /// moves were followed up, the move that leads to it.
    ///
    /// The clock is asked first, so that no node starts work after time;
    /// what the node returns then is what `search_node` returns for the
    /// clock's answer. A pass that is not run against the clock is never
    /// late.
    pub fn minimax(
        &mut self,
        board: &Board,
        color: &Color,
        maximizing: bool,
        alpha: T,
        beta: T,
        depth: usize,
    ) -> (r: (T, Option<Move>))
        requires
            board.wf(),
            alpha.well_formed(),
            beta.well_formed(),
        ensures
            final(self).same_pass(old(self)),
            final(self).visited() >= old(self).visited(),
            old(self).expired() ==> final(self).expired(),
            !old(self).timed() ==> final(self).expired() == old(self).expired(),
            r.0.well_formed(),
            exists|late: bool|
                (!old(self).timed() ==> !late) && (late ==> final(self).expired())
                    && #[trigger] old(self).node_result(
                    late,
                    *board,
                    *color,
                    maximizing,
                    alpha,
                    beta,
                    depth as int,
                    r,
                ),
            board.winner_spec() matches Some(winner) ==> r == (
                Self::settled_spec(winner, *color),
                None::<Move>,
            ),
            board.winner_spec() is None && depth >= old(self).depth() ==> r == (
                old(self).heuristic().evaluate_spec(*board, *color),
                None::<Move>,
            ),
            r.1 matches Some(m) ==> board.legal_for(Self::mover(*color, maximizing), m),
            r.1 is None && !final(self).expired() ==> {
                ||| board.winner_spec() is Some
                ||| depth >= old(self).depth()
                ||| old(self).width() == 0
                ||| board.side_moves(Self::mover(*color, maximizing)).len() == 0
            },
        decreases old(self).depth() - depth, 2int,
    {
        let late = self.out_of_time();
        let r = self.search_node(late, board, color, maximizing, alpha, beta, depth);
        proof {
            assert(old(self).node_result(
                late,
                *board,
                *color,
                maximizing,
                alpha,
                beta,
                depth as int,
                r,
            ));
        }
        r
    }

    /// Searches a node, given whether the clock had run out when the node
    /// was entered.
    ///
    /// A node that is entered late marks the pass as cut short. A decided
    /// board has the value of its outcome; an open board that is entered
    /// late, or at which the pass ends, has the value that the evaluation
    /// gives it, and no move. Every other node shuffles the moves of the
    /// side that moves and follows their candidates up.
    pub fn search_node(
        &mut self,
        late: bool,
        board: &Board,
        color: &Color,
        maximizing: bool,
        alpha: T,
        beta: T,
        depth: usize,
    ) -> (r: (T, Option<Move>))
        requires
            board.wf(),
            alpha.well_formed(),
            beta.well_formed(),
        ensures
            final(self).same_pass(old(self)),
            final(self).visited() >= old(self).visited(),
            late ==> final(self).expired(),
            old(self).expired() ==> final(self).expired(),
            !late && !old(self).timed() ==> final(self).expired() == old(self).expired(),
            r.0.well_formed(),
            old(self).node_result(late, *board, *color, maximizing, alpha, beta, depth as int, r),
            r.1 matches Some(m) ==> board.legal_for(Self::mover(*color, maximizing), m),
            r.1 is None && !late ==> {
                ||| board.winner_spec() is Some
                ||| depth >= old(self).depth()
                ||| old(self).width() == 0
                ||| board.side_moves(Self::mover(*color, maximizing)).len() == 0
            },
        decreases old(self).depth() - depth, 1int,
    {
        if late {
            self.timed_out = true;
        }
        if let Some(winner) = board.winner() {
            return (Self::settled(&winner, color), None);
        }
        if self.iterations < usize::MAX {
            self.iterations += 1;
        }
        if late || depth >= self.max_depth {
            return (self.heuristic.evaluate(board, color), None);
        }
        let piece_color = if maximizing {
            *color
        } else {
            color.invert()
        };
        let mut moves = board.legal_moves(&piece_color).collect();
        let mut generator = thread_generator();
        shuffle_moves(&mut generator, &mut moves);
        proof {
            moves@.to_multiset_ensures();
            board.side_moves(piece_color).to_multiset_ensures();
            assert(moves@.len() == moves@.to_multiset().len());
            assert(board.side_moves(piece_color).len() == board.side_moves(
                piece_color,
            ).to_multiset().len());
        }
        let ghost entered = *self;
        let r = self.follow_up(&moves, board, color, maximizing, alpha, beta, depth);
        proof {
            let values = choose|values: Seq<T>| #[trigger]
                entered.follows_up(
                    *board,
                    *color,
                    maximizing,
                    alpha,
                    beta,
                    depth as int,
                    moves@,
                    values,
                    r,
                );
            old(self).lemma_same_pass_follows_up(
                &entered,
                *board,
                *color,
                maximizing,
                alpha,
                beta,
                depth as int,
                moves@,
                values,
                r,
            );
            assert(old(self).follows_up(
                *board,
                *color,
                maximizing,
                alpha,
                beta,
                depth as int,
                moves@,
                values,
                r,
            ));
        }
        r
    }

    /// Follows the candidates of a node up, given the order in which the
    /// moves of the side that moves came out of the shuffle.
    ///
    /// The moves are ranked by the value of the boards they lead to. As
    /// many candidates are searched, a ply further down, as the pass is
    /// wide, best first, and each is taken up as `Progress::take_up` says,
    /// until the node is cut off. The result is the best value found and
    /// the move that leads to it.
    pub fn follow_up(
        &mut self,
        shuffled: &Vec<Move>,
        board: &Board,
        color: &Color,
        maximizing: bool,
        alpha: T,
        beta: T,
        depth: usize,
    ) -> (r: (T, Option<Move>))
        requires
            board.wf(),
            alpha.well_formed(),
            beta.well_formed(),
            depth < old(self).depth(),
            shuffled@.to_multiset() == board.side_moves(
                Self::mover(*color, maximizing),
            ).to_multiset(),
        ensures
            final(self).same_pass(old(self)),
            final(self).visited() >= old(self).visited(),
            old(self).expired() ==> final(self).expired(),
            !old(self).timed() ==> final(self).expired() == old(self).expired(),
            r.0.well_formed(),
            exists|values: Seq<T>| #[trigger]
                old(self).follows_up(
                    *board,
                    *color,
                    maximizing,
                    alpha,
                    beta,
                    depth as int,
                    shuffled@,
                    values,
                    r,
                ),
            r.1 matches Some(m) ==> board.legal_for(Self::mover(*color, maximizing), m) && exists|
                k: int,
            |
                0 <= k < old(self).width() && k < shuffled@.len() && (#[trigger] old(
                    self,
                ).ranked_list(*board, *color, shuffled@, maximizing)[k]).mov == m,
            r.1 is None ==> old(self).width() == 0 || shuffled@.len() == 0,
        decreases old(self).depth() - depth, 0int,
    {
        let ghost piece_color = Self::mover(*color, maximizing);
        let ghost generated = board.side_moves(piece_color);
        proof {
            generated.to_multiset_ensures();
            shuffled@.to_multiset_ensures();
            assert forall|k: int| 0 <= k < shuffled@.len() implies (#[trigger] shuffled@[k]).valid()
                && board.legal_for(piece_color, shuffled@[k]) by {
                assert(shuffled@.contains(shuffled@[k]));
                assert(shuffled@.to_multiset().count(shuffled@[k]) > 0);
                assert(generated.to_multiset().count(shuffled@[k]) > 0);
                assert(generated.contains(shuffled@[k]));
                let at = choose|at: int| 0 <= at < generated.len() && generated[at] == shuffled@[k];
                board.lemma_side_moves_sound(piece_color, at);
            }
        }
        let children = self.rank_children(board, color, shuffled, maximizing);
        let ghost start = Self::start_of(maximizing, alpha, beta);
        let mut found = Progress {
            best_score: if maximizing {
                H::min()
            } else {
                H::max()
            },
            best_move: None,
            alpha,
            beta,
            cut: false,
        };
        let ghost mut values: Seq<T> = Seq::empty();
        let mut i: usize = 0;
        while i < children.len() && i < self.max_width && !found.cut
            invariant
                0 <= i <= children@.len(),
                i <= self.max_width,
                self.same_pass(old(self)),
                self.visited() >= old(self).visited(),
                depth < self.depth(),
                old(self).expired() ==> self.expired(),
                !old(self).timed() ==> self.expired() == old(self).expired(),
                board.wf(),
                found.wf(),
                start == Self::start_of(maximizing, alpha, beta),
                values.len() == i,
                found == followed_up(start, maximizing, children@, values, i as int),
                forall|k: int|
                    0 <= k < i ==> (old(self).leaf_value(
                        (#[trigger] children@[k]).board,
                        *color,
                        depth + 1,
                    ) matches Some(v) ==> values[k] == v),
                forall|k: int| 0 <= k < children@.len() ==> (#[trigger] children@[k]).board.wf(),
            decreases children@.len() - i + if found.cut {
                0int
            } else {
                1int
            },
        {
            let child = children[i];
            let (new_score, _) = self.minimax(
                &child.board,
                color,
                !maximizing,
                found.alpha,
                found.beta,
                depth + 1,
            );
            proof {
                let longer = values.push(new_score);
                lemma_followed_up_values(start, maximizing, children@, values, longer, i as int);
                values = longer;
            }
            found = found.take_up(maximizing, new_score, child.mov);
            i += 1;
        }
        proof {
            let candidates = children@;
            let n = old(self).reach(candidates.len() as int);
            let done = values;
            let full = Seq::new(
                n as nat,
                |k: int|
                    if k < i {
                        done[k]
                    } else {
                        match old(self).leaf_value(candidates[k].board, *color, depth + 1) {
                            Some(v) => v,
                            None => candidates[k].estimate,
                        }
                    },
            );
            lemma_followed_up_values(start, maximizing, candidates, done, full, i as int);
            if i < n {
                lemma_followed_up_cut(start, maximizing, candidates, full, i as int, n);
            }
            assert(found == followed_up(start, maximizing, candidates, full, n));
            lemma_followed_up_move(start, maximizing, candidates, full, n);
            assert(old(self).follows_up(
                *board,
                *color,
                maximizing,
                alpha,
                beta,
                depth as int,
                shuffled@,
                full,
                (found.best_score, found.best_move),
            ));
            if n >= 1 {
                let k = choose|k: int|
                    0 <= k < n && found.best_move == Some((#[trigger] candidates[k]).mov);
                assert(shuffled@.contains(candidates[k].mov));
                let at = choose|at: int|
                    0 <= at < shuffled@.len() && shuffled@[at] == candidates[k].mov;
                assert(board.legal_for(piece_color, shuffled@[at]));
            }
        }
        (found.best_score, found.best_move)
    }

    /// The first legal move of `color`, or giving up where it has none.
    fn first_move(board: &Board, color: &Color) -> (m: Move)
        requires
            board.wf(),
        ensures
            board.allows(*color, m),
    {
        let mut moves = board.legal_moves(color);
        match moves.next() {
            Some(m) => {
                assert(board.side_moves(*color)[0] == m);
                m
            },
            None => Move::Concede(*color),
        }
    }
}

impl<H, T> GamePlayer for MinMaxPlayer<H, T> where H: Heuristic<T>, T: Ranked {
    /// Makes the move of the last complete pass. The first pass looks one
    /// ply ahead and is not run against the clock, so that there always is
    /// a complete pass; the others look further ahead, one ply more each
    /// time, until the time for the turn is used up.
    fn decide(&mut self, board: &Board, color: &Color) -> (m: Move) {
        self.started = None;
        self.timed_out = false;
        self.max_depth = 1;
        self.max_width = WIDTH;
        let (_, first) = self.minimax(board, color, true, H::min(), H::max(), 0);
        let mut best = match first {
            Some(found) => found,
            None => Self::first_move(board, color),
        };
        self.started = Some(now());
        let mut depth: usize = FIRST_DEPTH;
        while depth <= DEPTH_LIMIT && !self.timed_out && !self.out_of_time()
            invariant
                board.wf(),
                board.allows(*color, best),
                self.max_width == WIDTH,
                FIRST_DEPTH <= depth <= DEPTH_LIMIT + 1,
            decreases DEPTH_LIMIT + 1 - depth,
        {
            self.max_depth = depth;
            let (_, found) = self.minimax(board, color, true, H::min(), H::max(), 0);
            best = choose_pass(best, self.timed_out, found);
            depth += 1;
        }
        best
    }
}

/// The move to make after one more pass, where `best` is the move of the
/// last complete pass before it: the move that the pass found, if it found
/// one and the clock did not cut it short, and `best` as before otherwise.
/// A pass that was cut short is not trusted.
pub fn choose_pass(best: Move, cut_short: bool, found: Option<Move>) -> (r: Move)
    ensures
        r == if !cut_short && found is Some {
            found->0
        } else {
            best
        },
{
    match found {
        Some(deeper) => if cut_short {
            best
        } else {
            deeper
        },
        None => best,
    }
}

/// Whether a search that has spent `spent` nanoseconds on a turn, of
/// `allowed`, has used its time up: it has once it has spent more. Time
/// spent to the nanosecond is time kept.
pub fn time_is_up(spent: u128, allowed: u128) -> (r: bool)
    ensures
        r == (spent > allowed),
{
    spent > allowed
}

} // verus!
