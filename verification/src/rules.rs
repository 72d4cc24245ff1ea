//! The rules of movement stated on their own, and the proof that the
//! generated moves are exactly the moves that the rules give.
//!
//! A piece reaches a step on one of its eight rays if the step is no
//! further away than the piece is tall and every step before it lies on an
//! empty square of the board. A step that is reached offers a move: the
//! relocation to its square if that is empty, the capture of the piece on
//! its square if that is an enemy, the scoring move if it lies in the
//! piece's own score band. These, and no others, are the moves of a piece.

use crate::board::{slot_color, Board, Move};
use crate::geometry::{Color, Position, PositionOffset};
use vstd::prelude::*;

verus! {

impl Board {
    /// Whether the step `k` on the ray `dir` of the piece in slot `idx`
    /// lies on an empty square of the board.
    pub open spec fn empty_at(&self, idx: int, dir: int, k: int) -> bool {
        self.probe(idx, dir, k) matches PositionOffset::Valid(pos) && self.piece_at(pos) is None
    }

    /// Whether every step before `dist` lies on an empty square.
    pub open spec fn clear_before(&self, idx: int, dir: int, dist: int) -> bool {
        forall|k: int| 1 <= k < dist ==> #[trigger] self.empty_at(idx, dir, k)
    }

    /// Whether the piece in slot `idx` reaches the step `dist` on the ray
    /// `dir`.
    pub open spec fn in_reach(&self, idx: int, dir: int, dist: int) -> bool {
        &&& 0 <= dir < 8
        &&& 1 <= dist <= self.pieces[idx].height.value()
        &&& self.clear_before(idx, dir, dist)
    }

    /// Whether the step offers the move `m` to the piece.
    pub open spec fn step_offers(&self, idx: int, dir: int, dist: int, m: Move) -> bool {
        let piece = self.pieces[idx];
        match self.probe(idx, dir, dist) {
            PositionOffset::Invalid => false,
            PositionOffset::ScoreZone(color) => color == piece.color && m == Move::Score(
                idx as usize,
            ),
            PositionOffset::Valid(pos) => match self.piece_at(pos) {
                Some(j) => self.pieces[j as int].color != piece.color && m == Move::Boom(j),
                None => m == Move::Zoom(idx as usize, pos),
            },
        }
    }

    /// Whether the rules give the piece in slot `idx` the move `m`: some
    /// step that it reaches offers it.
    pub open spec fn by_rule(&self, idx: int, m: Move) -> bool {
        exists|dir: int, dist: int|
            self.in_reach(idx, dir, dist) && #[trigger] self.step_offers(idx, dir, dist, m)
    }

    /// Whether the rules give the side `color` the move `m`: they give it
    /// to the piece in one of its slots.
    pub open spec fn side_by_rule(&self, color: Color, m: Move) -> bool {
        exists|idx: int| 0 <= idx < 8 && slot_color(idx) == color && #[trigger] self.by_rule(idx, m)
    }

    /// Whether no two live pieces stand on one square.
    pub open spec fn uncrowded(&self) -> bool {
        forall|i: int, j: int|
            0 <= i < j < 8 && (#[trigger] self.pieces[i]).alive() && (#[trigger] self.pieces[j]).alive()
                ==> self.pieces[i].position != self.pieces[j].position
    }

    /// On the initial board no two pieces stand on one square.
    pub proof fn lemma_initial_uncrowded()
        ensures
            Board::initial().uncrowded(),
    {
        let board = Board::initial();
        assert forall|i: int, j: int|
            0 <= i < j < 8 && (#[trigger] board.pieces[i]).alive() && (#[trigger] board.pieces[j]).alive()
            implies board.pieces[i].position != board.pieces[j].position by {
            Position::lemma_at(2, 0);
            Position::lemma_at(3, 0);
            Position::lemma_at(4, 0);
            Position::lemma_at(5, 0);
            Position::lemma_at(2, 7);
            Position::lemma_at(3, 7);
            Position::lemma_at(4, 7);
            Position::lemma_at(5, 7);
        }
    }

    /// An answer that a side may give never brings two live pieces onto
    /// one square.
    pub proof fn lemma_legal_keeps_uncrowded(&self, color: Color, m: Move)
        requires
            self.placed(),
            self.uncrowded(),
            self.allows(color, m),
        ensures
            self.apply_spec(m).uncrowded(),
    {
        let next = self.apply_spec(m);
        if m is Concede {
            assert(next.pieces == self.pieces);
        } else {
            let moves = self.side_moves(color);
            let k = choose|k: int| 0 <= k < moves.len() && moves[k] == m;
            self.lemma_side_moves_sound(color, k);
            let idx = choose|idx: int|
                0 <= idx < 8 && self.pieces[idx].color == color && self.pieces[idx].alive()
                    && #[trigger] self.sound_for(idx, m);
            assert forall|i: int, j: int|
                0 <= i < j < 8 && (#[trigger] next.pieces[i]).alive() && (#[trigger] next.pieces[j]).alive()
                implies next.pieces[i].position != next.pieces[j].position by {
                assert(self.pieces[i].alive() && self.pieces[j].alive());
                if let Move::Zoom(slot, pos) = m {
                    assert(!self.occupies(i, pos) && !self.occupies(j, pos));
                }
            }
        }
    }

    /// What a ray yields from a step on is given by the rules, if the ray
    /// is clear up to that step.
    proof fn lemma_ray_follows(&self, idx: int, dir: int, start: int, scored: bool, k: int)
        requires
            0 <= idx < 8,
            0 <= dir < 8,
            1 <= start,
            self.clear_before(idx, dir, start),
            0 <= k < self.ray_from(idx, dir, start, scored).len(),
        ensures
            self.by_rule(idx, self.ray_from(idx, dir, start, scored)[k]),
        decreases 4 - start,
    {
        let m = self.ray_from(idx, dir, start, scored)[k];
        if self.empty_at(idx, dir, start) && k > 0 {
            assert forall|j: int| 1 <= j < start + 1 implies #[trigger] self.empty_at(
                idx,
                dir,
                j,
            ) by {}
            self.lemma_ray_follows(idx, dir, start + 1, scored, k - 1);
        } else {
            assert(self.in_reach(idx, dir, start));
            assert(self.step_offers(idx, dir, start, m));
        }
    }

    /// What the rays from `dir` on yield is given by the rules.
    proof fn lemma_rays_follow(&self, idx: int, dir: int, scored: bool, k: int)
        requires
            0 <= idx < 8,
            0 <= dir,
            0 <= k < self.rays_from(idx, dir, scored).len(),
        ensures
            self.by_rule(idx, self.rays_from(idx, dir, scored)[k]),
        decreases 8 - dir,
    {
        let ray = self.ray_from(idx, dir, 1, scored);
        if k < ray.len() {
            self.lemma_ray_follows(idx, dir, 1, scored, k);
        } else {
            self.lemma_rays_follow(
                idx,
                dir + 1,
                scored || self.ray_scores(idx, dir, 1),
                k - ray.len(),
            );
        }
    }

    /// A move that a reached step offers is among what its ray yields from
    /// any earlier step on; the scoring move, if it has not been offered
    /// before.
    proof fn lemma_ray_yields(
        &self,
        idx: int,
        dir: int,
        start: int,
        dist: int,
        scored: bool,
        m: Move,
    )
        requires
            0 <= idx < 8,
            self.in_reach(idx, dir, dist),
            1 <= start <= dist,
            self.step_offers(idx, dir, dist, m),
            m is Score ==> !scored,
        ensures
            self.ray_from(idx, dir, start, scored).contains(m),
        decreases dist - start,
    {
        let ray = self.ray_from(idx, dir, start, scored);
        if start == dist {
            assert(ray[0] == m);
        } else {
            assert(self.empty_at(idx, dir, start));
            self.lemma_ray_yields(idx, dir, start + 1, dist, scored, m);
            let rest = self.ray_from(idx, dir, start + 1, scored);
            let at = choose|at: int| 0 <= at < rest.len() && rest[at] == m;
            assert(ray[at + 1] == m);
        }
    }

    /// A ray on which a step in the piece's own score band is reached runs
    /// into that band.
    proof fn lemma_ray_runs_into_band(&self, idx: int, dir: int, start: int, dist: int)
        requires
            self.in_reach(idx, dir, dist),
            1 <= start <= dist,
            self.probe(idx, dir, dist) == PositionOffset::ScoreZone(self.pieces[idx].color),
        ensures
            self.ray_scores(idx, dir, start),
        decreases dist - start,
    {
        if start < dist {
            assert(self.empty_at(idx, dir, start));
            self.lemma_ray_runs_into_band(idx, dir, start + 1, dist);
        }
    }

    /// A ray that runs into the piece's own score band yields the scoring
    /// move, if that has not been offered before.
    proof fn lemma_scoring_ray(&self, idx: int, dir: int, start: int)
        requires
            0 <= idx < 8,
            1 <= start,
            self.ray_scores(idx, dir, start),
        ensures
            self.ray_from(idx, dir, start, false).contains(Move::Score(idx as usize)),
        decreases 4 - start,
    {
        let ray = self.ray_from(idx, dir, start, false);
        match self.probe(idx, dir, start) {
            PositionOffset::Valid(pos) => {
                self.lemma_scoring_ray(idx, dir, start + 1);
                let rest = self.ray_from(idx, dir, start + 1, false);
                let at = choose|at: int| 0 <= at < rest.len() && rest[at] == Move::Score(idx as usize);
                assert(ray[at + 1] == rest[at]);
            },
            _ => {
                assert(ray[0] == Move::Score(idx as usize));
            },
        }
    }

    /// A relocation or a capture that a reached step offers is among what
    /// the rays yield from any earlier ray on.
    proof fn lemma_rays_yield(
        &self,
        idx: int,
        from: int,
        dir: int,
        dist: int,
        scored: bool,
        m: Move,
    )
        requires
            0 <= idx < 8,
            0 <= from <= dir,
            self.in_reach(idx, dir, dist),
            self.step_offers(idx, dir, dist, m),
            !(m is Score),
        ensures
            self.rays_from(idx, from, scored).contains(m),
        decreases dir - from,
    {
        let rays = self.rays_from(idx, from, scored);
        let head = self.ray_from(idx, from, 1, scored);
        if from == dir {
            self.lemma_ray_yields(idx, dir, 1, dist, scored, m);
            let at = choose|at: int| 0 <= at < head.len() && head[at] == m;
            assert(rays[at] == m);
        } else {
            let next = scored || self.ray_scores(idx, from, 1);
            self.lemma_rays_yield(idx, from + 1, dir, dist, next, m);
            let rest = self.rays_from(idx, from + 1, next);
            let at = choose|at: int| 0 <= at < rest.len() && rest[at] == m;
            assert(rays[head.len() + at] == m);
        }
    }

    /// If a step in the piece's own score band is reached on some ray, the
    /// scoring move is among what the rays yield from any earlier ray on,
    /// as long as it has not been offered before.
    proof fn lemma_rays_yield_score(&self, idx: int, from: int, dir: int, dist: int)
        requires
            0 <= idx < 8,
            0 <= from <= dir,
            self.in_reach(idx, dir, dist),
            self.probe(idx, dir, dist) == PositionOffset::ScoreZone(self.pieces[idx].color),
        ensures
            self.rays_from(idx, from, false).contains(Move::Score(idx as usize)),
        decreases dir - from,
    {
        let m = Move::Score(idx as usize);
        let rays = self.rays_from(idx, from, false);
        let head = self.ray_from(idx, from, 1, false);
        if self.ray_scores(idx, from, 1) {
            self.lemma_scoring_ray(idx, from, 1);
            let at = choose|at: int| 0 <= at < head.len() && head[at] == m;
            assert(rays[at] == m);
        } else {
            if from == dir {
                self.lemma_ray_runs_into_band(idx, dir, 1, dist);
            }
            self.lemma_rays_yield_score(idx, from + 1, dir, dist);
            let rest = self.rays_from(idx, from + 1, false);
            let at = choose|at: int| 0 <= at < rest.len() && rest[at] == m;
            assert(rays[head.len() + at] == m);
        }
    }

    /// The moves generated for a piece are exactly the moves that the
    /// rules give it.
    pub proof fn lemma_piece_moves_by_rule(&self, idx: int, m: Move)
        requires
            0 <= idx < 8,
        ensures
            self.piece_moves(idx).contains(m) <==> self.by_rule(idx, m),
    {
        let moves = self.piece_moves(idx);
        if moves.contains(m) {
            let k = choose|k: int| 0 <= k < moves.len() && moves[k] == m;
            self.lemma_rays_follow(idx, 0, false, k);
        }
        if self.by_rule(idx, m) {
            let (dir, dist) = choose|dir: int, dist: int|
                self.in_reach(idx, dir, dist) && #[trigger] self.step_offers(idx, dir, dist, m);
            if m is Score {
                self.lemma_rays_yield_score(idx, 0, dir, dist);
            } else {
                self.lemma_rays_yield(idx, 0, dir, dist, false, m);
            }
        }
    }

    /// A move is among those generated for a run of slots exactly if it
    /// is among those generated for one of the slots.
    proof fn lemma_run_contains(&self, first: int, last: int, m: Move)
        ensures
            self.pieces_moves(first, last).contains(m) <==> exists|idx: int|
                first <= idx <= last && #[trigger] self.piece_moves(idx).contains(m),
        decreases last - first + 1,
    {
        let run = self.pieces_moves(first, last);
        if first <= last {
            let head = self.piece_moves(first);
            let rest = self.pieces_moves(first + 1, last);
            self.lemma_run_contains(first + 1, last, m);
            if run.contains(m) {
                let k = choose|k: int| 0 <= k < run.len() && run[k] == m;
                if k < head.len() {
                    assert(head[k] == m);
                    assert(self.piece_moves(first).contains(m));
                } else {
                    assert(rest[k - head.len()] == m);
                    assert(rest.contains(m));
                }
            }
            if exists|idx: int| first <= idx <= last && #[trigger] self.piece_moves(idx).contains(m) {
                let idx = choose|idx: int|
                    first <= idx <= last && #[trigger] self.piece_moves(idx).contains(m);
                let k = choose|k: int|
                    0 <= k < self.piece_moves(idx).len() && self.piece_moves(idx)[k] == m;
                self.lemma_piece_moves_in_run(first, last, idx, k);
            }
        }
    }

    /// The legal moves of a side are exactly the moves that the rules give
    /// to its pieces.
    pub proof fn lemma_legal_by_rule(&self, color: Color, m: Move)
        ensures
            self.legal_for(color, m) <==> self.side_by_rule(color, m),
    {
        let (first, last) = match color {
            Color::White => (0int, 3int),
            Color::Black => (4int, 7int),
        };
        self.lemma_run_contains(first, last, m);
        if self.legal_for(color, m) {
            let idx = choose|idx: int|
                first <= idx <= last && #[trigger] self.piece_moves(idx).contains(m);
            self.lemma_piece_moves_by_rule(idx, m);
            assert(self.by_rule(idx, m));
        }
        if self.side_by_rule(color, m) {
            let idx = choose|idx: int|
                0 <= idx < 8 && slot_color(idx) == color && #[trigger] self.by_rule(idx, m);
            self.lemma_piece_moves_by_rule(idx, m);
            assert(self.piece_moves(idx).contains(m));
        }
    }
}

} // verus!
