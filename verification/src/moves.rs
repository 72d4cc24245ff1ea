//! Generation of the legal moves of a piece or of a side.
//!
//! A piece looks along eight rays, in a fixed order, as far as it is tall.
//! An empty square on a ray is a square to go to; the first live piece on a
//! ray ends it, and is captured if it is an enemy; the edge of the board
//! ends it; the piece's own score band ends it and offers, once per piece,
//! the move that scores.

use crate::board::{Board, Move, Piece};
use crate::geometry::{Color, Position, PositionOffset};
use vstd::prelude::*;

verus! {

/// The eight directions in the order in which a piece looks along them.
pub open spec fn direction(dir: int) -> (int, int) {
    if dir == 0 {
        (-1, 0)
    } else if dir == 1 {
        (-1, -1)
    } else if dir == 2 {
        (0, -1)
    } else if dir == 3 {
        (1, -1)
    } else if dir == 4 {
        (1, 0)
    } else if dir == 5 {
        (1, 1)
    } else if dir == 6 {
        (0, 1)
    } else {
        (-1, 1)
    }
}

/// How often `m` occurs in `s`.
pub open spec fn occurrences(s: Seq<Move>, m: Move) -> nat
    decreases s.len(),
{
    if s.len() == 0 {
        0
    } else {
        occurrences(s.drop_last(), m) + if s.last() == m {
            1nat
        } else {
            0nat
        }
    }
}

impl Board {
    /// What the piece in slot `idx` finds `dist` steps away in direction
    /// `dir`.
    pub open spec fn probe(&self, idx: int, dir: int, dist: int) -> PositionOffset {
        let d = direction(dir);
        self.pieces[idx].position.offset_spec(d.0 * dist, d.1 * dist)
    }

    /// The moves that the piece in slot `idx` finds on the ray `dir` from
    /// the step `dist` on, given whether the piece has been offered its
    /// scoring move already.
    pub open spec fn ray_from(&self, idx: int, dir: int, dist: int, scored: bool) -> Seq<Move>
        decreases 4 - dist,
    {
        let piece = self.pieces[idx];
        if dist < 1 || dist > piece.height.value() {
            Seq::empty()
        } else {
            match self.probe(idx, dir, dist) {
                PositionOffset::Invalid => Seq::empty(),
                PositionOffset::ScoreZone(color) => if color == piece.color && !scored {
                    seq![Move::Score(idx as usize)]
                } else {
                    Seq::empty()
                },
                PositionOffset::Valid(pos) => match self.piece_at(pos) {
                    Some(j) => if self.pieces[j as int].color != piece.color {
                        seq![Move::Boom(j)]
                    } else {
                        Seq::empty()
                    },
                    None => seq![Move::Zoom(idx as usize, pos)] + self.ray_from(
                        idx,
                        dir,
                        dist + 1,
                        scored,
                    ),
                },
            }
        }
    }

    /// Whether the ray `dir` of the piece in slot `idx`, followed from the
    /// step `dist` on, runs over empty squares into the piece's own score
    /// band.
    pub open spec fn ray_scores(&self, idx: int, dir: int, dist: int) -> bool
        decreases 4 - dist,
    {
        let piece = self.pieces[idx];
        if dist < 1 || dist > piece.height.value() {
            false
        } else {
            match self.probe(idx, dir, dist) {
                PositionOffset::Invalid => false,
                PositionOffset::ScoreZone(color) => color == piece.color,
                PositionOffset::Valid(pos) => self.piece_at(pos) is None && self.ray_scores(
                    idx,
                    dir,
                    dist + 1,
                ),
            }
        }
    }

    /// The moves of the piece in slot `idx` on the rays from `dir` on.
    pub open spec fn rays_from(&self, idx: int, dir: int, scored: bool) -> Seq<Move>
        decreases 8 - dir,
    {
        if dir < 0 || dir >= 8 {
            Seq::empty()
        } else {
            self.ray_from(idx, dir, 1, scored) + self.rays_from(
                idx,
                dir + 1,
                scored || self.ray_scores(idx, dir, 1),
            )
        }
    }

    /// The legal moves of the piece in slot `idx`, in the order in which
    /// they are generated: ray by ray, and along each ray outwards.
    pub open spec fn piece_moves(&self, idx: int) -> Seq<Move> {
        self.rays_from(idx, 0, false)
    }

    /// The legal moves of the pieces in the slots `first` to `last`, slot
    /// by slot.
    pub open spec fn pieces_moves(&self, first: int, last: int) -> Seq<Move>
        decreases last - first + 1,
    {
        if first > last {
            Seq::empty()
        } else {
            self.piece_moves(first) + self.pieces_moves(first + 1, last)
        }
    }

    /// The legal moves of a side: those of its four pieces, slot by slot.
    pub open spec fn side_moves(&self, color: Color) -> Seq<Move> {
        match color {
            Color::White => self.pieces_moves(0, 3),
            Color::Black => self.pieces_moves(4, 7),
        }
    }

    /// What has to hold of a move that the piece in slot `idx` is offered:
    /// a relocation is its own and goes to a square of the board on which
    /// no live piece stands; a capture names a live piece of the other
    /// color; a scoring move is its own; and it never gives up.
    pub open spec fn sound_for(&self, idx: int, m: Move) -> bool {
        match m {
            Move::Zoom(i, pos) => i == idx && pos.wf() && forall|j: int|
                0 <= j < 8 ==> !self.occupies(j, pos),
            Move::Boom(j) => j < 8 && self.pieces[j as int].alive() && self.pieces[j as int].color
                != self.pieces[idx].color,
            Move::Score(i) => i == idx,
            Move::Concede(_) => false,
        }
    }

    /// `piece_at` finds the lowest slot that occupies the square, and
    /// finds none only where no slot does.
    pub proof fn lemma_piece_at(&self, pos: Position, from: int)
        requires
            0 <= from <= 8,
        ensures
            match self.first_occupant(pos, from) {
                Some(i) => from <= i < 8 && self.occupies(i as int, pos) && forall|j: int|
                    from <= j < i ==> !self.occupies(j, pos),
                None => forall|j: int| from <= j < 8 ==> !self.occupies(j, pos),
            },
        decreases 8 - from,
    {
        if from < 8 && !self.occupies(from, pos) {
            self.lemma_piece_at(pos, from + 1);
        }
    }
}

/// Occurrences add up over concatenation.
pub proof fn lemma_occurrences_add(a: Seq<Move>, b: Seq<Move>, m: Move)
    ensures
        occurrences(a + b, m) == occurrences(a, m) + occurrences(b, m),
    decreases b.len(),
{
    if b.len() == 0 {
        assert(a + b =~= a);
    } else {
        assert((a + b).drop_last() =~= a + b.drop_last());
        lemma_occurrences_add(a, b.drop_last(), m);
    }
}

/// A move that a sequence does not hold occurs in it zero times.
pub proof fn lemma_occurrences_absent(s: Seq<Move>, m: Move)
    requires
        forall|k: int| 0 <= k < s.len() ==> s[k] != m,
    ensures
        occurrences(s, m) == 0,
    decreases s.len(),
{
    if s.len() > 0 {
        lemma_occurrences_absent(s.drop_last(), m);
    }
}

/// In a sequence of one move, that move occurs once and no other at all.
pub proof fn lemma_occurrences_single(x: Move, m: Move)
    ensures
        occurrences(seq![x], m) == if x == m {
            1nat
        } else {
            0nat
        },
{
    assert(seq![x].drop_last() =~= Seq::<Move>::empty());
    assert(occurrences(Seq::<Move>::empty(), m) == 0);
}

impl Board {
    /// Whether the side `color` may make the move `m` on this board: the
    /// move is among those generated for it.
    pub open spec fn legal_for(&self, color: Color, m: Move) -> bool {
        self.side_moves(color).contains(m)
    }

    /// Whether `m` is an answer that the side `color` may give on this
    /// board: one of its legal moves, or, where it has none, giving up.
    pub open spec fn allows(&self, color: Color, m: Move) -> bool {
        if self.side_moves(color).len() == 0 {
            m == Move::Concede(color)
        } else {
            self.legal_for(color, m)
        }
    }

    /// An answer that a side may give is a structurally valid move.
    pub proof fn lemma_allows_valid(&self, color: Color, m: Move)
        requires
            self.placed(),
            self.allows(color, m),
        ensures
            m.valid(),
    {
        if self.side_moves(color).len() > 0 {
            let k = choose|k: int|
                0 <= k < self.side_moves(color).len() && self.side_moves(color)[k] == m;
            self.lemma_side_moves_sound(color, k);
        }
    }

    /// Every move found on a ray is sound for the piece that looks along
    /// it, and only a live piece finds any.
    pub proof fn lemma_ray_sound(&self, idx: int, dir: int, dist: int, scored: bool, k: int)
        requires
            self.placed(),
            0 <= idx < 8,
            1 <= dist,
            0 <= k < self.ray_from(idx, dir, dist, scored).len(),
        ensures
            self.pieces[idx].alive(),
            self.sound_for(idx, self.ray_from(idx, dir, dist, scored)[k]),
        decreases 4 - dist,
    {
        let piece = self.pieces[idx];
        match self.probe(idx, dir, dist) {
            PositionOffset::Valid(pos) => {
                self.lemma_piece_at(pos, 0);
                let d = direction(dir);
                Position::lemma_at(piece.position@.0 + d.0 * dist, piece.position@.1 + d.1 * dist);
                if self.piece_at(pos) is None && k > 0 {
                    self.lemma_ray_sound(idx, dir, dist + 1, scored, k - 1);
                }
            },
            _ => {},
        }
    }

    /// Every move found on the rays from `dir` on is sound for the piece.
    pub proof fn lemma_rays_sound(&self, idx: int, dir: int, scored: bool, k: int)
        requires
            self.placed(),
            0 <= idx < 8,
            0 <= k < self.rays_from(idx, dir, scored).len(),
        ensures
            self.pieces[idx].alive(),
            self.sound_for(idx, self.rays_from(idx, dir, scored)[k]),
        decreases 8 - dir,
    {
        let ray = self.ray_from(idx, dir, 1, scored);
        if k < ray.len() {
            self.lemma_ray_sound(idx, dir, 1, scored, k);
        } else {
            self.lemma_rays_sound(
                idx,
                dir + 1,
                scored || self.ray_scores(idx, dir, 1),
                k - ray.len(),
            );
        }
    }

    /// Every move generated for a piece is sound for it: a relocation goes
    /// to a square of the board on which no live piece stands, and a
    /// capture names a live piece of the other color. A dead piece is
    /// offered nothing.
    pub proof fn lemma_piece_moves_sound(&self, idx: int, k: int)
        requires
            self.placed(),
            0 <= idx < 8,
            0 <= k < self.piece_moves(idx).len(),
        ensures
            self.pieces[idx].alive(),
            self.sound_for(idx, self.piece_moves(idx)[k]),
            self.piece_moves(idx)[k].valid(),
    {
        self.lemma_rays_sound(idx, 0, false, k);
    }

    /// Every move generated for a run of slots is sound for a live piece
    /// in one of them.
    pub proof fn lemma_pieces_moves_sound(&self, first: int, last: int, k: int)
        requires
            self.placed(),
            0 <= first,
            last < 8,
            0 <= k < self.pieces_moves(first, last).len(),
        ensures
            self.pieces_moves(first, last)[k].valid(),
            exists|idx: int|
                first <= idx <= last && self.pieces[idx].alive() && #[trigger] self.sound_for(
                    idx,
                    self.pieces_moves(first, last)[k],
                ),
        decreases last - first + 1,
    {
        let head = self.piece_moves(first);
        if k < head.len() {
            self.lemma_piece_moves_sound(first, k);
            assert(self.sound_for(first, self.pieces_moves(first, last)[k]));
        } else {
            self.lemma_pieces_moves_sound(first + 1, last, k - head.len());
        }
    }

    /// Every move generated for a side is structurally valid and sound for
    /// a live piece of that side.
    pub proof fn lemma_side_moves_sound(&self, color: Color, k: int)
        requires
            self.placed(),
            0 <= k < self.side_moves(color).len(),
        ensures
            self.side_moves(color)[k].valid(),
            exists|idx: int|
                0 <= idx < 8 && self.pieces[idx].color == color && self.pieces[idx].alive()
                    && #[trigger] self.sound_for(idx, self.side_moves(color)[k]),
    {
        match color {
            Color::White => {
                self.lemma_pieces_moves_sound(0, 3, k);
            },
            Color::Black => {
                self.lemma_pieces_moves_sound(4, 7, k);
            },
        }
    }

    /// The moves of a slot are among the moves of every run of slots that
    /// it lies in.
    pub proof fn lemma_piece_moves_in_run(&self, first: int, last: int, idx: int, k: int)
        requires
            first <= idx <= last,
            0 <= k < self.piece_moves(idx).len(),
        ensures
            self.pieces_moves(first, last).contains(self.piece_moves(idx)[k]),
        decreases last - first,
    {
        let run = self.pieces_moves(first, last);
        let head = self.piece_moves(first);
        if idx == first {
            assert(run[k] == head[k]);
        } else {
            self.lemma_piece_moves_in_run(first + 1, last, idx, k);
            let rest = self.pieces_moves(first + 1, last);
            let at = choose|at: int| 0 <= at < rest.len() && rest[at] == self.piece_moves(idx)[k];
            assert(run[head.len() + at] == rest[at]);
        }
    }

    /// The moves of a piece are legal moves of its side.
    pub proof fn lemma_piece_moves_legal(&self, idx: int, k: int)
        requires
            self.placed(),
            0 <= idx < 8,
            0 <= k < self.piece_moves(idx).len(),
        ensures
            self.legal_for(self.pieces[idx].color, self.piece_moves(idx)[k]),
    {
        if idx < 4 {
            self.lemma_piece_moves_in_run(0, 3, idx, k);
        } else {
            self.lemma_piece_moves_in_run(4, 7, idx, k);
        }
    }

    /// A ray offers the scoring move once if it reaches the piece's own
    /// band and the move has not been offered before, and else not at all.
    pub proof fn lemma_ray_score_count(&self, idx: int, dir: int, dist: int, scored: bool)
        requires
            0 <= idx < 8,
            1 <= dist,
        ensures
            occurrences(self.ray_from(idx, dir, dist, scored), Move::Score(idx as usize)) == if !scored
                && self.ray_scores(idx, dir, dist) {
                1nat
            } else {
                0nat
            },
        decreases 4 - dist,
    {
        let m = Move::Score(idx as usize);
        let piece = self.pieces[idx];
        if dist > piece.height.value() {
        } else {
            match self.probe(idx, dir, dist) {
                PositionOffset::Invalid => {},
                PositionOffset::ScoreZone(color) => {
                    lemma_occurrences_single(m, m);
                },
                PositionOffset::Valid(pos) => match self.piece_at(pos) {
                    Some(j) => {
                        lemma_occurrences_single(Move::Boom(j), m);
                    },
                    None => {
                        let zoom = Move::Zoom(idx as usize, pos);
                        lemma_occurrences_single(zoom, m);
                        self.lemma_ray_score_count(idx, dir, dist + 1, scored);
                        lemma_occurrences_add(
                            seq![zoom],
                            self.ray_from(idx, dir, dist + 1, scored),
                            m,
                        );
                    },
                },
            }
        }
    }

    /// The rays from `dir` on offer the scoring move at most once, and not
    /// at all once it has been offered.
    pub proof fn lemma_rays_score_count(&self, idx: int, dir: int, scored: bool)
        requires
            0 <= idx < 8,
        ensures
            occurrences(self.rays_from(idx, dir, scored), Move::Score(idx as usize)) <= if scored {
                0nat
            } else {
                1nat
            },
        decreases 8 - dir,
    {
        if 0 <= dir < 8 {
            let m = Move::Score(idx as usize);
            let next = scored || self.ray_scores(idx, dir, 1);
            self.lemma_ray_score_count(idx, dir, 1, scored);
            self.lemma_rays_score_count(idx, dir + 1, next);
            lemma_occurrences_add(
                self.ray_from(idx, dir, 1, scored),
                self.rays_from(idx, dir + 1, next),
                m,
            );
        }
    }

    /// A piece is offered its scoring move at most once, from however many
    /// sides it could reach its band.
    pub proof fn lemma_piece_scores_once(&self, idx: int)
        requires
            0 <= idx < 8,
        ensures
            occurrences(self.piece_moves(idx), Move::Score(idx as usize)) <= 1,
    {
        self.lemma_rays_score_count(idx, 0, false);
    }

    /// Among the moves of a run of slots, the scoring move of slot `i`
    /// occurs at most once, and only if `i` is one of them.
    pub proof fn lemma_pieces_score_count(&self, first: int, last: int, i: usize)
        requires
            self.placed(),
            0 <= first,
            last < 8,
        ensures
            occurrences(self.pieces_moves(first, last), Move::Score(i)) <= if first <= i <= last {
                1nat
            } else {
                0nat
            },
        decreases last - first + 1,
    {
        if first <= last {
            let m = Move::Score(i);
            let head = self.piece_moves(first);
            self.lemma_pieces_score_count(first + 1, last, i);
            lemma_occurrences_add(head, self.pieces_moves(first + 1, last), m);
            if i == first {
                self.lemma_piece_scores_once(first);
            } else {
                assert forall|k: int| 0 <= k < head.len() implies head[k] != m by {
                    self.lemma_piece_moves_sound(first, k);
                }
                lemma_occurrences_absent(head, m);
            }
        }
    }

    /// Among the moves of a side, no scoring move occurs twice.
    pub proof fn lemma_side_scores_once(&self, color: Color, i: usize)
        requires
            self.placed(),
        ensures
            occurrences(self.side_moves(color), Move::Score(i)) <= 1,
    {
        match color {
            Color::White => {
                self.lemma_pieces_score_count(0, 3, i);
            },
            Color::Black => {
                self.lemma_pieces_score_count(4, 7, i);
            },
        }
    }
}

/// The step `(dx, dy)` of direction `dir`.
fn direction_of(dir: usize) -> (r: (i8, i8))
    requires
        dir < 8,
    ensures
        (r.0 as int, r.1 as int) == direction(dir as int),
{
    if dir == 0 {
        (-1, 0)
    } else if dir == 1 {
        (-1, -1)
    } else if dir == 2 {
        (0, -1)
    } else if dir == 3 {
        (1, -1)
    } else if dir == 4 {
        (1, 0)
    } else if dir == 5 {
        (1, 1)
    } else if dir == 6 {
        (0, 1)
    } else {
        (-1, 1)
    }
}

/// A unit step stretched to `dist` steps.
fn stretch(d: i8, dist: i8) -> (r: i8)
    requires
        -1 <= d <= 1,
        0 <= dist <= 3,
    ensures
        r == d * dist,
{
    proof {
        assert(d == 0 ==> d * dist == 0) by (nonlinear_arith);
        assert(d == 1 ==> d * dist == dist) by (nonlinear_arith);
        assert(d == -1 ==> d * dist == -dist) by (nonlinear_arith);
    }
    if d == 0 {
        0
    } else if d == 1 {
        dist
    } else {
        -dist
    }
}

/// A walk over the legal moves of one piece or of one side. It stands on
/// the next candidate step: a slot, a ray of that slot's piece and a
/// distance along the ray.
pub struct LegalMoveIterator<'a> {
    board: &'a Board,
    piece_index: usize,
    max_piece_index: usize,
    dir_index: usize,
    distance: i8,
    has_scored: bool,
}

impl<'a> LegalMoveIterator<'a> {
    /// The board that the moves are generated for.
    pub closed spec fn board(&self) -> Board {
        *self.board
    }

    /// What holds of the walk between two steps but for the distance: the
    /// slot and the ray exist, and the pieces of the board are in place.
    pub closed spec fn between_steps(&self) -> bool {
        &&& self.board.placed()
        &&& self.piece_index <= 8
        &&& self.max_piece_index < 8
        &&& self.dir_index < 8
    }

    /// The walk stands on a candidate step: the distance is at least one
    /// and within the reach of the piece, unless the slots have run out.
    pub closed spec fn wf(&self) -> bool {
        &&& self.between_steps()
        &&& self.piece_index < 8 ==> 1 <= self.distance
            <= self.board.pieces[self.piece_index as int].height.value()
    }

    /// How far the walk has come, counted in rays.
    pub closed spec fn progress(&self) -> int {
        self.piece_index * 8 + self.dir_index
    }

    /// The moves that are left once the current ray is followed from the
    /// step `dist` on.
    pub closed spec fn rest_from(&self, dist: int) -> Seq<Move> {
        let idx = self.piece_index as int;
        let dir = self.dir_index as int;
        if self.piece_index > self.max_piece_index {
            Seq::empty()
        } else {
            self.board.ray_from(idx, dir, dist, self.has_scored) + self.board.rays_from(
                idx,
                dir + 1,
                self.has_scored || self.board.ray_scores(idx, dir, dist),
            ) + self.board.pieces_moves(idx + 1, self.max_piece_index as int)
        }
    }

    /// The moves that are left once the current ray is given up.
    pub closed spec fn rest_after_ray(&self) -> Seq<Move> {
        let idx = self.piece_index as int;
        let dir = self.dir_index as int;
        if self.piece_index > self.max_piece_index {
            Seq::empty()
        } else {
            self.board.rays_from(idx, dir + 1, self.has_scored) + self.board.pieces_moves(
                idx + 1,
                self.max_piece_index as int,
            )
        }
    }

    /// The moves that the walk has yet to hand out, in order.
    pub closed spec fn remaining(&self) -> Seq<Move> {
        self.rest_from(self.distance as int)
    }

    /// The walk over the legal moves of the piece in slot `piece_index`.
    pub fn for_piece(board: &'a Board, piece_index: usize) -> (it: LegalMoveIterator<'a>)
        requires
            board.placed(),
            piece_index < 8,
        ensures
            it.wf(),
            it.board() == *board,
            it.remaining() == board.piece_moves(piece_index as int),
    {
        let mut iter = LegalMoveIterator {
            board,
            piece_index,
            max_piece_index: piece_index,
            dir_index: 0,
            distance: 0,
            has_scored: false,
        };
        proof {
            assert(board.pieces_moves(piece_index + 1, piece_index as int) =~= Seq::empty());
            assert(iter.rest_from(1) =~= board.piece_moves(piece_index as int));
        }
        iter.advance();
        iter
    }

    /// The walk over the legal moves of a side.
    pub fn for_color(board: &'a Board, color: &Color) -> (it: LegalMoveIterator<'a>)
        requires
            board.placed(),
        ensures
            it.wf(),
            it.board() == *board,
            it.remaining() == board.side_moves(*color),
    {
        let mut iter = match color {
            Color::White => LegalMoveIterator {
                board,
                piece_index: 0,
                max_piece_index: 3,
                dir_index: 0,
                distance: 0,
                has_scored: false,
            },
            Color::Black => LegalMoveIterator {
                board,
                piece_index: 4,
                max_piece_index: 7,
                dir_index: 0,
                distance: 0,
                has_scored: false,
            },
        };
        proof {
            assert(iter.rest_from(1) =~= board.side_moves(*color));
        }
        iter.advance();
        iter
    }

    /// Steps one square further along the current ray, or on to the next
    /// ray where the piece reaches no further.
    fn advance(&mut self)
        requires
            old(self).between_steps(),
            old(self).piece_index < 8 ==> 0 <= old(self).distance
                <= old(self).board.pieces[old(self).piece_index as int].height.value(),
        ensures
            final(self).wf(),
            final(self).board() == old(self).board(),
            final(self).max_piece_index == old(self).max_piece_index,
            final(self).remaining() == old(self).rest_from(old(self).distance + 1),
            final(self).progress() >= old(self).progress(),
        decreases 72 - old(self).progress(), 1int,
    {
        if self.piece_index < 8 {
            let piece = &self.board.pieces[self.piece_index];
            if self.distance == piece.height.points() as i8 {
                proof {
                    assert(self.rest_from(self.distance + 1) =~= self.rest_after_ray());
                }
                self.end_of_the_line();
            } else {
                self.distance += 1;
            }
        }
    }

    /// Gives the current ray up and goes to the first step of the next one,
    /// which is the first ray of the next slot where this was the last.
    fn end_of_the_line(&mut self)
        requires
            old(self).between_steps(),
            old(self).piece_index < 8,
        ensures
            final(self).wf(),
            final(self).board() == old(self).board(),
            final(self).max_piece_index == old(self).max_piece_index,
            final(self).remaining() == old(self).rest_after_ray(),
            final(self).progress() > old(self).progress(),
        decreases 72 - old(self).progress(), 0int,
    {
        self.distance = 0;
        self.dir_index += 1;
        if self.dir_index >= 8 {
            self.dir_index = 0;
            self.piece_index += 1;
            self.has_scored = false;
        }
        proof {
            let idx = old(self).piece_index as int;
            let max = self.max_piece_index as int;
            if old(self).dir_index == 7 {
                assert(self.board.rays_from(idx, 8, old(self).has_scored) =~= Seq::empty());
                if idx + 1 <= max {
                    assert(self.rest_from(1) =~= self.board.pieces_moves(idx + 1, max));
                }
            }
            assert(self.rest_from(1) =~= old(self).rest_after_ray());
        }
        self.advance();
    }

    /// The walk as it is once the piece has been offered its scoring move.
    pub closed spec fn scored(&self) -> Self {
        LegalMoveIterator { has_scored: true, ..*self }
    }

    /// What the candidate step yields: the move it offers, if any; whether
    /// the ray goes on behind it; and whether it lies in the piece's own
    /// score band.
    pub closed spec fn offer(&self) -> (Option<Move>, bool, bool) {
        let idx = self.piece_index as int;
        let piece = self.board.pieces[idx];
        match self.board.probe(idx, self.dir_index as int, self.distance as int) {
            PositionOffset::Invalid => (None, false, false),
            PositionOffset::ScoreZone(color) => if color == piece.color {
                (
                    if self.has_scored {
                        None
                    } else {
                        Some(Move::Score(self.piece_index))
                    },
                    false,
                    true,
                )
            } else {
                (None, false, false)
            },
            PositionOffset::Valid(pos) => match self.board.piece_at(pos) {
                Some(j) => (
                    if self.board.pieces[j as int].color != piece.color {
                        Some(Move::Boom(j))
                    } else {
                        None
                    },
                    false,
                    false,
                ),
                None => (Some(Move::Zoom(self.piece_index, pos)), true, false),
            },
        }
    }

    /// The moves that are left are what the candidate step offers, followed
    /// by what is left behind it.
    proof fn lemma_step(&self)
        requires
            self.wf(),
            self.piece_index <= self.max_piece_index,
        ensures
            self.remaining() == match self.offer().0 {
                Some(m) => seq![m],
                None => Seq::empty(),
            } + if self.offer().1 {
                self.rest_from(self.distance + 1)
            } else if self.offer().2 {
                self.scored().rest_after_ray()
            } else {
                self.rest_after_ray()
            },
    {
        let head = match self.offer().0 {
            Some(m) => seq![m],
            None => Seq::empty(),
        };
        let tail = if self.offer().1 {
            self.rest_from(self.distance + 1)
        } else if self.offer().2 {
            self.scored().rest_after_ray()
        } else {
            self.rest_after_ray()
        };
        assert(self.remaining() =~= head + tail);
    }

    /// Looks at the candidate step and moves on. Returns the move that the
    /// step offers, if it offers one.
    fn try_next(&mut self) -> (r: Option<Move>)
        requires
            old(self).wf(),
            old(self).piece_index <= old(self).max_piece_index,
        ensures
            final(self).wf(),
            final(self).board() == old(self).board(),
            final(self).max_piece_index == old(self).max_piece_index,
            match r {
                Some(m) => old(self).remaining() == seq![m] + final(self).remaining(),
                None => old(self).remaining() == final(self).remaining() && final(self).progress()
                    > old(self).progress(),
            },
    {
        proof {
            self.lemma_step();
        }
        let piece_index = self.piece_index;
        let piece = self.board.pieces[piece_index];
        let (dx, dy) = direction_of(self.dir_index);
        let position = piece.position.offset(
            stretch(dx, self.distance),
            stretch(dy, self.distance),
        );
        match position {
            PositionOffset::Valid(pos) => {
                if let Some(piece_at_pos_index) = self.board.get_piece_at(&pos) {
                    let enemy = self.board.pieces[piece_at_pos_index].color != piece.color;
                    self.end_of_the_line();
                    if enemy {
                        Some(Move::Boom(piece_at_pos_index))
                    } else {
                        None
                    }
                } else {
                    self.advance();
                    Some(Move::Zoom(piece_index, pos))
                }
            },
            PositionOffset::ScoreZone(color) => {
                if color == piece.color {
                    // Scoring is offered once, however many rays reach the band.
                    let first_time = !self.has_scored;
                    self.has_scored = true;
                    self.end_of_the_line();
                    if first_time {
                        Some(Move::Score(piece_index))
                    } else {
                        None
                    }
                } else {
                    self.end_of_the_line();
                    None
                }
            },
            PositionOffset::Invalid => {
                self.end_of_the_line();
                None
            },
        }
    }

    /// Hands out the next legal move, or `None` when none is left.
    pub fn next(&mut self) -> (r: Option<Move>)
        requires
            old(self).wf(),
        ensures
            final(self).wf(),
            final(self).board() == old(self).board(),
            match r {
                Some(m) => old(self).remaining() == seq![m] + final(self).remaining(),
                None => old(self).remaining() == Seq::<Move>::empty() && final(self).remaining()
                    == Seq::<Move>::empty(),
            },
    {
        loop
            invariant
                self.wf(),
                self.board() == old(self).board(),
                self.max_piece_index == old(self).max_piece_index,
                self.remaining() == old(self).remaining(),
            decreases 72 - self.progress(),
        {
            if self.piece_index > self.max_piece_index {
                return None;
            }
            let found = self.try_next();
            if found.is_some() {
                return found;
            }
        }
    }

    /// Hands out all the moves that are left, in order.
    pub fn collect(self) -> (moves: Vec<Move>)
        requires
            self.wf(),
        ensures
            moves@ == self.remaining(),
    {
        let mut iter = self;
        let mut moves: Vec<Move> = Vec::new();
        loop
            invariant
                iter.wf(),
                moves@ + iter.remaining() == self.remaining(),
            decreases iter.remaining().len(),
        {
            match iter.next() {
                Some(m) => {
                    moves.push(m);
                },
                None => {
                    return moves;
                },
            }
        }
    }
}

impl Board {
    /// Whether `mov` is an answer that the side `color` may give on this
    /// board: one of its legal moves, or, where it has none, giving up.
    pub fn is_allowed(&self, color: &Color, mov: &Move) -> (r: bool)
        requires
            self.placed(),
        ensures
            r == self.allows(*color, *mov),
    {
        let moves = self.legal_moves(color).collect();
        if moves.len() == 0 {
            return *mov == Move::Concede(*color);
        }
        let mut i: usize = 0;
        while i < moves.len()
            invariant
                0 <= i <= moves@.len(),
                moves@ == self.side_moves(*color),
                forall|k: int| 0 <= k < i ==> moves@[k] != *mov,
            decreases moves@.len() - i,
        {
            if moves[i] == *mov {
                return true;
            }
            i += 1;
        }
        false
    }

    /// The walk over the legal moves of the side `color`.
    pub fn legal_moves<'a>(&'a self, color: &Color) -> (it: LegalMoveIterator<'a>)
        requires
            self.placed(),
        ensures
            it.wf(),
            it.board() == *self,
            it.remaining() == self.side_moves(*color),
    {
        LegalMoveIterator::for_color(self, color)
    }

    /// The walk over the legal moves of the live piece that stands where
    /// `piece` stands.
    pub fn legal_moves_for<'a>(&'a self, piece: &Piece) -> (it: LegalMoveIterator<'a>)
        requires
            self.placed(),
            piece.position.wf(),
            self.piece_at(piece.position) is Some,
        ensures
            it.wf(),
            it.board() == *self,
            it.remaining() == self.piece_moves(self.piece_at(piece.position)->0 as int),
    {
        let piece_index = self.get_piece_at(&piece.position).unwrap();
        LegalMoveIterator::for_piece(self, piece_index)
    }
}

} // verus!
