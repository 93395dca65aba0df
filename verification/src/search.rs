//! The minimax value of a position over the successors found so far, and
//! the search that finds the successors of one more position at each step.

use crate::board::BoardPosition;
use crate::movegen::all_successors;
use crate::piece::PieceColor;
use core::ops::Not;
use vstd::prelude::*;

verus! {

/// The value that stands for "no reply": more than any count of material.
pub const NO_REPLY: i32 = 1000000;

impl BoardPosition {
    /// The least of the values that the first `count` successors of the
    /// position have for `color`, and `NO_REPLY` at most.
    pub open spec fn least_reply(self, color: PieceColor, count: nat) -> int
        decreases self, count,
    {
        if count == 0 || count > self.children@.len() {
            NO_REPLY as int
        } else {
            let rest = self.least_reply(color, (count - 1) as nat);
            let value = self.children@[count - 1].minimax(color);
            if value < rest {
                value
            } else {
                rest
            }
        }
    }

    /// How good the position is for `color`, the higher the better. Without
    /// successors, the recorded material, taken from the side of `color`.
    /// Else the other side picks the successor that is worst for `color`:
    /// the opposite of the least value that a successor has for the other
    /// side.
    pub open spec fn minimax(self, color: PieceColor) -> int
        decreases self, self.children@.len() + 1,
    {
        if self.children@.len() == 0 {
            if color == PieceColor::White {
                self.base_white_eval as int
            } else {
                -(self.base_white_eval as int)
            }
        } else {
            -self.least_reply(color.opponent(), self.children@.len())
        }
    }

    /// The values of a well-formed position lie between `-NO_REPLY` and
    /// `NO_REPLY`.
    pub proof fn lemma_minimax_bound(self, color: PieceColor)
        requires
            self.well_formed(),
        ensures
            -NO_REPLY <= self.minimax(color) <= NO_REPLY,
        decreases self, self.children@.len() + 1,
    {
        if self.children@.len() > 0 {
            self.lemma_least_reply_bound(color.opponent(), self.children@.len());
        }
    }

    /// The least value of the successors of a well-formed position lies
    /// between `-NO_REPLY` and `NO_REPLY`.
    pub proof fn lemma_least_reply_bound(self, color: PieceColor, count: nat)
        requires
            self.well_formed(),
        ensures
            -NO_REPLY <= self.least_reply(color, count) <= NO_REPLY,
        decreases self, count,
    {
        if !(count == 0 || count > self.children@.len()) {
            self.lemma_least_reply_bound(color, (count - 1) as nat);
            assert(self.children@[count - 1].well_formed());
            self.children@[count - 1].lemma_minimax_bound(color);
        }
    }

    /// The value of a position for one side is the opposite of its value for
    /// the other side where the position has no successors, and where the
    /// least values that its successors have for the two sides are opposite.
    pub proof fn lemma_minimax_antisymmetric(self, color: PieceColor)
        requires
            self.children@.len() == 0 || self.least_reply(color, self.children@.len())
                == -self.least_reply(color.opponent(), self.children@.len()),
        ensures
            self.minimax(color.opponent()) == -self.minimax(color),
    {
    }

    /// The value of a position for one side is not the opposite of its value
    /// for the other side anywhere else.
    pub proof fn lemma_minimax_asymmetric(self, color: PieceColor)
        requires
            self.children@.len() > 0,
            self.least_reply(color, self.children@.len()) != -self.least_reply(
                color.opponent(),
                self.children@.len(),
            ),
        ensures
            self.minimax(color.opponent()) != -self.minimax(color),
    {
    }

    /// How good the position is for `color_moving`, the higher the better.
    pub fn tree_eval(&self, color_moving: PieceColor) -> (value: i32)
        requires
            self.well_formed(),
        ensures
            value == self.minimax(color_moving),
            -NO_REPLY <= value <= NO_REPLY,
        decreases self,
    {
        if self.children.is_empty() {
            return match color_moving {
                PieceColor::White => self.base_white_eval,
                PieceColor::Black => -self.base_white_eval,
            };
        }
        // The best for the side that moves is the worst for the other side:
        // take the least value for the other side, and turn it round.
        let other: PieceColor = color_moving.not();
        let mut least: i32 = NO_REPLY;
        let mut i: usize = 0;
        while i < self.children.len()
            invariant
                i <= self.children@.len(),
                self.well_formed(),
                other == color_moving.opponent(),
                least == self.least_reply(other, i as nat),
                -NO_REPLY <= least <= NO_REPLY,
            decreases self.children@.len() - i,
        {
            assert(self.children@[i as int].well_formed());
            let value: i32 = self.children[i].tree_eval(other);
            if value < least {
                least = value;
            }
            i += 1;
        }
        -least
    }
}

/// Whether every entry of `progress` from index `level` on is zero.
pub open spec fn zero_from(progress: Seq<usize>, level: int) -> bool {
    forall|i: int| level <= i < progress.len() ==> progress[i] == 0
}

/// The cursor of `count` entries that are all zero.
pub open spec fn zeros(count: nat) -> Seq<usize> {
    Seq::new(count, |i: int| 0usize)
}

/// The cursor after the walk has found no successor left at index `level`:
/// that entry starts again at zero, and the entry before it moves on by one.
pub open spec fn carried(progress: Seq<usize>, level: int) -> Seq<usize> {
    progress.update(level, 0usize).update(level - 1, (progress[level - 1] + 1) as usize)
}

/// The side that moves in the positions that a cursor of `depth` entries
/// leads to: the side that moves first where `depth` is odd.
pub open spec fn turn_at(depth: int, initial_turn: PieceColor) -> PieceColor {
    if depth % 2 == 1 {
        initial_turn
    } else {
        initial_turn.opponent()
    }
}

impl BoardPosition {
    /// Whether the entries of `progress` from index `level` on can be walked
    /// from the position: each is the index of a successor of the position
    /// reached so far, or it is the number of its successors and only zeros
    /// follow.
    pub open spec fn follows(self, progress: Seq<usize>, level: int) -> bool
        decreases progress.len() - level,
    {
        if level < 0 || level >= progress.len() {
            true
        } else if progress[level] < self.children@.len() {
            self.children@[progress[level] as int].follows(progress, level + 1)
        } else {
            progress[level] == self.children@.len() && zero_from(progress, level + 1)
        }
    }

    /// The first index from `level` on at which the walk along `progress`
    /// finds no successor left, if there is one.
    pub open spec fn exhausted_level(self, progress: Seq<usize>, level: int) -> Option<int>
        decreases progress.len() - level,
    {
        if level < 0 || level >= progress.len() {
            None
        } else if progress[level] >= self.children@.len() {
            Some(level)
        } else {
            self.children@[progress[level] as int].exhausted_level(progress, level + 1)
        }
    }

    /// No walk of `levels` entries below the position finds more often than
    /// this that no successor is left.
    pub open spec fn walk_bound(self, levels: nat) -> nat
        decreases levels, self.children@.len() + 1,
    {
        if levels == 0 {
            0
        } else {
            1 + self.walk_bound_from(levels, 0)
        }
    }

    /// The part of `walk_bound` that the successors from index `from` on add.
    pub open spec fn walk_bound_from(self, levels: nat, from: int) -> nat
        decreases levels, self.children@.len() - from,
    {
        if levels == 0 || from < 0 || from >= self.children@.len() {
            0
        } else {
            self.children@[from].walk_bound((levels - 1) as nat) + self.walk_bound_from(
                levels,
                from + 1,
            )
        }
    }

    /// A bound on how often the walk below the position can still find that
    /// no successor is left, when it stands at `progress`. It falls each time
    /// that the walk finds so, which is why a step of the search ends.
    pub open spec fn pending(self, progress: Seq<usize>, level: int) -> nat
        decreases progress.len() - level,
    {
        if level < 0 || level >= progress.len() {
            0
        } else if progress[level] >= self.children@.len() {
            1
        } else {
            self.children@[progress[level] as int].pending(progress, level + 1)
                + self.walk_bound_from((progress.len() - level) as nat, progress[level] + 1) + 1
        }
    }

    /// Fewer successors add less to the bound.
    pub proof fn lemma_walk_bound_from_falls(self, levels: nat, low: int, high: int)
        requires
            0 <= low <= high,
        ensures
            self.walk_bound_from(levels, high) <= self.walk_bound_from(levels, low),
        decreases high - low,
    {
        if low < high {
            self.lemma_walk_bound_from_falls(levels, low + 1, high);
        }
    }

    /// What is pending below a position is within the bound of its walks.
    pub proof fn lemma_pending_bounded(self, progress: Seq<usize>, level: int)
        requires
            0 <= level <= progress.len(),
        ensures
            self.pending(progress, level) <= self.walk_bound((progress.len() - level) as nat),
        decreases progress.len() - level,
    {
        if level < progress.len() && progress[level] < self.children@.len() {
            let p = progress[level] as int;
            let levels = (progress.len() - level) as nat;
            self.children@[p].lemma_pending_bounded(progress, level + 1);
            self.lemma_walk_bound_from_falls(levels, 0, p);
        }
    }

    /// Where the walk finds no successor left, it does so at an index of the
    /// cursor, not before `level`.
    pub proof fn lemma_exhausted_level(self, progress: Seq<usize>, level: int)
        requires
            0 <= level,
        ensures
            self.exhausted_level(progress, level) matches Some(found) ==> level <= found
                < progress.len(),
        decreases progress.len() - level,
    {
        if level < progress.len() && progress[level] < self.children@.len() {
            self.children@[progress[level] as int].lemma_exhausted_level(progress, level + 1);
        }
    }

    /// When the walk carries the cursor forward, less is pending.
    pub proof fn lemma_carried_pending(self, progress: Seq<usize>, level: int, found: int)
        requires
            0 <= level < found,
            self.exhausted_level(progress, level) == Some(found),
        ensures
            self.pending(carried(progress, found), level) < self.pending(progress, level),
        decreases found - level,
    {
        self.lemma_exhausted_level(progress, level);
        let p = progress[level] as int;
        let next = carried(progress, found);
        let levels = (progress.len() - level) as nat;
        assert(self.children.len() == self.children@.len());
        assert(p < self.children@.len());
        let child = self.children@[p];
        child.lemma_exhausted_level(progress, level + 1);
        assert(next.len() == progress.len());
        assert(self.pending(progress, level) == child.pending(progress, level + 1)
            + self.walk_bound_from(levels, p + 1) + 1);
        assert(child.pending(progress, level + 1) >= 1);
        if found == level + 1 {
            assert(next[level] == p + 1);
            if p + 1 < self.children@.len() {
                let sibling = self.children@[p + 1];
                sibling.lemma_pending_bounded(next, level + 1);
                assert(self.walk_bound_from(levels, p + 1) == sibling.walk_bound(
                    (levels - 1) as nat,
                ) + self.walk_bound_from(levels, p + 2));
                assert(self.pending(next, level) == sibling.pending(next, level + 1)
                    + self.walk_bound_from(levels, p + 2) + 1);
            } else {
                assert(self.pending(next, level) == 1);
            }
        } else {
            assert(next[level] == p);
            child.lemma_carried_pending(progress, level + 1, found);
            assert(self.pending(next, level) == child.pending(next, level + 1)
                + self.walk_bound_from(levels, p + 1) + 1);
        }
    }

    /// Where the walk finds at once that no successor is left, the entry is
    /// the number of the successors, and only zeros follow.
    pub proof fn lemma_exhausted_here(self, progress: Seq<usize>, level: int)
        requires
            0 <= level,
            self.follows(progress, level),
            self.exhausted_level(progress, level) == Some(level),
        ensures
            level < progress.len(),
            progress[level] == self.children@.len(),
            zero_from(progress, level + 1),
    {
        if level < progress.len() && progress[level] < self.children@.len() {
            self.children@[progress[level] as int].lemma_exhausted_level(progress, level + 1);
        }
    }

    /// The entry before the index at which the walk finds no successor left
    /// is less than the greatest `usize`.
    pub proof fn lemma_walked_before(self, progress: Seq<usize>, level: int, found: int)
        requires
            0 <= level < found,
            self.exhausted_level(progress, level) == Some(found),
        ensures
            progress[found - 1] < usize::MAX,
        decreases found - level,
    {
        self.lemma_exhausted_level(progress, level);
        assert(self.children.len() == self.children@.len());
        if level < found - 1 {
            let child = self.children@[progress[level] as int];
            child.lemma_exhausted_level(progress, level + 1);
            child.lemma_walked_before(progress, level + 1, found);
        }
    }

    /// A cursor of zeros can be walked from every position.
    pub proof fn lemma_zeros_follow(self, progress: Seq<usize>, level: int)
        requires
            0 <= level,
            zero_from(progress, level),
        ensures
            self.follows(progress, level),
        decreases progress.len() - level,
    {
        if level < progress.len() && progress[level] < self.children@.len() {
            self.children@[progress[level] as int].lemma_zeros_follow(progress, level + 1);
        }
    }

    /// The cursor that the walk has carried forward can be walked again.
    pub proof fn lemma_carried_follows(self, progress: Seq<usize>, level: int, found: int)
        requires
            0 <= level < found,
            self.follows(progress, level),
            self.exhausted_level(progress, level) == Some(found),
        ensures
            self.follows(carried(progress, found), level),
        decreases found - level,
    {
        self.lemma_exhausted_level(progress, level);
        let p = progress[level] as int;
        let next = carried(progress, found);
        assert(self.children.len() == self.children@.len());
        let child = self.children@[p];
        if found == level + 1 {
            assert(next[level] == p + 1);
            assert(child.follows(progress, found));
            assert(child.exhausted_level(progress, found) == Some(found));
            child.lemma_exhausted_here(progress, found);
            assert forall|i: int| level + 1 <= i < next.len() implies next[i] == 0 by {
                if i > found {
                    assert(progress[i] == 0);
                }
            }
            assert(zero_from(next, level + 1));
            if p + 1 < self.children@.len() {
                self.children@[p + 1].lemma_zeros_follow(next, level + 1);
            }
        } else {
            assert(next[level] == p);
            child.lemma_carried_follows(progress, level + 1, found);
        }
    }
}

/// Whether `progress` is a cursor of a search below `root`: its entry at
/// `min_depth` says whether the deepest level is finished, and the entries
/// behind it can be walked from `root`.
pub open spec fn cursor_ok(root: BoardPosition, progress: Seq<usize>, min_depth: int) -> bool {
    &&& 0 <= min_depth < progress.len()
    &&& progress[min_depth] <= 1
    &&& root.follows(progress, min_depth + 1)
}

/// The cursor at which a step of the search comes to rest: `progress` itself
/// where it is longer than `max_depth` or can be walked to its end; else
/// what a cursor of zeros with one entry more comes to, where the deepest
/// level is finished, or what the cursor comes to that the walk carries
/// forward where it finds no successor left.
pub open spec fn settled(root: BoardPosition, progress: Seq<usize>, min_depth: int, max_depth: int) -> Seq<
    usize,
>
    decreases max_depth + 1 - progress.len(), 1 - progress[min_depth], root.pending(
        progress,
        min_depth + 1,
    ),
    when cursor_ok(root, progress, min_depth)
{
    if progress.len() > max_depth {
        progress
    } else if progress[min_depth] == 1 {
        settled(root, zeros(progress.len() + 1), min_depth, max_depth)
    } else {
        match root.exhausted_level(progress, min_depth + 1) {
            Some(level) => {
                proof {
                    root.lemma_exhausted_level(progress, min_depth + 1);
                    if level > min_depth + 1 {
                        root.lemma_carried_pending(progress, min_depth + 1, level);
                    }
                }
                settled(root, carried(progress, level), min_depth, max_depth)
            },
            None => progress,
        }
    }
}

/// The cursor after the position at its end has been visited: its last
/// entry moves on by one.
pub open spec fn moved_on(progress: Seq<usize>) -> Seq<usize> {
    progress.update(progress.len() - 1, (progress[progress.len() - 1] + 1) as usize)
}

impl BoardPosition {
    /// Whether the position is `before` with the successors for `color` found
    /// of the one position that the walk along `progress` from index `level`
    /// on leads to, and with nothing else changed.
    pub open spec fn expanded_from(
        self,
        before: BoardPosition,
        progress: Seq<usize>,
        level: int,
        color: PieceColor,
    ) -> bool
        decreases progress.len() - level,
    {
        if level < 0 || level >= progress.len() {
            self.extends(before, all_successors(before.board, before.en_passante, color))
        } else {
            let p = progress[level] as int;
            &&& p < before.children@.len()
            &&& self.board == before.board
            &&& self.en_passante == before.en_passante
            &&& self.base_white_eval == before.base_white_eval
            &&& self.tree_eval == before.tree_eval
            &&& self.children@.len() == before.children@.len()
            &&& forall|i: int|
                0 <= i < before.children@.len() && i != p ==> #[trigger] self.children@[i]
                    == before.children@[i]
            &&& self.children@[p].expanded_from(before.children@[p], progress, level + 1, color)
        }
    }

    /// Finding the successors of a position below a well-formed position
    /// leaves it well-formed.
    pub proof fn lemma_expanded_well_formed(
        self,
        before: BoardPosition,
        progress: Seq<usize>,
        level: int,
        color: PieceColor,
    )
        requires
            self.expanded_from(before, progress, level, color),
            before.well_formed(),
        ensures
            self.well_formed(),
            self.board == before.board,
            self.base_white_eval == before.base_white_eval,
        decreases progress.len() - level,
    {
        if level < 0 || level >= progress.len() {
            self.lemma_extends_well_formed(
                before,
                all_successors(before.board, before.en_passante, color),
            );
        } else {
            let p = progress[level] as int;
            assert(before.children@[p].well_formed());
            self.children@[p].lemma_expanded_well_formed(
                before.children@[p],
                progress,
                level + 1,
                color,
            );
            assert forall|i: int| 0 <= i < self.children@.len() implies {
                &&& (#[trigger] self.children@[i]).evaluated()
                &&& self.children@[i].well_formed()
            } by {
                if i != p {
                    assert(self.children@[i] == before.children@[i]);
                }
                assert(before.children@[i].evaluated());
            }
        }
    }

    /// Every entry of a cursor that can be walked to its end is less than
    /// the greatest `usize`.
    pub proof fn lemma_walked_entry_fits(self, progress: Seq<usize>, level: int, index: int)
        requires
            0 <= level <= index < progress.len(),
            self.exhausted_level(progress, level) is None,
        ensures
            progress[index] < usize::MAX,
        decreases progress.len() - level,
    {
        assert(self.children.len() == self.children@.len());
        if level < index {
            self.children@[progress[level] as int].lemma_walked_entry_fits(
                progress,
                level + 1,
                index,
            );
        }
    }

    /// After the successors of the position at the end of the walk have been
    /// found, the cursor that has moved on can be walked.
    pub proof fn lemma_expanded_follows(
        self,
        before: BoardPosition,
        progress: Seq<usize>,
        level: int,
        color: PieceColor,
    )
        requires
            0 <= level,
            progress.len() >= 1,
            self.expanded_from(before, progress, level, color),
            before.exhausted_level(progress, level) is None,
        ensures
            self.follows(moved_on(progress), level),
        decreases progress.len() - level,
    {
        if level < progress.len() {
            let p = progress[level] as int;
            let next = moved_on(progress);
            assert(before.children.len() == before.children@.len());
            assert(p < before.children@.len());
            assert(self.children@.len() == before.children@.len());
            assert(next.len() == progress.len());
            if level < progress.len() - 1 {
                assert(next[level] == p);
                assert(before.children@[p].exhausted_level(progress, level + 1) is None);
                self.children@[p].lemma_expanded_follows(
                    before.children@[p],
                    progress,
                    level + 1,
                    color,
                );
                assert(self.children@[p].follows(next, level + 1));
            } else {
                assert(next[level] == p + 1);
                if p + 1 < self.children@.len() {
                    assert(self.children@[p + 1].follows(next, level + 1));
                } else {
                    assert(zero_from(next, level + 1));
                }
            }
        }
    }

    /// The first index from `start` on at which the walk along `progress`
    /// finds no successor left.
    fn find_exhausted(&self, progress: &Vec<usize>, start: usize) -> (level: Option<usize>)
        requires
            start <= progress@.len(),
            self.follows(progress@, start as int),
        ensures
            match level {
                Some(found) => self.exhausted_level(progress@, start as int) == Some(found as int),
                None => self.exhausted_level(progress@, start as int) is None,
            },
    {
        let mut current: &BoardPosition = self;
        let mut i: usize = start;
        while i < progress.len()
            invariant
                start <= i <= progress@.len(),
                current.follows(progress@, i as int),
                self.exhausted_level(progress@, start as int) == current.exhausted_level(
                    progress@,
                    i as int,
                ),
            decreases progress@.len() - i,
        {
            let p: usize = progress[i];
            if current.children.len() == p {
                return Some(i);
            }
            current = &current.children[p];
            i += 1;
        }
        None
    }

    /// Finds the successors for `color` of the position that the walk along
    /// `progress` from index `level` on leads to.
    fn expand_along(&mut self, progress: &Vec<usize>, level: usize, color: PieceColor)
        requires
            old(self).exhausted_level(progress@, level as int) is None,
        ensures
            final(self).expanded_from(*old(self), progress@, level as int, color),
        decreases progress@.len() - level,
    {
        if level >= progress.len() {
            self.eval_moves(color);
        } else {
            let p: usize = progress[level];
            self.children[p].expand_along(progress, level + 1, color);
        }
    }
}

/// Starts the cursor again at zeros, one entry longer.
fn restart_deeper(progress: &mut Vec<usize>)
    ensures
        final(progress)@ == zeros(old(progress)@.len() + 1),
{
    let mut i: usize = 0;
    while i < progress.len()
        invariant
            i <= progress@.len(),
            progress@.len() == old(progress)@.len(),
            forall|k: int| 0 <= k < i ==> progress@[k] == 0,
        decreases progress@.len() - i,
    {
        progress[i] = 0;
        i += 1;
    }
    progress.push(0);
    assert(progress@ =~= zeros(old(progress)@.len() + 1));
}

/// One step of the search below `root`. The cursor `progress` first comes to
/// rest: where it is longer than `max_depth`, nothing is to be done, and the
/// result is `true`. Else the successors of the position at the end of the
/// cursor are found, for the side that moves there, the cursor moves on, and
/// the result is `false`.
pub fn expand_tree(
    root: &mut BoardPosition,
    progress: &mut Vec<usize>,
    min_depth: usize,
    max_depth: usize,
    initial_turn: PieceColor,
) -> (idle: bool)
    requires
        cursor_ok(*old(root), old(progress)@, min_depth as int),
    ensures
        ({
            let rest = settled(*old(root), old(progress)@, min_depth as int, max_depth as int);
            if rest.len() > max_depth {
                &&& idle
                &&& final(progress)@ == rest
                &&& *final(root) == *old(root)
            } else {
                &&& !idle
                &&& final(progress)@ == moved_on(rest)
                &&& final(root).expanded_from(
                    *old(root),
                    rest,
                    min_depth + 1,
                    turn_at(rest.len() as int, initial_turn),
                )
            }
        }),
        cursor_ok(*final(root), final(progress)@, min_depth as int),
        old(root).well_formed() ==> final(root).well_formed(),
{
    let ghost rest = settled(*old(root), old(progress)@, min_depth as int, max_depth as int);
    loop
        invariant
            *root == *old(root),
            cursor_ok(*old(root), old(progress)@, min_depth as int),
            rest == settled(*old(root), old(progress)@, min_depth as int, max_depth as int),
            cursor_ok(*root, progress@, min_depth as int),
            settled(*root, progress@, min_depth as int, max_depth as int) == rest,
        ensures
            *root == *old(root),
            cursor_ok(*root, progress@, min_depth as int),
            progress@ == rest,
            progress@.len() <= max_depth,
            progress@[min_depth as int] == 0,
            root.exhausted_level(progress@, min_depth + 1) is None,
        decreases
            max_depth + 1 - progress@.len(),
            1 - progress@[min_depth as int],
            root.pending(progress@, min_depth + 1),
    {
        if progress.len() > max_depth {
            // The search has gone as deep as it may.
            return true;
        }
        if progress[min_depth] == 1 {
            proof {
                root.lemma_zeros_follow(zeros(progress@.len() + 1), min_depth + 1);
            }
            restart_deeper(progress);
            continue ;
        }
        match root.find_exhausted(progress, min_depth + 1) {
            Some(level) => {
                let ghost stuck = progress@;
                proof {
                    root.lemma_exhausted_level(stuck, min_depth + 1);
                    if level > min_depth + 1 {
                        root.lemma_carried_pending(stuck, min_depth + 1, level as int);
                        root.lemma_carried_follows(stuck, min_depth + 1, level as int);
                        root.lemma_walked_before(stuck, min_depth + 1, level as int);
                    } else {
                        root.lemma_exhausted_here(stuck, level as int);
                        assert forall|i: int| min_depth + 1 <= i < stuck.len() implies carried(
                            stuck,
                            level as int,
                        )[i] == 0 by {
                            if i > level {
                                assert(stuck[i] == 0);
                            }
                        }
                        root.lemma_zeros_follow(carried(stuck, level as int), min_depth + 1);
                    }
                }
                progress[level] = 0;
                let previous: usize = progress[level - 1];
                progress[level - 1] = previous + 1;
                assert(progress@ =~= carried(stuck, level as int));
            },
            None => {
                break ;
            },
        }
    }
    let depth: usize = progress.len();
    let color: PieceColor = if depth % 2 == 1 {
        initial_turn
    } else {
        initial_turn.not()
    };
    proof {
        if depth - 1 > min_depth {
            root.lemma_walked_entry_fits(progress@, min_depth + 1, depth - 1);
        }
    }
    root.expand_along(progress, min_depth + 1, color);
    let last: usize = progress[depth - 1];
    progress[depth - 1] = last + 1;
    proof {
        assert(progress@ =~= moved_on(rest));
        root.lemma_expanded_follows(*old(root), rest, min_depth + 1, color);
        if old(root).well_formed() {
            root.lemma_expanded_well_formed(*old(root), rest, min_depth + 1, color);
        }
    }
    false
}

} // verus!
