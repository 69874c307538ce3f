//! Perft: counting the leaves of the tree of legal moves.
use crate::board::{Board, Position};
use crate::move_gen::all_moves_spec;
use crate::moves::Move;
use crate::update::{apply_spec, legal_spec};
use crate::zobrist::Keys;
use vstd::prelude::*;

verus! {

/// The sum of a sequence of counts.
pub open spec fn sum_counts(v: Seq<nat>) -> nat
    decreases v.len(),
{
    if v.len() == 0 {
        0
    } else {
        sum_counts(v.drop_last()) + v.last()
    }
}

/// The perft count of each generated move: that of the position after it, one ply
/// less deep, for a legal move, and 0 for an illegal one.
pub open spec fn move_counts(s: Position, depth: nat, keys: Keys) -> Seq<nat>
    decreases depth, 0nat,
{
    if depth == 0 {
        seq![]
    } else {
        all_moves_spec(s).map_values(
            |m: Move|
                if legal_spec(s, m, keys) {
                    perft_spec(apply_spec(s, m, keys), (depth - 1) as nat, keys)
                } else {
                    0
                },
        )
    }
}

/// Perft: 1 at depth 0; otherwise the sum, over the legal moves in generation order, of
/// the perft of the position after the move at one ply less.
pub open spec fn perft_spec(s: Position, depth: nat, keys: Keys) -> nat
    decreases depth, 1nat,
{
    if depth == 0 {
        1
    } else {
        sum_counts(move_counts(s, depth, keys))
    }
}

/// A count stopped at the largest `u64`.
pub open spec fn capped(n: nat) -> u64 {
    if n <= u64::MAX {
        n as u64
    } else {
        u64::MAX
    }
}

/// What `divide` returns for the first `i` generated moves `ms`: each legal one with the
/// perft of the position after it at `depth - 1`, capped.
pub open spec fn divide_spec(s: Position, ms: Seq<Move>, i: nat, depth: nat, keys: Keys) -> Seq<(Move, u64)>
    decreases i,
{
    if i == 0 || i > ms.len() {
        seq![]
    } else {
        let prev = divide_spec(s, ms, (i - 1) as nat, depth, keys);
        let m = ms[i - 1];
        if legal_spec(s, m, keys) {
            prev.push((m, capped(perft_spec(apply_spec(s, m, keys), (depth - 1) as nat, keys))))
        } else {
            prev
        }
    }
}

proof fn lemma_capped_add(a: nat, b: nat)
    ensures
        capped(a + b) == if capped(a) as nat + capped(b) as nat <= u64::MAX {
            (capped(a) + capped(b)) as u64
        } else {
            u64::MAX
        },
{
}

impl Board {
    /// The number of sequences of `depth` legal moves from this position (the count
    /// stops at the largest `u64`).
    pub fn perft(&self, depth: usize, keys: &Keys) -> (r: u64)
        requires
            self.castling_ability.wf(),
            keys.wf(),
        ensures
            r == capped(perft_spec(self@, depth as nat, *keys)),
        decreases depth,
    {
        if depth == 0 {
            return 1;
        }
        let mut nodes: u64 = 0;
        let move_list = self.generate_moves();
        let ghost counts = move_counts(self@, depth as nat, *keys);
        let mut i: usize = 0;
        while i < move_list.len()
            invariant
                self.castling_ability.wf(),
                keys.wf(),
                depth > 0,
                i <= move_list@.len(),
                move_list@ == all_moves_spec(self@),
                counts == move_counts(self@, depth as nat, *keys),
                counts.len() == move_list@.len(),
                nodes == capped(sum_counts(counts.take(i as int))),
            decreases move_list@.len() - i,
        {
            let ghost v = counts[i as int];
            proof {
                assert(counts.take(i + 1).drop_last() =~= counts.take(i as int));
            }
            match self.copy_with_move(move_list[i], keys) {
                Some(board_copy) => {
                    let c = board_copy.perft(depth - 1, keys);
                    proof {
                        lemma_capped_add(sum_counts(counts.take(i as int)), v);
                    }
                    nodes = nodes.saturating_add(c);
                },
                None => {
                    proof {
                        assert(v == 0);
                    }
                },
            }
            i += 1;
        }
        proof {
            assert(counts.take(counts.len() as int) =~= counts);
        }
        nodes
    }

    /// For each legal move, in the order generated, the perft of the position after it
    /// at `depth - 1`.
    pub fn divide(&self, depth: usize, keys: &Keys) -> (r: Vec<(Move, u64)>)
        requires
            self.castling_ability.wf(),
            keys.wf(),
            depth > 0,
        ensures
            r@ == divide_spec(self@, all_moves_spec(self@), all_moves_spec(self@).len(), depth as nat, *keys),
    {
        let mut nodes: Vec<(Move, u64)> = Vec::new();
        let move_list = self.generate_moves();
        let mut i: usize = 0;
        while i < move_list.len()
            invariant
                self.castling_ability.wf(),
                keys.wf(),
                depth > 0,
                i <= move_list@.len(),
                move_list@ == all_moves_spec(self@),
                nodes@ == divide_spec(self@, move_list@, i as nat, depth as nat, *keys),
            decreases move_list@.len() - i,
        {
            let mv = move_list[i];
            match self.copy_with_move(mv, keys) {
                Some(board_copy) => {
                    nodes.push((mv, board_copy.perft(depth - 1, keys)));
                },
                None => {},
            }
            i += 1;
        }
        nodes
    }
}

} // verus!
