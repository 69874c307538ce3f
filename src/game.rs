//! The game: a position and the search settings, and the records the engine sends out.
use crate::board::{Board, Position};
use crate::notation::pure_move_spec;
use crate::update::apply_spec;
use crate::eval::Score;
use crate::fen::FenError;
use crate::moves::Move;
use crate::zobrist::Keys;
use std::sync::atomic::{AtomicBool, Ordering};
use std::sync::Arc;
use vstd::prelude::*;

verus! {

/// Settings of a search: an optional depth limit.
#[derive(Debug, Clone, Copy, PartialEq, Eq, Structural)]
pub struct SearchParams {
    pub depth: Option<usize>,
}

/// What the engine sends out.
#[derive(Debug)]
pub enum Event {
    /// The move to play and the move to ponder on, if any.
    BestMove(Option<Move>, Option<Move>),
    /// Search progress.
    Info(Vec<InfoData>),
}

/// One item of a progress record.
#[derive(Debug)]
pub enum InfoData {
    /// Search depth in plies.
    Depth(usize),
    /// Score in centipawns, from the engine's point of view.
    Score(Score),
    /// Mate in so many moves; negative when the engine is getting mated.
    ScoreMate(i32),
    /// Nodes searched.
    Nodes(usize),
    /// The principal variation.
    Pv(Vec<Move>),
    String(String),
}

/// A game: the current position, the debug setting, the Zobrist keys and the flag that
/// asks a running search to stop.
pub struct Game {
    pub board: Board,
    pub debug: bool,
    pub keys: Keys,
    pub stop_flag: Arc<AtomicBool>,
}

/// Playing the moves named by `texts` in turn from position `p`, up to the first that
/// names no move: the position reached, and how many were played.
pub open spec fn played(p: Position, texts: Seq<Seq<char>>, keys: Keys) -> (Position, nat)
    decreases texts.len(),
{
    if texts.len() == 0 {
        (p, 0)
    } else {
        match pure_move_spec(p, texts[0]) {
            None => (p, 0),
            Some(m) => {
                let (q, k) = played(apply_spec(p, m, keys), texts.drop_first(), keys);
                (q, k + 1)
            },
        }
    }
}

impl Game {
    pub open spec fn wf(&self) -> bool {
        self.keys.wf() && self.board.castling_ability.wf()
    }

    /// A game at the starting position.
    pub fn new() -> (r: Game)
        ensures
            r.wf(),
            r.debug == false,
    {
        let keys = Keys::new();
        let board = Board::initial_board(&keys);
        Game { board, debug: false, keys, stop_flag: Arc::new(AtomicBool::new(false)) }
    }

    /// Back to the starting position.
    pub fn new_game(&mut self)
        requires
            old(self).wf(),
        ensures
            final(self).wf(),
            final(self).board.wf(),
            final(self).board@.key_agrees(final(self).keys),
            final(self).board.is_start_position(),
    {
        self.board = Board::initial_board(&self.keys);
    }

    /// Back to the starting position.
    pub fn set_to_startpos(&mut self)
        requires
            old(self).wf(),
        ensures
            final(self).wf(),
            final(self).board.wf(),
            final(self).board@.key_agrees(final(self).keys),
            final(self).board.is_start_position(),
    {
        self.board = Board::initial_board(&self.keys);
    }

    /// Sets the position from a FEN string; a malformed one leaves the game as it was.
    pub fn set_to_fen(&mut self, fen: &str) -> (r: Result<(), FenError>)
        requires
            old(self).wf(),
        ensures
            final(self).wf(),
            final(self).keys == old(self).keys,
            r is Err ==> final(self).board == old(self).board,
            r is Ok ==> final(self).board.wf() && final(self).board@.key_agrees(final(self).keys),
            r is Ok <==> crate::fen::parse_spec(fen@) is Ok,
            r is Ok ==> crate::notation::board_of_fields(final(self).board, crate::fen::parse_spec(fen@).unwrap()),
    {
        match Board::from_fen(fen, &self.keys) {
            Ok(b) => {
                self.board = b;
                Ok(())
            },
            Err(e) => Err(e),
        }
    }

    pub fn get_board(&self) -> (r: Board)
        ensures
            r == self.board,
    {
        self.board
    }

    /// A drawing of the board and its FEN.
    pub fn display_board(&self) -> (r: String)
        ensures
            r@ == crate::notation::board_drawing(self.board@),
    {
        self.board.write()
    }

    /// Plays moves given in coordinate notation, one after the other. It stops at the
    /// first that does not name a move on the board, and returns how many were played.
    pub fn apply_moves(&mut self, moves: &[String]) -> (r: usize)
        requires
            old(self).wf(),
        ensures
            final(self).wf(),
            final(self).keys == old(self).keys,
            ({
                let (p, k) = played(old(self).board@, moves@.map_values(|x: String| x@), old(self).keys);
                r == k && final(self).board@ == p
            }),
    {
        let ghost texts = moves@.map_values(|x: String| x@);
        let ghost total = played(self.board@, texts, self.keys);
        proof {
            assert(texts.subrange(0, texts.len() as int) =~= texts);
        }
        let mut i: usize = 0;
        while i < moves.len()
            invariant
                self.wf(),
                self.keys == old(self).keys,
                i <= moves@.len(),
                texts == moves@.map_values(|x: String| x@),
                total == played(old(self).board@, texts, old(self).keys),
                ({
                    let (q, k) = played(self.board@, texts.subrange(i as int, texts.len() as int), self.keys);
                    total == (q, (k + i) as nat)
                }),
            decreases moves@.len() - i,
        {
            let ghost rest = texts.subrange(i as int, texts.len() as int);
            proof {
                assert(rest[0] == moves@[i as int]@);
                assert(rest.drop_first() =~= texts.subrange(i + 1, texts.len() as int));
            }
            match self.board.new_move_from_pure(moves[i].as_str()) {
                Some(mv) => {
                    self.board.update_by_move(mv, &self.keys);
                },
                None => {
                    return i;
                },
            }
            i += 1;
        }
        proof {
            assert(texts.subrange(i as int, texts.len() as int) =~= Seq::<Seq<char>>::empty());
        }
        i
    }

    /// Asks a running search to stop.
    pub fn stop_search(&mut self) {
        self.stop_flag.store(true, Ordering::Relaxed);
    }

    pub fn set_debug(&mut self, val: bool)
        ensures
            final(self).debug == val,
            final(self).board == old(self).board,
    {
        self.debug = val;
    }
}

} // verus!
