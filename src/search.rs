//! Alpha-beta negamax search with iterative deepening.
use crate::attacks::in_check_spec;
use crate::update::{apply_spec, legal_spec};
use crate::move_gen::is_pseudo_legal;
use crate::move_gen::all_moves_spec;
use crate::board::{Board, Position};
use crate::eval::{eval, eval_spec, Score, MAX_SCORE, MIN_SCORE};
use crate::game::{Event, InfoData, SearchParams};
use crate::moves::Move;
use crate::zobrist::Keys;
use std::sync::atomic::{AtomicBool, Ordering};
use std::sync::mpsc::Sender;
use vstd::prelude::*;

verus! {

#[verifier::external_type_specification]
#[verifier::external_body]
#[verifier::reject_recursive_types(T)]
pub struct ExSender<T>(Sender<T>);

/// Relies on std::sync::mpsc::Sender::send, which hands the event to the receiving end
/// (or drops it when that end is gone).
#[verifier::external_body]
fn send_event(sender: &Sender<Event>, event: Event) {
    let _ = sender.send(event);
}

/// The score of being mated at the root; each ply closer to the root is worth one more.
pub const MATE_SCORE: Score = 40000;

/// How a search ended.
#[derive(Debug, PartialEq, Eq, Structural)]
pub enum Result {
    /// The move to play, with its score.
    BestMove(Move, Score),
    CheckMate,
    StaleMate,
}

/// Halving, rounding toward zero.
pub open spec fn half_toward_zero(x: int) -> int {
    if x >= 0 {
        x / 2
    } else {
        -((-x) / 2)
    }
}

/// For a score that announces a mate by the side to move, in how many moves:
/// the half of `MATE_SCORE - score` rounded up.
pub open spec fn mate_in_spec(score: int) -> Option<int> {
    if score >= MATE_SCORE - 1000 {
        Some(half_toward_zero(MATE_SCORE - score + 1))
    } else {
        None
    }
}

/// For a score that announces a mate against the side to move, in how many moves
/// (0: already mated).
pub open spec fn mated_in_spec(score: int) -> Option<int> {
    if score <= -MATE_SCORE + 1000 {
        Some(half_toward_zero(MATE_SCORE + score))
    } else {
        None
    }
}

/// Mate in so many moves, if the score announces one for the side to move.
pub fn mate_in(score: Score) -> (r: Option<i32>)
    ensures
        r matches Some(d) ==> mate_in_spec(score as int) == Some(d as int),
        r is None ==> mate_in_spec(score as int) is None,
{
    if score >= MATE_SCORE - 1000 {
        Some((MATE_SCORE - score + 1) / 2)
    } else {
        None
    }
}

/// Mated in so many moves, if the score announces it against the side to move.
pub fn mated_in(score: Score) -> (r: Option<i32>)
    ensures
        r matches Some(d) ==> mated_in_spec(score as int) == Some(d as int),
        r is None ==> mated_in_spec(score as int) is None,
{
    if score <= -MATE_SCORE + 1000 {
        let s = MATE_SCORE as i64 + score as i64;
        Some((s / 2) as i32)
    } else {
        None
    }
}

/// The bound on the size of every score a search returns.
pub const SCORE_BOUND: Score = 10_000_000;

/// Adds one to a node count, stopping at the largest `usize`.
pub open spec fn count_one(n: nat) -> nat {
    if n < usize::MAX {
        n + 1
    } else {
        n
    }
}

/// The state of the move loop of an alpha-beta node.
pub struct AbState {
    pub alpha: int,
    pub best: int,
    /// Whether a legal move was searched.
    pub legal: bool,
    /// The principal line, if alpha was raised (otherwise the caller's line stands).
    pub line: Option<Seq<Move>>,
    pub nodes: nat,
    /// Whether a beta cutoff ended the loop.
    pub cut: bool,
}

/// The result of an alpha-beta search: its score, its principal line if alpha was
/// raised, and the node count after it.
pub struct AbResult {
    pub score: int,
    pub line: Option<Seq<Move>>,
    pub nodes: nat,
}

/// What a node is worth without searching: at depth 0, or once the stop flag has been
/// seen set, the evaluation; otherwise nothing, and the node's moves are searched.
pub fn leaf_score(board: &Board, depth: usize, stop: bool) -> (r: Option<Score>)
    ensures
        (depth == 0 || stop) ==> r == Some(eval_spec(board@) as i32),
        (depth == 0 || stop) ==> -SCORE_BOUND <= eval_spec(board@) <= SCORE_BOUND,
        !(depth == 0 || stop) ==> r is None,
{
    if depth == 0 || stop {
        proof {
            crate::laws::lemma_eval_bounded(board@);
        }
        Some(eval(board))
    } else {
        None
    }
}

/// One move of the loop of an alpha-beta node: a legal move not cut off is searched with
/// the window negated and `mate` one less; a better score becomes the best, and when it
/// also beats alpha it raises alpha and makes the line the move followed by the child's
/// line; a score of at least beta ends the loop.
pub open spec fn ab_step(s: Position, st: AbState, m: Move, depth: nat, beta: int, mate: int, keys: Keys) -> AbState
    decreases depth, 0nat, 0nat,
{
    if st.cut || !legal_spec(s, m, keys) || depth == 0 {
        st
    } else {
        let child = ab_spec(
            apply_spec(s, m, keys),
            (depth - 1) as nat,
            -beta,
            -st.alpha,
            mate - 1,
            count_one(st.nodes),
            keys,
        );
        let score = -child.score;
        let child_line = match child.line {
            Some(l) => l,
            None => seq![],
        };
        if score > st.best && score > st.alpha {
            AbState {
                alpha: if score > MAX_SCORE { MAX_SCORE as int } else { score },
                best: score,
                legal: true,
                line: Some(seq![m] + child_line),
                nodes: child.nodes,
                cut: score >= beta,
            }
        } else {
            AbState {
                alpha: st.alpha,
                best: if score > st.best { score } else { st.best },
                legal: true,
                line: st.line,
                nodes: child.nodes,
                cut: score >= beta,
            }
        }
    }
}

/// The move loop after the first `i` generated moves `ms`.
pub open spec fn ab_loop(
    s: Position,
    ms: Seq<Move>,
    i: nat,
    depth: nat,
    alpha: int,
    beta: int,
    mate: int,
    nodes: nat,
    keys: Keys,
) -> AbState
    decreases depth, 0nat, i,
{
    if i == 0 || i > ms.len() {
        AbState { alpha, best: MIN_SCORE as int, legal: false, line: None, nodes, cut: false }
    } else {
        ab_step(s, ab_loop(s, ms, (i - 1) as nat, depth, alpha, beta, mate, nodes, keys), ms[i - 1], depth, beta, mate, keys)
    }
}

proof fn lemma_ab_loop_unfold(s: Position, ms: Seq<Move>, i: nat, depth: nat, alpha: int, beta: int, mate: int, nodes: nat, keys: Keys)
    requires
        i < ms.len(),
    ensures
        ab_loop(s, ms, 0, depth, alpha, beta, mate, nodes, keys) == (AbState { alpha, best: MIN_SCORE as int, legal: false, line: None, nodes, cut: false }),
        ab_loop(s, ms, i + 1, depth, alpha, beta, mate, nodes, keys) == ab_step(s, ab_loop(s, ms, i, depth, alpha, beta, mate, nodes, keys), ms[i as int], depth, beta, mate, keys),
{
    reveal_with_fuel(ab_loop, 2);
}

/// Fail-soft negamax with alpha-beta pruning over the generated moves: at depth 0 the
/// evaluation; otherwise the best score of the move loop, or with no legal move `-mate`
/// in check and 0 otherwise.
pub open spec fn ab_spec(s: Position, depth: nat, alpha: int, beta: int, mate: int, nodes: nat, keys: Keys) -> AbResult
    decreases depth, 1nat, 0nat,
{
    if depth == 0 {
        AbResult { score: eval_spec(s), line: None, nodes }
    } else {
        let ms = all_moves_spec(s);
        let st = ab_loop(s, ms, ms.len(), depth, alpha, beta, mate, nodes, keys);
        if st.legal {
            AbResult { score: st.best, line: st.line, nodes: st.nodes }
        } else {
            AbResult { score: if in_check_spec(s) { -mate } else { 0 }, line: st.line, nodes: st.nodes }
        }
    }
}

proof fn lemma_ab_spec_unfold(s: Position, depth: nat, alpha: int, beta: int, mate: int, nodes: nat, keys: Keys)
    requires
        depth > 0,
    ensures
        ({
            let ms = all_moves_spec(s);
            let st = ab_loop(s, ms, ms.len(), depth, alpha, beta, mate, nodes, keys);
            let e = ab_spec(s, depth, alpha, beta, mate, nodes, keys);
            &&& e.nodes == st.nodes
            &&& e.line == st.line
            &&& st.legal ==> e.score == st.best
            &&& !st.legal ==> e.score == if in_check_spec(s) { -mate } else { 0 }
        }),
{
    reveal_with_fuel(ab_spec, 1);
    let ms = all_moves_spec(s);
    let st = ab_loop(s, ms, ms.len(), depth, alpha, beta, mate, nodes, keys);
    let e = ab_spec(s, depth, alpha, beta, mate, nodes, keys);
    if st.legal {
        assert(e == AbResult { score: st.best, line: st.line, nodes: st.nodes });
    } else {
        assert(e == AbResult { score: if in_check_spec(s) { -mate } else { 0 }, line: st.line, nodes: st.nodes });
    }
}

/// Once a cutoff ends the loop, later moves change nothing.
proof fn lemma_ab_loop_cut(s: Position, ms: Seq<Move>, i: nat, j: nat, depth: nat, alpha: int, beta: int, mate: int, nodes: nat, keys: Keys)
    requires
        0 < i <= j <= ms.len(),
        depth > 0,
        ab_loop(s, ms, i, depth, alpha, beta, mate, nodes, keys).cut,
    ensures
        ab_loop(s, ms, j, depth, alpha, beta, mate, nodes, keys) == ab_loop(s, ms, i, depth, alpha, beta, mate, nodes, keys),
    decreases j - i,
{
    if j > i {
        lemma_ab_loop_cut(s, ms, i, (j - 1) as nat, depth, alpha, beta, mate, nodes, keys);
        lemma_ab_loop_unfold(s, ms, (j - 1) as nat, depth, alpha, beta, mate, nodes, keys);
    }
}

/// The line a search leaves in place of `old`.
pub open spec fn line_after(r: AbResult, old: Seq<Move>) -> Seq<Move> {
    match r.line {
        Some(l) => l,
        None => old,
    }
}

/// Negamax with alpha-beta pruning, fail-soft. At depth 0, or once `stop_flag` is set, the
/// position is evaluated. Otherwise each legal move is searched in the order generated
/// with the window negated and `mate` one less; the best score is returned, and the line
/// of the first move that raised alpha (with the line below it) is kept in `pv_line`.
/// With no legal move the result is `-mate` in check (mated) and 0 otherwise (stalemate).
/// The flag returned tells whether `stop_flag` was seen set; when it was not, the score,
/// the line and the node count are exactly those of `ab_spec`.
#[verifier::rlimit(100)]
pub fn alphabeta(
    board: &Board,
    depth: usize,
    alpha: Score,
    beta: Score,
    mate: Score,
    stop_flag: &AtomicBool,
    nodes_count: &mut usize,
    pv_line: &mut Vec<Move>,
    keys: &Keys,
) -> (r: (Score, bool))
    requires
        keys.wf(),
        board.castling_ability.wf(),
        MIN_SCORE <= alpha <= MAX_SCORE,
        MIN_SCORE <= beta <= MAX_SCORE,
        depth <= 1_000_000,
        -1_000_000 + depth <= mate <= 1_000_000,
    ensures
        -SCORE_BOUND <= r.0 <= SCORE_BOUND,
        depth == 0 ==> r.0 == eval_spec(board@) && !r.1,
        final(pv_line)@ != old(pv_line)@ ==> final(pv_line)@.len() > 0 && is_pseudo_legal(board@, final(pv_line)@[0])
            && legal_spec(board@, final(pv_line)@[0], *keys),
        !r.1 ==> ({
            let e = ab_spec(board@, depth as nat, alpha as int, beta as int, mate as int, *old(nodes_count) as nat, *keys);
            &&& r.0 == e.score
            &&& *final(nodes_count) == e.nodes
            &&& final(pv_line)@ == line_after(e, old(pv_line)@)
        }),
    decreases depth,
{
    let stop = if depth == 0 {
        false
    } else {
        stop_flag.load(Ordering::Relaxed)
    };
    match leaf_score(board, depth, stop) {
        Some(e) => {
            return (e, stop);
        },
        None => {},
    }
    let ghost s = board@;
    let ghost n0 = *nodes_count as nat;
    let ghost line0 = pv_line@;
    let mut stopped = false;
    let mut cut = false;
    let mut alpha_now = alpha;
    let mut legal_moves = false;
    let mut best_score = MIN_SCORE;
    let move_list = board.generate_moves();
    let ghost ms = move_list@;
    proof {
        if ms.len() > 0 {
            lemma_ab_loop_unfold(s, ms, 0, depth as nat, alpha as int, beta as int, mate as int, n0, *keys);
        } else {
            reveal_with_fuel(ab_loop, 1);
        }
    }
    let mut i: usize = 0;
    while i < move_list.len() && !cut
        invariant
            keys.wf(),
            board.castling_ability.wf(),
            s == board@,
            MIN_SCORE <= alpha_now <= MAX_SCORE,
            MIN_SCORE <= beta <= MAX_SCORE,
            1 <= depth <= 1_000_000,
            -1_000_000 + depth <= mate <= 1_000_000,
            i <= ms.len(),
            ms == move_list@,
            ms == all_moves_spec(s),
            forall|k: int| 0 <= k < ms.len() ==> is_pseudo_legal(s, #[trigger] ms[k]),
            pv_line@ != line0 ==> pv_line@.len() > 0 && is_pseudo_legal(s, pv_line@[0]) && legal_spec(s, pv_line@[0], *keys),
            legal_moves ==> -SCORE_BOUND <= best_score <= SCORE_BOUND,
            !legal_moves ==> best_score == MIN_SCORE,
            !stopped ==> ({
                let st = ab_loop(s, ms, i as nat, depth as nat, alpha as int, beta as int, mate as int, n0, *keys);
                &&& st.cut == cut
                &&& st.alpha == alpha_now
                &&& st.best == best_score
                &&& st.legal == legal_moves
                &&& st.nodes == *nodes_count
                &&& pv_line@ == match st.line { Some(l) => l, None => line0 }
            }),
        decreases ms.len() - i,
    {
        let mv = move_list[i];
        let ghost st = ab_loop(s, ms, i as nat, depth as nat, alpha as int, beta as int, mate as int, n0, *keys);
        proof {
            lemma_ab_loop_unfold(s, ms, i as nat, depth as nat, alpha as int, beta as int, mate as int, n0, *keys);
        }
        match board.copy_with_move(mv, keys) {
            Some(board_copy) => {
                if *nodes_count < usize::MAX {
                    *nodes_count = *nodes_count + 1;
                }
                let mut child_line: Vec<Move> = Vec::new();
                let (child, child_stopped) = alphabeta(
                    &board_copy,
                    depth - 1,
                    -beta,
                    -alpha_now,
                    mate - 1,
                    stop_flag,
                    nodes_count,
                    &mut child_line,
                    keys,
                );
                if child_stopped {
                    stopped = true;
                }
                let score = -child;
                legal_moves = true;
                if score > best_score {
                    best_score = score;
                    if score > alpha_now {
                        alpha_now = if score > MAX_SCORE { MAX_SCORE } else { score };
                        pv_line.clear();
                        pv_line.push(mv);
                        let mut k: usize = 0;
                        proof {
                            assert(legal_spec(s, mv, *keys));
                            assert(is_pseudo_legal(s, mv));
                        }
                        while k < child_line.len()
                            invariant
                                k <= child_line@.len(),
                                pv_line@ == seq![mv] + child_line@.subrange(0, k as int),
                            decreases child_line@.len() - k,
                        {
                            pv_line.push(child_line[k]);
                            k += 1;
                            proof {
                                assert(pv_line@ =~= seq![mv] + child_line@.subrange(0, k as int));
                            }
                        }
                        proof {
                            assert(child_line@.subrange(0, child_line@.len() as int) =~= child_line@);
                        }
                    }
                }
                if score >= beta {
                    cut = true;
                }
            },
            None => {},
        }
        i += 1;
    }
    proof {
        if !stopped {
            if cut && i < ms.len() {
                lemma_ab_loop_cut(s, ms, i as nat, ms.len(), depth as nat, alpha as int, beta as int, mate as int, n0, *keys);
            }
            assert(ab_loop(s, ms, ms.len(), depth as nat, alpha as int, beta as int, mate as int, n0, *keys) == ab_loop(s, ms, i as nat, depth as nat, alpha as int, beta as int, mate as int, n0, *keys));
            assert(n0 == *old(nodes_count) as nat);
            assert(line0 == old(pv_line)@);
            lemma_ab_spec_unfold(s, depth as nat, alpha as int, beta as int, mate as int, n0, *keys);
        }
    }
    if legal_moves {
        (best_score, stopped)
    } else if board.in_check() {
        (-mate, stopped)
    } else {
        (0, stopped)
    }
}

/// The state of the move loop of a plain negamax node: the best score, whether a legal
/// move was searched, and the node count.
pub struct NmState {
    pub max: int,
    pub legal: bool,
    pub nodes: nat,
}

/// One move of a plain negamax loop: a legal move is searched one ply less deep and the
/// negated score kept if better.
pub open spec fn nm_step(s: Position, st: NmState, m: Move, depth: nat, keys: Keys) -> NmState
    decreases depth, 0nat, 0nat,
{
    if !legal_spec(s, m, keys) || depth == 0 {
        st
    } else {
        let child = nm_spec(apply_spec(s, m, keys), (depth - 1) as nat, count_one(st.nodes), keys);
        let score = -child.0;
        NmState { max: if score > st.max { score } else { st.max }, legal: true, nodes: child.1 }
    }
}

/// The plain negamax loop after the first `i` generated moves `ms`.
pub open spec fn nm_loop(s: Position, ms: Seq<Move>, i: nat, depth: nat, nodes: nat, keys: Keys) -> NmState
    decreases depth, 0nat, i,
{
    if i == 0 || i > ms.len() {
        NmState { max: MIN_SCORE as int, legal: false, nodes }
    } else {
        nm_step(s, nm_loop(s, ms, (i - 1) as nat, depth, nodes, keys), ms[i - 1], depth, keys)
    }
}

/// Plain negamax: the evaluation at depth 0; otherwise the best negated child score over
/// the legal moves, or with none `MIN_SCORE` in check and 0 otherwise; with the node
/// count after it.
pub open spec fn nm_spec(s: Position, depth: nat, nodes: nat, keys: Keys) -> (int, nat)
    decreases depth, 1nat, 0nat,
{
    if depth == 0 {
        (eval_spec(s), nodes)
    } else {
        let ms = all_moves_spec(s);
        let st = nm_loop(s, ms, ms.len(), depth, nodes, keys);
        if st.legal {
            (st.max, st.nodes)
        } else {
            (if in_check_spec(s) { MIN_SCORE as int } else { 0 }, st.nodes)
        }
    }
}

proof fn lemma_nm_unfold(s: Position, depth: nat, nodes: nat, keys: Keys, ms: Seq<Move>, i: nat)
    requires
        depth > 0,
        ms == all_moves_spec(s),
        i < ms.len(),
    ensures
        nm_loop(s, ms, 0, depth, nodes, keys) == (NmState { max: MIN_SCORE as int, legal: false, nodes }),
        nm_loop(s, ms, i + 1, depth, nodes, keys) == nm_step(s, nm_loop(s, ms, i, depth, nodes, keys), ms[i as int], depth, keys),
{
}

proof fn lemma_nm_spec_unfold(s: Position, depth: nat, nodes: nat, keys: Keys)
    requires
        depth > 0,
    ensures
        ({
            let ms = all_moves_spec(s);
            let st = nm_loop(s, ms, ms.len(), depth, nodes, keys);
            nm_spec(s, depth, nodes, keys) == if st.legal {
                (st.max, st.nodes)
            } else {
                (if in_check_spec(s) { MIN_SCORE as int } else { 0 }, st.nodes)
            }
        }),
{
    reveal_with_fuel(nm_spec, 1);
}

/// Plain negamax without pruning, for the score of `board` at `depth`: at depth 0, or once
/// `stop_flag` is set, the evaluation; with no legal move, `MIN_SCORE` in check and 0
/// otherwise. The flag returned tells whether `stop_flag` was seen set; when it was not,
/// the score and the node count are those of `nm_spec`.
fn nega_max_rec(board: &Board, depth: usize, stop_flag: &AtomicBool, nodes_count: &mut usize, keys: &Keys) -> (r: (Score, bool))
    requires
        keys.wf(),
        board.castling_ability.wf(),
    ensures
        MIN_SCORE <= r.0 <= MAX_SCORE,
        !r.1 ==> r.0 == nm_spec(board@, depth as nat, *old(nodes_count) as nat, *keys).0
            && *final(nodes_count) == nm_spec(board@, depth as nat, *old(nodes_count) as nat, *keys).1,
    decreases depth,
{
    let stop = if depth == 0 {
        false
    } else {
        stop_flag.load(Ordering::Relaxed)
    };
    match leaf_score(board, depth, stop) {
        Some(e) => {
            return (e, stop);
        },
        None => {},
    }
    let ghost s = board@;
    let ghost n0 = *nodes_count as nat;
    let mut stopped = false;
    let mut legal_moves = false;
    let mut max = MIN_SCORE;
    let move_list = board.generate_moves();
    let ghost ms = move_list@;
    proof {
        if ms.len() > 0 {
            lemma_nm_unfold(s, depth as nat, n0, *keys, ms, 0);
        }
    }
    let mut i: usize = 0;
    while i < move_list.len()
        invariant
            keys.wf(),
            board.castling_ability.wf(),
            s == board@,
            depth >= 1,
            i <= ms.len(),
            ms == move_list@,
            ms == all_moves_spec(s),
            MIN_SCORE <= max <= MAX_SCORE,
            !legal_moves ==> max == MIN_SCORE,
            !stopped ==> ({
                let st = nm_loop(s, ms, i as nat, depth as nat, n0, *keys);
                st.max == max && st.legal == legal_moves && st.nodes == *nodes_count
            }),
        decreases ms.len() - i,
    {
        proof {
            lemma_nm_unfold(s, depth as nat, n0, *keys, ms, i as nat);
        }
        match board.copy_with_move(move_list[i], keys) {
            Some(board_copy) => {
                if *nodes_count < usize::MAX {
                    *nodes_count = *nodes_count + 1;
                }
                let (child, child_stopped) = nega_max_rec(&board_copy, depth - 1, stop_flag, nodes_count, keys);
                if child_stopped {
                    stopped = true;
                }
                let sc = -child;
                legal_moves = true;
                if sc > max {
                    max = sc;
                }
            },
            None => {},
        }
        i += 1;
    }
    proof {
        if !stopped {
            lemma_nm_spec_unfold(s, depth as nat, n0, *keys);
        }
    }
    if !legal_moves {
        if board.in_check() {
            (MIN_SCORE, stopped)
        } else {
            (0, stopped)
        }
    } else {
        (max, stopped)
    }
}

/// The state of the root loop of plain negamax: the best score, the move that gave it,
/// and the node count.
pub struct NmRoot {
    pub best: int,
    pub best_move: Option<Move>,
    pub nodes: nat,
}

/// One move at the root: a legal move is searched one ply less deep; its negated score
/// replaces the best when higher, or when no move was kept yet.
pub open spec fn nm_root_step(s: Position, st: NmRoot, m: Move, depth: nat, keys: Keys) -> NmRoot {
    if !legal_spec(s, m, keys) || depth == 0 {
        st
    } else {
        let child = nm_spec(apply_spec(s, m, keys), (depth - 1) as nat, count_one(st.nodes), keys);
        let score = -child.0;
        if score > st.best || st.best_move is None {
            NmRoot { best: score, best_move: Some(m), nodes: child.1 }
        } else {
            NmRoot { best: st.best, best_move: st.best_move, nodes: child.1 }
        }
    }
}

pub open spec fn nm_root_loop(s: Position, ms: Seq<Move>, i: nat, depth: nat, nodes: nat, keys: Keys) -> NmRoot
    decreases i,
{
    if i == 0 || i > ms.len() {
        NmRoot { best: MIN_SCORE as int, best_move: None, nodes }
    } else {
        nm_root_step(s, nm_root_loop(s, ms, (i - 1) as nat, depth, nodes, keys), ms[i - 1], depth, keys)
    }
}

proof fn lemma_nm_root_unfold(s: Position, ms: Seq<Move>, i: nat, depth: nat, nodes: nat, keys: Keys)
    requires
        i < ms.len(),
    ensures
        nm_root_loop(s, ms, 0, depth, nodes, keys) == (NmRoot { best: MIN_SCORE as int, best_move: None, nodes }),
        nm_root_loop(s, ms, i + 1, depth, nodes, keys) == nm_root_step(s, nm_root_loop(s, ms, i, depth, nodes, keys), ms[i as int], depth, keys),
{
}

/// Plain negamax at the root over the generated moves: the first legal move with the best
/// score, or checkmate or stalemate when there is no legal move.
pub open spec fn negamax_spec(s: Position, depth: nat, nodes: nat, keys: Keys) -> Result {
    let ms = all_moves_spec(s);
    let st = nm_root_loop(s, ms, ms.len(), depth, nodes, keys);
    match st.best_move {
        Some(m) => Result::BestMove(m, st.best as i32),
        None => if in_check_spec(s) { Result::CheckMate } else { Result::StaleMate },
    }
}

/// Plain negamax at the root: the first legal move with the best score (`MIN_SCORE` for a
/// lost position), or checkmate or stalemate when there is no legal move. The flag is read
/// after each move; the flag returned tells whether it was seen set, and when it was not
/// the result is `negamax_spec`.
#[verifier::rlimit(60)]
pub fn negamax(board: &Board, depth: usize, stop_flag: &AtomicBool, nodes_count: &mut usize, keys: &Keys) -> (r: (Result, bool))
    requires
        keys.wf(),
        board.castling_ability.wf(),
        depth > 0,
    ensures
        !r.1 ==> r.0 == negamax_spec(board@, depth as nat, *old(nodes_count) as nat, *keys),
        r.0 matches Result::BestMove(m, _) ==> is_pseudo_legal(board@, m) && legal_spec(board@, m, *keys),
{
    let ghost s = board@;
    let ghost n0 = *nodes_count as nat;
    let mut stopped = false;
    let mut best_score = MIN_SCORE;
    let mut best_move: Option<Move> = None;
    let move_list = board.generate_moves();
    let ghost ms = move_list@;
    proof {
        if ms.len() > 0 {
            lemma_nm_root_unfold(s, ms, 0, depth as nat, n0, *keys);
        }
    }
    let mut i: usize = 0;
    while i < move_list.len()
        invariant
            keys.wf(),
            board.castling_ability.wf(),
            s == board@,
            depth >= 1,
            i <= ms.len(),
            ms == move_list@,
            ms == all_moves_spec(s),
            MIN_SCORE <= best_score <= MAX_SCORE,
            forall|k: int| 0 <= k < ms.len() ==> is_pseudo_legal(s, #[trigger] ms[k]),
            best_move matches Some(m) ==> is_pseudo_legal(s, m) && legal_spec(s, m, *keys),
            !stopped ==> ({
                let st = nm_root_loop(s, ms, i as nat, depth as nat, n0, *keys);
                st.best == best_score && st.best_move == best_move && st.nodes == *nodes_count
            }),
        decreases ms.len() - i,
    {
        let mv = move_list[i];
        proof {
            lemma_nm_root_unfold(s, ms, i as nat, depth as nat, n0, *keys);
        }
        match board.copy_with_move(mv, keys) {
            Some(board_copy) => {
                if *nodes_count < usize::MAX {
                    *nodes_count = *nodes_count + 1;
                }
                let (child, child_stopped) = nega_max_rec(&board_copy, depth - 1, stop_flag, nodes_count, keys);
                if child_stopped {
                    stopped = true;
                }
                let score = -child;
                if score > best_score || best_move.is_none() {
                    best_score = score;
                    best_move = Some(mv);
                }
            },
            None => {},
        }
        i += 1;
        if stop_flag.load(Ordering::Relaxed) {
            return (
                match best_move {
                    Some(m) => Result::BestMove(m, best_score),
                    None => if board.in_check() { Result::CheckMate } else { Result::StaleMate },
                },
                true,
            );
        }
    }
    match best_move {
        Some(mv) => (Result::BestMove(mv, best_score), stopped),
        None => {
            if board.in_check() {
                (Result::CheckMate, stopped)
            } else {
                (Result::StaleMate, stopped)
            }
        },
    }
}

/// What a completed depth of the iterative deepening leads to.
#[derive(Debug, Clone, Copy, PartialEq, Eq, Structural)]
pub enum DepthOutcome {
    /// The depth was interrupted: its result is dropped and the previous one stands.
    Discard,
    /// The side to move is mated already.
    Mated,
    /// The line is empty: no legal move.
    Stalemate,
    /// The line's first move is the best move so far.
    Best,
}

pub open spec fn depth_outcome_spec(depth: nat, interrupted: bool, score: int, pv_empty: bool) -> DepthOutcome {
    if depth > 1 && interrupted {
        DepthOutcome::Discard
    } else if mate_in_spec(score) is None && mated_in_spec(score) == Some(0int) {
        DepthOutcome::Mated
    } else if pv_empty {
        DepthOutcome::Stalemate
    } else {
        DepthOutcome::Best
    }
}

/// Decides what a completed depth leads to: an interrupted depth beyond the first is
/// discarded; a score that says the side to move is mated already gives checkmate; an
/// empty line gives stalemate; otherwise the line's first move is the best so far.
pub fn depth_outcome(depth: usize, interrupted: bool, score: Score, pv_empty: bool) -> (r: DepthOutcome)
    ensures
        r == depth_outcome_spec(depth as nat, interrupted, score as int, pv_empty),
{
    if depth > 1 && interrupted {
        return DepthOutcome::Discard;
    }
    match mate_in(score) {
        Some(_) => {},
        None => match mated_in(score) {
            Some(m) => {
                if m == 0 {
                    return DepthOutcome::Mated;
                }
            },
            None => {},
        },
    }
    if pv_empty {
        DepthOutcome::Stalemate
    } else {
        DepthOutcome::Best
    }
}

/// The score item of a progress record: a mate for the side to move in so many moves, a
/// mate against it as a negative count, or else the score in centipawns.
pub open spec fn score_item_spec(score: int) -> InfoData {
    match mate_in_spec(score) {
        Some(m) => InfoData::ScoreMate(m as i32),
        None => match mated_in_spec(score) {
            Some(m) => InfoData::ScoreMate((-m) as i32),
            None => InfoData::Score(score as i32),
        },
    }
}

/// The progress record of a completed depth: the depth, the node count, the principal
/// line, and the score item.
pub fn info_record(depth: usize, nodes: usize, pv: &Vec<Move>, score: Score) -> (r: Vec<InfoData>)
    requires
        -SCORE_BOUND <= score <= SCORE_BOUND,
    ensures
        r@.len() == 4,
        r@[0] == InfoData::Depth(depth),
        r@[1] == InfoData::Nodes(nodes),
        r@[2] matches InfoData::Pv(v) && v@ == pv@,
        r@[3] == score_item_spec(score as int),
{
    let mut pv_copy: Vec<Move> = Vec::new();
    let mut k: usize = 0;
    while k < pv.len()
        invariant
            k <= pv@.len(),
            pv_copy@ == pv@.subrange(0, k as int),
        decreases pv@.len() - k,
    {
        pv_copy.push(pv[k]);
        k += 1;
        proof {
            assert(pv_copy@ =~= pv@.subrange(0, k as int));
        }
    }
    proof {
        assert(pv@.subrange(0, pv@.len() as int) =~= pv@);
    }
    let item = match mate_in(score) {
        Some(m) => InfoData::ScoreMate(m),
        None => match mated_in(score) {
            Some(m) => InfoData::ScoreMate(-m),
            None => InfoData::Score(score),
        },
    };
    let mut info_data: Vec<InfoData> = Vec::new();
    info_data.push(InfoData::Depth(depth));
    info_data.push(InfoData::Nodes(nodes));
    info_data.push(InfoData::Pv(pv_copy));
    info_data.push(item);
    info_data
}

/// The deepest depth a search goes to.
pub const DEPTH_LIMIT: usize = 1000;

/// The last depth iterative deepening searches: the requested depth, at least 1 and at
/// most `DEPTH_LIMIT`.
pub open spec fn max_depth_spec(params: SearchParams) -> nat {
    match params.depth {
        Some(d) => if d == 0 { 1 } else if d < DEPTH_LIMIT { d as nat } else { DEPTH_LIMIT as nat },
        None => DEPTH_LIMIT as nat,
    }
}

/// Where iterative deepening stands after depths 1 to `k`, when nothing interrupts: the
/// result so far, the node count, the line, and whether checkmate or stalemate ended it.
pub struct RunState {
    pub result: Result,
    pub nodes: nat,
    pub pv: Seq<Move>,
    pub ended: bool,
}

/// Iterative deepening after depths 1 to `k`: each depth runs alpha-beta with the full
/// window and `MATE_SCORE`, continuing the node count and the line; a score that says the
/// side to move is mated already ends it with checkmate, an empty line with stalemate,
/// and otherwise the line's first move becomes the result.
pub open spec fn run_state(s: Position, k: nat, keys: Keys) -> RunState
    decreases k,
{
    if k == 0 {
        RunState { result: Result::StaleMate, nodes: 0, pv: seq![], ended: false }
    } else {
        let st = run_state(s, (k - 1) as nat, keys);
        if st.ended {
            st
        } else {
            let e = ab_spec(s, k, MIN_SCORE as int, MAX_SCORE as int, MATE_SCORE as int, st.nodes, keys);
            let line = line_after(e, st.pv);
            match depth_outcome_spec(k, false, e.score, line.len() == 0) {
                DepthOutcome::Mated => RunState { result: Result::CheckMate, nodes: e.nodes, pv: line, ended: true },
                DepthOutcome::Stalemate => RunState { result: Result::StaleMate, nodes: e.nodes, pv: line, ended: true },
                DepthOutcome::Discard => st,
                DepthOutcome::Best => RunState {
                    result: Result::BestMove(line[0], e.score as i32),
                    nodes: e.nodes,
                    pv: line,
                    ended: false,
                },
            }
        }
    }
}

/// The result of iterative deepening to depth `maxd` when nothing interrupts.
pub open spec fn run_spec(s: Position, maxd: nat, keys: Keys) -> Result {
    run_state(s, maxd, keys).result
}

/// Once checkmate or stalemate ends the deepening, deeper depths change nothing.
proof fn lemma_run_ended(s: Position, k: nat, j: nat, keys: Keys)
    requires
        k <= j,
        run_state(s, k, keys).ended,
    ensures
        run_state(s, j, keys) == run_state(s, k, keys),
    decreases j - k,
{
    if j > k {
        lemma_run_ended(s, k, (j - 1) as nat, keys);
    }
}

/// Iterative deepening: alpha-beta at depth 1, 2, ... up to the requested depth (at least
/// 1, at most `DEPTH_LIMIT`), sending the progress record of each completed depth. A depth
/// beyond the first that `stop_flag` interrupted is discarded, and the result of the
/// depths before stands; the flag is also read after each completed depth. An interrupted
/// first depth gives the first move of whatever line it found, or stalemate. A score that
/// says the side to move is mated already gives checkmate (no record is sent); an empty
/// line gives stalemate. The flag returned tells whether `stop_flag` was seen set.
pub fn run(
    board: &Board,
    search_params: &SearchParams,
    event_sender: &Sender<Event>,
    stop_flag: &AtomicBool,
    keys: &Keys,
) -> (r: (Result, bool))
    requires
        keys.wf(),
        board.castling_ability.wf(),
    ensures
        !r.1 ==> r.0 == run_spec(board@, max_depth_spec(*search_params), *keys),
        r.1 ==> (exists|d: nat| 1 <= d <= max_depth_spec(*search_params) && r.0 == #[trigger] run_spec(board@, d, *keys))
            || r.0 is StaleMate || r.0 is BestMove,
        r.0 matches Result::BestMove(m, _) ==> is_pseudo_legal(board@, m) && legal_spec(board@, m, *keys),
{
    let max_depth = match search_params.depth {
        Some(d) => if d == 0 { 1 } else if d < DEPTH_LIMIT { d } else { DEPTH_LIMIT },
        None => DEPTH_LIMIT,
    };
    let ghost s = board@;
    let mut nodes_count: usize = 0;
    let mut pv_line: Vec<Move> = Vec::new();
    let mut result = Result::StaleMate;
    let mut depth: usize = 1;
    while depth <= max_depth
        invariant
            keys.wf(),
            board.castling_ability.wf(),
            s == board@,
            1 <= depth <= max_depth + 1,
            1 <= max_depth <= DEPTH_LIMIT,
            max_depth == max_depth_spec(*search_params),
            ({
                let st = run_state(s, (depth - 1) as nat, *keys);
                &&& !st.ended
                &&& st.result == result
                &&& st.nodes == nodes_count
                &&& st.pv == pv_line@
            }),
            pv_line@.len() > 0 ==> is_pseudo_legal(s, pv_line@[0]) && legal_spec(s, pv_line@[0], *keys),
            result matches Result::BestMove(m, _) ==> is_pseudo_legal(s, m) && legal_spec(s, m, *keys),
        decreases max_depth + 1 - depth,
    {
        let ghost nodes0 = nodes_count as nat;
        let ghost pv0 = pv_line@;
        let (score, ab_stopped) = alphabeta(
            board,
            depth,
            MIN_SCORE,
            MAX_SCORE,
            MATE_SCORE,
            stop_flag,
            &mut nodes_count,
            &mut pv_line,
            keys,
        );
        let interrupted = ab_stopped || (depth > 1 && stop_flag.load(Ordering::Relaxed));
        if interrupted {
            if depth == 1 {
                if pv_line.len() == 0 {
                    return (Result::StaleMate, true);
                } else {
                    return (Result::BestMove(pv_line[0], score), true);
                }
            }
            proof {
                assert(run_spec(s, (depth - 1) as nat, *keys) == result);
            }
            return (result, true);
        }
        let ghost e = ab_spec(s, depth as nat, MIN_SCORE as int, MAX_SCORE as int, MATE_SCORE as int, nodes0, *keys);
        proof {
            assert(score == e.score && nodes_count == e.nodes && pv_line@ == line_after(e, pv0));
            lemma_run_state_step(s, depth as nat, *keys);
        }
        match depth_outcome(depth, false, score, pv_line.len() == 0) {
            DepthOutcome::Discard => {
                return (result, false);
            },
            DepthOutcome::Mated => {
                proof {
                    lemma_run_ended(s, depth as nat, max_depth as nat, *keys);
                }
                return (Result::CheckMate, false);
            },
            DepthOutcome::Stalemate => {
                proof {
                    lemma_run_ended(s, depth as nat, max_depth as nat, *keys);
                }
                send_event(event_sender, Event::Info(info_record(depth, nodes_count, &pv_line, score)));
                return (Result::StaleMate, false);
            },
            DepthOutcome::Best => {
                send_event(event_sender, Event::Info(info_record(depth, nodes_count, &pv_line, score)));
                result = Result::BestMove(pv_line[0], score);
            },
        }
        if stop_flag.load(Ordering::Relaxed) {
            proof {
                assert(run_spec(s, depth as nat, *keys) == result);
            }
            return (result, true);
        }
        depth += 1;
    }
    (result, false)
}

/// The state after depth `k` follows from the state after depth `k - 1`.
proof fn lemma_run_state_step(s: Position, k: nat, keys: Keys)
    requires
        k >= 1,
    ensures
        ({
            let st = run_state(s, (k - 1) as nat, keys);
            let e = ab_spec(s, k, MIN_SCORE as int, MAX_SCORE as int, MATE_SCORE as int, st.nodes, keys);
            let line = line_after(e, st.pv);
            !st.ended ==> run_state(s, k, keys) == match depth_outcome_spec(k, false, e.score, line.len() == 0) {
                DepthOutcome::Mated => RunState { result: Result::CheckMate, nodes: e.nodes, pv: line, ended: true },
                DepthOutcome::Stalemate => RunState { result: Result::StaleMate, nodes: e.nodes, pv: line, ended: true },
                DepthOutcome::Discard => st,
                DepthOutcome::Best => RunState {
                    result: Result::BestMove(line[0], e.score as i32),
                    nodes: e.nodes,
                    pv: line,
                    ended: false,
                },
            }
        }),
{
}

} // verus!
