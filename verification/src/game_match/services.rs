use vstd::prelude::*;

use crate::api::convert::{parse_uuid, uuid_parsed};
use crate::game::game::{move_result, Game};
use crate::game::outcome::MoveOutcome;
use crate::game::player::{other_player, PlayerId, MAX_MISTAKES};
use crate::game::time::remaining_spec;
use crate::game::view::OpponentProgress;
use crate::game::player_move::Move;
use crate::game::puzzle::Puzzle;
use crate::game::view::GameView;
use crate::game_match::clock::now_millis;
use crate::game_match::model::{GameMatch, MatchStatus};
use crate::game_match::repository::{index_of, revision_room, MatchRepository};
use crate::generation::finder::{unique_completion, within, Finder};
use crate::generation::generator::Generator;
use crate::layout::cell::Cell;
use crate::layout::grid::{known_cells, lemma_all_known, Grid};
use crate::match_state::{can_start, player_of, started, GameSession};
use crate::solve::algorithms::brute_force::{is_solved, lemma_solved_valid};
use crate::solve::consistency::{consistent, model_of};
use crate::solve::board::{lemma_board_values_shape, Board};
use crate::solve::cancelable::Cancelable;
use crate::solve::changer::{Changer, Options};

verus! {

broadcast use lemma_board_values_shape;

/// How long each player has to solve the puzzle: six minutes.
pub const GAME_TIME_LIMIT_MS: u64 = 360_000;

/// Fewer givens than this make no puzzle with a single solution.
pub const MIN_CLUES: usize = 17;

/// The number of givens the finder keeps at most.
pub const TARGET_CLUES: usize = 28;

/// The match after `user_id` joined it as second player.
pub open spec fn joined(meta: GameMatch, user_id: u128) -> GameMatch {
    GameMatch { player2_id: Some(user_id), status: MatchStatus::Ready, ..meta }
}

/// A user may join a match that waits and that the user did not create.
pub open spec fn can_join(meta: GameMatch, user_id: u128) -> bool {
    meta.status == MatchStatus::Waiting && meta.player1_id != user_id
}

/// The match after its second player left.
pub open spec fn left(meta: GameMatch) -> GameMatch {
    GameMatch { player2_id: None, status: MatchStatus::Waiting, ..meta }
}

/// The user may start the match: the user created it and it can start.
pub open spec fn may_start(meta: GameMatch, user_id: u128) -> bool {
    meta.player1_id == user_id && can_start(meta)
}

/// The sessions are those of `old` with the one at `i` replaced.
pub open spec fn replaced_at(old: Seq<GameSession>, new: Seq<GameSession>, i: int) -> bool {
    &&& 0 <= i < old.len()
    &&& new == old.update(i, new[i])
}

/// Replacing one session by a well-formed one keeps every session
/// well-formed.
proof fn lemma_replaced_wf(old: Seq<GameSession>, new: Seq<GameSession>, i: int)
    requires
        replaced_at(old, new, i),
        forall|k: int| 0 <= k < old.len() ==> #[trigger] old[k].wf(),
        new[i].wf(),
    ensures
        forall|k: int| 0 <= k < new.len() ==> #[trigger] new[k].wf(),
{
    assert forall|k: int| 0 <= k < new.len() implies #[trigger] new[k].wf() by {
        if k != i {
            assert(new[k] == old[k]);
        }
    }
}

/// Putting back the session that is there changes nothing.
proof fn lemma_update_same(s: Seq<GameSession>, i: int)
    requires
        0 <= i < s.len(),
    ensures
        s.update(i, s[i]) == s,
{
    assert(s.update(i, s[i]) =~= s);
}

/// Two sequences that agree on the first `n` values count as many known
/// ones among them.
proof fn lemma_known_cells_same(a: Seq<nat>, b: Seq<nat>, n: nat)
    requires
        forall|i: int| 0 <= i < n ==> #[trigger] a[i] == b[i],
    ensures
        known_cells(a, n) == known_cells(b, n),
    decreases n,
{
    if n > 0 {
        lemma_known_cells_same(a, b, (n - 1) as nat);
    }
}

/// A second player who joins a waiting match and leaves again leaves the
/// match as it was before the join.
pub proof fn lemma_leave_undoes_join(meta: GameMatch, user_id: u128)
    requires
        can_join(meta, user_id),
        meta.player2_id is None,
    ensures
        left(joined(meta, user_id)) == meta,
        !can_join(joined(meta, user_id), user_id),
{
}

/// Creates a match of `user_id`, with a session without a game; its
/// identifier.
pub fn create_match(match_repo: &mut MatchRepository, user_id: u128) -> (r: u128)
    ensures
        final(match_repo).sessions_spec().drop_last() == old(match_repo).sessions_spec(),
        final(match_repo).sessions_spec().len() == old(match_repo).sessions_spec().len() + 1,
        ({
            let s = final(match_repo).sessions_spec().last();
            &&& s.meta.id == r
            &&& s.meta.player1_id == user_id
            &&& s.meta.player2_id is None
            &&& s.meta.status == MatchStatus::Waiting
            &&& s.meta.started_at is None
            &&& s.game is None
        }),
        old(match_repo).wf() ==> final(match_repo).wf(),
{
    let meta = GameMatch::new(user_id);
    let match_id = meta.id;
    let session = GameSession::from_match(meta);
    match_repo.add_session(session);
    match_id
}

/// Lets `user_id` join the match as second player when it waits and the
/// user did not create it; the match is then ready.
pub fn join_match(match_repo: &mut MatchRepository, user_id: u128, match_id: u128) -> (r: bool)
    ensures
        match index_of(old(match_repo).sessions_spec(), match_id) {
            Some(i) => {
                let s = old(match_repo).sessions_spec()[i];
                &&& r == can_join(s.meta, user_id)
                &&& r ==> {
                    &&& replaced_at(old(match_repo).sessions_spec(), final(match_repo).sessions_spec(), i)
                    &&& final(match_repo).sessions_spec()[i].meta == joined(s.meta, user_id)
                    &&& final(match_repo).sessions_spec()[i].game == s.game
                }
            },
            None => !r,
        },
        !r ==> final(match_repo).sessions_spec() == old(match_repo).sessions_spec(),
        old(match_repo).wf() ==> final(match_repo).wf(),
{
    let ghost old_sessions = match_repo.sessions_spec();
    let ghost i = index_of(old_sessions, match_id)->0;
    let session = match match_repo.find_session_by_id_mut(match_id) {
        Some(s) => s,
        None => {
            return false;
        },
    };
    if session.meta.status != MatchStatus::Waiting {
        proof {
            lemma_update_same(old_sessions, i);
        }
        return false;
    }
    if session.meta.player1_id == user_id {
        proof {
            lemma_update_same(old_sessions, i);
        }
        return false;
    }
    session.meta.player2_id = Some(user_id);
    session.meta.status = MatchStatus::Ready;
    session.touch();
    proof {
        if old(match_repo).wf() {
            assert(old_sessions[i].wf());
            lemma_replaced_wf(old_sessions, match_repo.sessions_spec(), i);
        }
    }
    true
}

/// Takes `user_id` out of the match. The creator leaving removes the match;
/// the second player leaving frees the place, drops the game and sets the
/// match back to waiting. False for a user not in the match.
#[verifier::rlimit(40)]
#[verifier::spinoff_prover]
pub fn leave_match_by_user(match_repo: &mut MatchRepository, user_id: u128, match_id: u128) -> (r: bool)
    ensures
        match index_of(old(match_repo).sessions_spec(), match_id) {
            Some(i) => {
                let o = old(match_repo).sessions_spec();
                let s = o[i];
                if s.meta.player1_id == user_id {
                    &&& r
                    &&& final(match_repo).sessions_spec() == o.update(i, o.last()).drop_last()
                } else if s.meta.player2_id == Some(user_id) {
                    &&& r
                    &&& replaced_at(o, final(match_repo).sessions_spec(), i)
                    &&& final(match_repo).sessions_spec()[i].meta == left(s.meta)
                    &&& final(match_repo).sessions_spec()[i].game is None
                } else {
                    &&& !r
                    &&& final(match_repo).sessions_spec() == o
                }
            },
            None => !r && final(match_repo).sessions_spec() == old(match_repo).sessions_spec(),
        },
        old(match_repo).wf() ==> final(match_repo).wf(),
{
    let ghost old_sessions = match_repo.sessions_spec();
    let ghost i = index_of(old_sessions, match_id)->0;
    let session = match match_repo.find_session_by_id_mut(match_id) {
        Some(s) => s,
        None => {
            return false;
        },
    };
    if session.meta.player1_id == user_id {
        let id = session.meta.id;
        proof {
            lemma_update_same(old_sessions, i);
            assert(id == match_id);
        }
        return match_repo.remove_match(id);
    }
    if session.meta.player2_id == Some(user_id) {
        session.meta.player2_id = None;
        session.meta.status = MatchStatus::Waiting;
        session.game = None;
        session.touch();
        proof {
            if old(match_repo).wf() {
                lemma_replaced_wf(old_sessions, match_repo.sessions_spec(), i);
            }
        }
        return true;
    }
    proof {
        lemma_update_same(old_sessions, i);
    }
    false
}

/// The grid of a board's values.
fn board_to_grid(board: &Board) -> (r: Grid)
    ensures
        r@ == board.values_spec(),
{
    let mut grid = Grid::new();
    let mut i: u8 = 0;
    while i < 81
        invariant
            i <= 81,
            grid@.len() == 81,
            forall|j: int| 0 <= j < i ==> #[trigger] grid@[j] == board.values_spec()[j],
            forall|j: int| i <= j < 81 ==> #[trigger] grid@[j] == 0,
        decreases 81 - i,
    {
        let cell = Cell::new(i);
        grid.set(cell, board.value(cell));
        i = i + 1;
    }
    assert(grid@ =~= board.values_spec());
    grid
}

/// A complete solution, generated at random in at most `attempts` tries.
fn solved_board(attempts: u32) -> (r: Option<Board>)
    ensures
        r matches Some(b) ==> is_solved(b.values_spec()) && consistent(model_of(b)),
{
    let changer = Changer::new(Options::errors());
    let mut attempt: u32 = 0;
    while attempt < attempts
        invariant
            changer.options.stop_on_errors,
        decreases attempts - attempt,
    {
        let cancelable = Cancelable::new();
        let mut generator = Generator::new(true, false);
        match generator.generate(&changer, &cancelable) {
            Some(b) => {
                if b.known_count() == 81 {
                    proof {
                        lemma_all_known(b.values_spec(), 81);
                    }
                    return Some(b);
                }
            },
            None => {},
        }
        attempt = attempt + 1;
    }
    None
}

/// The puzzle of the solution with the givens the finder keeps, when
/// there are at least as many of them as a single solution needs; `None`
/// when the finder kept fewer. When the solution is consistent, the givens
/// have it as their one completion.
fn puzzle_from_solution(solved: Board) -> (r: Option<Puzzle>)
    requires
        is_solved(solved.values_spec()),
    ensures
        r matches Some(p) ==> {
            &&& p.solution_spec() == solved.values_spec()
            &&& within(p.givens_spec(), p.solution_spec())
            &&& MIN_CLUES <= known_cells(p.givens_spec(), 81) <= 81
            &&& consistent(model_of(solved)) ==> unique_completion(p.givens_spec(), p.solution_spec())
        },
        r is None ==> exists|g: Seq<nat>|
            #[trigger] within(g, solved.values_spec()) && known_cells(g, 81) < MIN_CLUES && (consistent(
                model_of(solved),
            ) ==> unique_completion(g, solved.values_spec())),
{
    proof {
        if consistent(model_of(solved)) {
            lemma_solved_valid(solved);
        }
    }
    let solution_grid = board_to_grid(&solved);
    let mut finder = Finder::new(TARGET_CLUES, 5, false);
    let (givens_board, _effects) = finder.backtracking_find(solved);
    let clues = givens_board.known_count();
    if clues < MIN_CLUES || clues > 81 {
        proof {
            assert(within(givens_board.values_spec(), solved.values_spec()));
        }
        return None;
    }
    let givens_grid = board_to_grid(&givens_board);
    Some(Puzzle::new(givens_grid, solution_grid))
}

/// A puzzle with its solution: a solution generated at random, and the
/// givens the finder keeps of it; up to 120 tries. The givens have the
/// solution as their one completion.
pub fn generate_puzzle_mvp() -> (r: Option<Puzzle>)
    ensures
        r matches Some(p) ==> {
            &&& is_solved(p.solution_spec())
            &&& within(p.givens_spec(), p.solution_spec())
            &&& MIN_CLUES <= known_cells(p.givens_spec(), 81) <= 81
            &&& unique_completion(p.givens_spec(), p.solution_spec())
        },
{
    let mut attempt: u32 = 0;
    while attempt < 120
        decreases 120 - attempt,
    {
        match solved_board(1) {
            Some(solved) => {
                match puzzle_from_solution(solved) {
                    Some(p) => {
                        return Some(p);
                    },
                    None => {},
                }
            },
            None => {},
        }
        attempt = attempt + 1;
    }
    None
}

/// Starts the game of the match with the puzzle at `now`, when `user_id`
/// created the match and it is ready with a second player.
pub fn start_match_with_puzzle(
    match_repo: &mut MatchRepository,
    user_id: u128,
    match_id: u128,
    puzzle: Puzzle,
    now: u64,
) -> (r: bool)
    ensures
        match index_of(old(match_repo).sessions_spec(), match_id) {
            Some(i) => {
                let s = old(match_repo).sessions_spec()[i];
                &&& r == may_start(s.meta, user_id)
                &&& r ==> {
                    &&& replaced_at(old(match_repo).sessions_spec(), final(match_repo).sessions_spec(), i)
                    &&& started(s, final(match_repo).sessions_spec()[i], puzzle, GAME_TIME_LIMIT_MS, now)
                }
            },
            None => !r,
        },
        !r ==> final(match_repo).sessions_spec() == old(match_repo).sessions_spec(),
        old(match_repo).wf() ==> final(match_repo).wf(),
{
    let session = match match_repo.find_session_by_id_mut(match_id) {
        Some(s) => s,
        None => {
            return false;
        },
    };
    if session.meta.player1_id != user_id {
        return false;
    }
    if session.meta.player2_id.is_none() {
        return false;
    }
    if session.meta.status != MatchStatus::Ready {
        return false;
    }
    session.start_game(puzzle, GAME_TIME_LIMIT_MS, now)
}

/// Whether `user_id` may start the match `match_id` now.
pub fn may_start_now(match_repo: &MatchRepository, user_id: u128, match_id: u128) -> (r: bool)
    ensures
        r == (match match_repo.session_spec(match_id) {
            Some(s) => may_start(s.meta, user_id),
            None => false,
        }),
{
    match match_repo.find_session_by_id(match_id) {
        Some(s) => s.meta.player1_id == user_id && s.meta.player2_id.is_some() && s.meta.status
            == MatchStatus::Ready,
        None => false,
    }
}

/// Why a request that names a match by its text is refused before it
/// reaches the match.
#[derive(Clone, Copy, Debug, PartialEq, Eq, Structural)]
pub enum RequestError {
    /// The text writes no UUID.
    BadId,
    /// No match, or nothing for this user in it.
    NotFound,
}

/// The view a request by text found, if any.
pub open spec fn found_view(r: Result<GameView, RequestError>) -> Option<GameView> {
    match r {
        Ok(v) => Some(v),
        Err(_) => None,
    }
}

/// The match that `text` names, and whether `user_id` may start it now:
/// `BadId` when `text` writes no UUID, `NotFound` when no match has it.
pub fn check_start(match_repo: &MatchRepository, user_id: u128, text: &str) -> (r: Result<(u128, bool), RequestError>)
    ensures
        match uuid_parsed(text@) {
            None => r == Err::<(u128, bool), RequestError>(RequestError::BadId),
            Some(id) => match match_repo.session_spec(id) {
                None => r == Err::<(u128, bool), RequestError>(RequestError::NotFound),
                Some(s) => r == Ok::<(u128, bool), RequestError>((id, may_start(s.meta, user_id))),
            },
        },
{
    let id = match parse_uuid(text) {
        Some(id) => id,
        None => {
            return Err(RequestError::BadId);
        },
    };
    if match_repo.find_session_by_id(id).is_none() {
        return Err(RequestError::NotFound);
    }
    Ok((id, may_start_now(match_repo, user_id, id)))
}

/// The state at `now` of the match that `text` names for `user_id`, as
/// `get_match_state_for_user_at` gives it: `BadId`, with nothing changed,
/// when `text` writes no UUID; `NotFound` when that gives nothing.
pub fn match_state_by_text(match_repo: &mut MatchRepository, user_id: u128, text: &str, now: u64) -> (r: Result<
    GameView,
    RequestError,
>)
    requires
        old(match_repo).wf(),
    ensures
        final(match_repo).wf(),
        uuid_parsed(text@) is None ==> (r matches Err(RequestError::BadId)) && final(match_repo).sessions_spec()
            == old(match_repo).sessions_spec(),
        uuid_parsed(text@) matches Some(id) ==> !(r matches Err(RequestError::BadId)) && state_request(
            old(match_repo).sessions_spec(),
            final(match_repo).sessions_spec(),
            user_id,
            id,
            now,
            found_view(r),
        ),
{
    let id = match parse_uuid(text) {
        Some(id) => id,
        None => {
            return Err(RequestError::BadId);
        },
    };
    match get_match_state_for_user_at(match_repo, user_id, id, now) {
        Some(v) => Ok(v),
        None => Err(RequestError::NotFound),
    }
}

/// Starts the match for its creator: generates a puzzle (a solution at
/// random, up to 50 tries, and the givens kept of it) and starts the game
/// now. False, with nothing changed, when the user may not start the
/// match or no puzzle came out.
pub fn start_match_by_user(match_repo: &mut MatchRepository, user_id: u128, match_id: u128) -> (r: bool)
    ensures
        r ==> match index_of(old(match_repo).sessions_spec(), match_id) {
            Some(i) => {
                let s = old(match_repo).sessions_spec()[i];
                &&& may_start(s.meta, user_id)
                &&& replaced_at(old(match_repo).sessions_spec(), final(match_repo).sessions_spec(), i)
                &&& exists|p: Puzzle, now: u64|
                    {
                        &&& started(s, final(match_repo).sessions_spec()[i], p, GAME_TIME_LIMIT_MS, now)
                        &&& is_solved(p.solution_spec())
                        &&& within(p.givens_spec(), p.solution_spec())
                        &&& MIN_CLUES <= known_cells(p.givens_spec(), 81)
                        &&& unique_completion(p.givens_spec(), p.solution_spec())
                    }
            },
            None => false,
        },
        !r ==> final(match_repo).sessions_spec() == old(match_repo).sessions_spec(),
        old(match_repo).wf() ==> final(match_repo).wf(),
{
    if !may_start_now(match_repo, user_id, match_id) {
        return false;
    }
    let solved = match solved_board(50) {
        Some(b) => b,
        None => {
            return false;
        },
    };
    let puzzle = match puzzle_from_solution(solved) {
        Some(p) => p,
        None => {
            return false;
        },
    };
    let ghost p = puzzle;
    let now = now_millis();
    let ok = start_match_with_puzzle(match_repo, user_id, match_id, puzzle, now);
    proof {
        if ok {
            let i = index_of(old(match_repo).sessions_spec(), match_id)->0;
            assert(started(
                old(match_repo).sessions_spec()[i],
                match_repo.sessions_spec()[i],
                p,
                GAME_TIME_LIMIT_MS,
                now,
            ));
        }
    }
    ok
}

/// What a request for the state of the match `match_id` by `user_id` at
/// `now` gives, with the sessions `old` before and `new` after: for a user
/// in a match whose game has started, the view of `Game::view_for`, which
/// leaves the game as it is; otherwise nothing, and no change.
pub open spec fn state_request(
    old: Seq<GameSession>,
    new: Seq<GameSession>,
    user_id: u128,
    match_id: u128,
    now: u64,
    r: Option<GameView>,
) -> bool {
    match index_of(old, match_id) {
        Some(i) => match (player_of(old[i].meta, user_id), old[i].game) {
            (Some(player), Some(g)) => r matches Some(v) && {
                &&& replaced_at(old, new, i)
                &&& new[i].meta == old[i].meta
                &&& new[i].last_activity_at == old[i].last_activity_at
                &&& new[i].game matches Some(h) && view_call(g, h, player, now, v)
            },
            _ => r is None && new == old,
        },
        None => r is None && new == old,
    }
}

/// `view` is what `Game::view_for` gives of `before` for `player` at `now`,
/// leaving the game as `after`.
pub open spec fn view_call(before: Game, after: Game, player: PlayerId, now: u64, view: GameView) -> bool {
    &&& after == before
    &&& view.revision == before.revision_spec()
    &&& view.state == before.state_spec()
    &&& view.givens@ == before.puzzle_spec().givens_spec()
    &&& view.current@ == before.player_spec(player).current@
    &&& view.mistakes_left == MAX_MISTAKES - before.player_spec(player).mistakes
    &&& view.remaining_time == remaining_spec(before.player_spec(player).time, now)
    &&& view.opponent_progress == Some(
        OpponentProgress {
            filled: known_cells(before.player_spec(other_player(player)).current@, 81) as u8,
            mistakes_left: (MAX_MISTAKES - before.player_spec(other_player(player)).mistakes) as u8,
            remaining_time: remaining_spec(before.player_spec(other_player(player)).time, now),
        },
    )
}

/// What `user_id` sees of the game of the match at `now`.
pub fn get_match_state_for_user_at(
    match_repo: &mut MatchRepository,
    user_id: u128,
    match_id: u128,
    now: u64,
) -> (r: Option<GameView>)
    requires
        old(match_repo).wf(),
    ensures
        final(match_repo).wf(),
        state_request(old(match_repo).sessions_spec(), final(match_repo).sessions_spec(), user_id, match_id, now, r),
{
    let ghost old_sessions = match_repo.sessions_spec();
    let ghost i = index_of(old_sessions, match_id)->0;
    let session = match match_repo.find_session_by_id_mut(match_id) {
        Some(s) => s,
        None => {
            return None;
        },
    };
    proof {
        assert(old_sessions[i].wf());
        lemma_update_same(old_sessions, i);
    }
    let player = match session.player_for_user(user_id) {
        Some(p) => p,
        None => {
            return None;
        },
    };
    let r = match &mut session.game {
        Some(game) => Some(game.view_for(player, now)),
        None => None,
    };
    proof {
        lemma_replaced_wf(old_sessions, match_repo.sessions_spec(), i);
    }
    r
}

/// What `user_id` sees of the game of the match now.
pub fn get_match_state_for_user(match_repo: &mut MatchRepository, user_id: u128, match_id: u128) -> (r:
    Option<GameView>)
    requires
        old(match_repo).wf(),
    ensures
        final(match_repo).wf(),
        exists|now: u64|
            #[trigger] state_request(
                old(match_repo).sessions_spec(),
                final(match_repo).sessions_spec(),
                user_id,
                match_id,
                now,
                r,
            ),
{
    let now = now_millis();
    get_match_state_for_user_at(match_repo, user_id, match_id, now)
}

/// What a move `mv` by `user_id` on the match `match_id`, who last saw
/// `expected_revision`, gives at `now`, with the sessions `old` before and
/// `new` after: for a user in a match whose game has started, the outcome
/// of `Game::apply_move` and the view of `Game::view_for` after it;
/// otherwise nothing, and no change.
pub open spec fn move_request(
    old: Seq<GameSession>,
    new: Seq<GameSession>,
    user_id: u128,
    match_id: u128,
    expected_revision: u64,
    mv: Move,
    now: u64,
    r: Option<(MoveOutcome, GameView)>,
) -> bool {
    match index_of(old, match_id) {
        Some(i) => match (player_of(old[i].meta, user_id), old[i].game) {
            (Some(player), Some(g)) => r matches Some((outcome, view)) && {
                &&& replaced_at(old, new, i)
                &&& new[i].meta == old[i].meta
                &&& new[i].game matches Some(h) && exists|moved: Game|
                    #[trigger] move_result(g, moved, player, expected_revision, mv, outcome) && view_call(
                        moved,
                        h,
                        player,
                        now,
                        view,
                    )
            },
            _ => r is None && new == old,
        },
        None => r is None && new == old,
    }
}

/// Plays the move `mv` of `user_id` on the match at `now`.
pub fn apply_move_for_user_at(
    match_repo: &mut MatchRepository,
    user_id: u128,
    match_id: u128,
    expected_revision: u64,
    mv: Move,
    now: u64,
) -> (r: Option<(MoveOutcome, GameView)>)
    requires
        old(match_repo).wf(),
        revision_room(*old(match_repo), match_id),
    ensures
        final(match_repo).wf(),
        move_request(
            old(match_repo).sessions_spec(),
            final(match_repo).sessions_spec(),
            user_id,
            match_id,
            expected_revision,
            mv,
            now,
            r,
        ),
{
    let ghost old_sessions = match_repo.sessions_spec();
    let ghost i = index_of(old_sessions, match_id)->0;
    let session = match match_repo.find_session_by_id_mut(match_id) {
        Some(s) => s,
        None => {
            return None;
        },
    };
    proof {
        assert(old_sessions[i].wf());
        lemma_update_same(old_sessions, i);
    }
    let player = match session.player_for_user(user_id) {
        Some(p) => p,
        None => {
            return None;
        },
    };
    let r = match &mut session.game {
        Some(game) => {
            let ghost g0 = *game;
            let outcome = game.apply_move(player, expected_revision, mv, now);
            let ghost moved = *game;
            let view = game.view_for(player, now);
            proof {
                assert(move_result(g0, moved, player, expected_revision, mv, outcome));
            }
            Some((outcome, view))
        },
        None => None,
    };
    if r.is_some() {
        session.touch();
    }
    proof {
        lemma_replaced_wf(old_sessions, match_repo.sessions_spec(), i);
    }
    r
}

/// Plays the move `mv` of `user_id` on the match now.
pub fn apply_move_for_user(
    match_repo: &mut MatchRepository,
    user_id: u128,
    match_id: u128,
    expected_revision: u64,
    mv: Move,
) -> (r: Option<(MoveOutcome, GameView)>)
    requires
        old(match_repo).wf(),
        revision_room(*old(match_repo), match_id),
    ensures
        final(match_repo).wf(),
        exists|now: u64|
            #[trigger] move_request(
                old(match_repo).sessions_spec(),
                final(match_repo).sessions_spec(),
                user_id,
                match_id,
                expected_revision,
                mv,
                now,
                r,
            ),
{
    let now = now_millis();
    apply_move_for_user_at(match_repo, user_id, match_id, expected_revision, mv, now)
}

} // verus!
