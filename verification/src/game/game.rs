use vstd::prelude::*;

use crate::game::outcome::{AppliedMove, MoveOutcome, PenaltyReason, RejectReason};
use crate::game::player::{other_player, PlayerId, PlayerState, MAX_MISTAKES};
use crate::game::player_move::Move;
use crate::game::puzzle::Puzzle;
use crate::game::state::{GameState, LoseReason};
use crate::game::time::remaining_spec;
use crate::game::view::{GameView, OpponentProgress};
use crate::layout::grid::{known_cells, lemma_grid_shape, Grid};
use crate::layout::value::Value;

verus! {

broadcast use lemma_grid_shape;

/// A game of two players racing to solve the same puzzle.
#[derive(Clone, Debug)]
pub struct Game {
    puzzle: Puzzle,
    player_a: PlayerState,
    player_b: PlayerState,
    state: GameState,
    revision: u64,
    start_at: Option<u64>,
}

/// Why a move is turned down, if it is: `None` for a move that is played.
pub open spec fn move_rejection(g: Game, expected_revision: u64, mv: Move) -> Option<RejectReason> {
    if !(g.state_spec() is InProgress) {
        Some(RejectReason::NotInProgress)
    } else if expected_revision != g.revision_spec() {
        Some(RejectReason::RevisionMismatch { expected: expected_revision, actual: g.revision_spec() })
    } else {
        match mv {
            Move::Clear { cell } => if g.puzzle_spec().givens_spec()[cell@ as int] != 0 {
                Some(RejectReason::GivenCell)
            } else {
                None
            },
            Move::Place { cell, value } => if g.puzzle_spec().givens_spec()[cell@ as int] != 0 {
                Some(RejectReason::GivenCell)
            } else if value@ == 0 {
                Some(RejectReason::InvalidValue)
            } else {
                None
            },
        }
    }
}

/// A player's mistake count after one more mistake.
pub open spec fn mistakes_after(m: u8) -> u8 {
    if m < MAX_MISTAKES {
        (m + 1) as u8
    } else {
        m
    }
}

/// The grid keeps every given digit of the puzzle.
pub open spec fn keeps_givens(current: Seq<nat>, givens: Seq<nat>) -> bool {
    forall|i: int| 0 <= i < 81 && givens[i] != 0 ==> #[trigger] current[i] == givens[i]
}

/// Writing into a cell that is not given keeps the givens.
proof fn lemma_update_keeps_givens(current: Seq<nat>, givens: Seq<nat>, c: int, v: nat)
    requires
        keeps_givens(current, givens),
        current.len() == 81,
        0 <= c < 81,
        givens[c] == 0,
    ensures
        keeps_givens(current.update(c, v), givens),
{
    assert forall|i: int| 0 <= i < 81 && givens[i] != 0 implies #[trigger] current.update(c, v)[i]
        == givens[i] by {
        assert(i != c);
        assert(current[i] == givens[i]);
    }
}

/// What playing `mv` for `player`, who last saw `expected_revision`, does
/// to the game `g0`, leaving `g1` and answering `r`.
pub open spec fn move_result(g0: Game, g1: Game, player: PlayerId, expected_revision: u64, mv: Move, r: MoveOutcome) -> bool {
    match move_rejection(g0, expected_revision, mv) {
        Some(reason) => {
            &&& r == MoveOutcome::Rejected { reason }
            &&& g1 == g0
        },
        None => {
            let rev = (g0.revision_spec() + 1) as u64;
            let before = g0.player_spec(player);
            let after = g1.player_spec(player);
            &&& g1.revision_spec() == rev
            &&& g1.puzzle_spec() == g0.puzzle_spec()
            &&& g1.start_at_spec() == g0.start_at_spec()
            &&& same_player(g1, g0, other_player(player))
            &&& after.time == before.time
            &&& match mv {
                Move::Clear { cell } => {
                    &&& after.mistakes == before.mistakes
                    &&& after.current@ == before.current@.update(cell@ as int, 0)
                    &&& g1.state_spec() == g0.state_spec()
                    &&& r == MoveOutcome::Applied { revision: rev, applied: AppliedMove::Cleared }
                },
                Move::Place { cell, value } => if g0.puzzle_spec().solution_spec()[cell@ as int] != value@ {
                    let m = mistakes_after(before.mistakes);
                    &&& after.mistakes == m
                    &&& after.current@ == before.current@
                    &&& if m >= MAX_MISTAKES {
                        &&& g1.state_spec() == GameState::Lost {
                            loser: player,
                            winner: other_player(player),
                            reason: LoseReason::TooManyMistakes,
                        }
                        &&& r == MoveOutcome::Lost {
                            revision: rev,
                            reason: LoseReason::TooManyMistakes,
                        }
                    } else {
                        &&& g1.state_spec() == g0.state_spec()
                        &&& r == MoveOutcome::Penalty {
                            reason: PenaltyReason::WrongValue,
                            mistakes_left: (MAX_MISTAKES - m) as u8,
                            revision: rev,
                        }
                    }
                } else {
                    &&& after.mistakes == before.mistakes
                    &&& after.current@ == before.current@.update(cell@ as int, value@)
                    &&& if after.current@ == g0.puzzle_spec().solution_spec() {
                        &&& g1.state_spec() == GameState::Won { player }
                        &&& r == MoveOutcome::Won { revision: rev }
                    } else {
                        &&& g1.state_spec() == g0.state_spec()
                        &&& r == MoveOutcome::Applied { revision: rev, applied: AppliedMove::Placed }
                    }
                },
            }
        },
    }
}

/// The player's state is the same in both games.
pub open spec fn same_player(a: Game, b: Game, p: PlayerId) -> bool {
    &&& a.player_spec(p).mistakes == b.player_spec(p).mistakes
    &&& a.player_spec(p).time == b.player_spec(p).time
    &&& a.player_spec(p).current@ == b.player_spec(p).current@
}

impl Game {
    pub closed spec fn puzzle_spec(&self) -> Puzzle {
        self.puzzle
    }

    pub closed spec fn player_spec(&self, p: PlayerId) -> PlayerState {
        match p {
            PlayerId::PlayerA => self.player_a,
            PlayerId::PlayerB => self.player_b,
        }
    }

    pub closed spec fn state_spec(&self) -> GameState {
        self.state
    }

    pub closed spec fn revision_spec(&self) -> u64 {
        self.revision
    }

    pub closed spec fn start_at_spec(&self) -> Option<u64> {
        self.start_at
    }

    /// What every game keeps: mistakes stay within the maximum, and below
    /// it while the game is open; the players' grids keep the givens; a
    /// won game's winner holds the solution; a lost game's winner is the
    /// other player, and a loss by mistakes comes with the maximum of them.
    pub open spec fn wf(&self) -> bool {
        &&& self.player_spec(PlayerId::PlayerA).mistakes <= MAX_MISTAKES
        &&& self.player_spec(PlayerId::PlayerB).mistakes <= MAX_MISTAKES
        &&& (self.state_spec() is Waiting || self.state_spec() is InProgress) ==> {
            &&& self.player_spec(PlayerId::PlayerA).mistakes < MAX_MISTAKES
            &&& self.player_spec(PlayerId::PlayerB).mistakes < MAX_MISTAKES
        }
        &&& keeps_givens(
            self.player_spec(PlayerId::PlayerA).current@,
            self.puzzle_spec().givens_spec(),
        )
        &&& keeps_givens(
            self.player_spec(PlayerId::PlayerB).current@,
            self.puzzle_spec().givens_spec(),
        )
        &&& (self.state_spec() matches GameState::Won { player } ==> self.player_spec(
            player,
        ).current@ == self.puzzle_spec().solution_spec())
        &&& (self.state_spec() matches GameState::Lost { loser, winner, reason } ==> {
            &&& winner == other_player(loser)
            &&& (reason is TooManyMistakes ==> self.player_spec(loser).mistakes == MAX_MISTAKES)
        })
    }

    /// A game that waits for its start; both players begin with the givens,
    /// no mistakes and a clock of `time_limit` milliseconds.
    pub fn new(puzzle: Puzzle, time_limit: u64) -> (r: Self)
        ensures
            r.wf(),
            r.puzzle_spec() == puzzle,
            r.state_spec() == GameState::Waiting,
            r.revision_spec() == 0,
            r.start_at_spec() is None,
            r.player_spec(PlayerId::PlayerA).mistakes == 0,
            r.player_spec(PlayerId::PlayerB).mistakes == 0,
            r.player_spec(PlayerId::PlayerA).time.limit == time_limit,
            r.player_spec(PlayerId::PlayerB).time.limit == time_limit,
            r.player_spec(PlayerId::PlayerA).time.started_at is None,
            r.player_spec(PlayerId::PlayerB).time.started_at is None,
            r.player_spec(PlayerId::PlayerA).current@ == puzzle.givens_spec(),
            r.player_spec(PlayerId::PlayerB).current@ == puzzle.givens_spec(),
    {
        let player_a = PlayerState::new(&puzzle, time_limit);
        let player_b = PlayerState::new(&puzzle, time_limit);
        Game { puzzle, player_a, player_b, state: GameState::Waiting, revision: 0, start_at: None }
    }

    pub fn state(&self) -> (r: &GameState)
        ensures
            *r == self.state_spec(),
    {
        &self.state
    }

    pub fn revision(&self) -> (r: u64)
        ensures
            r == self.revision_spec(),
    {
        self.revision
    }

    pub fn start_at(&self) -> (r: Option<u64>)
        ensures
            r == self.start_at_spec(),
    {
        self.start_at
    }

    pub fn puzzle(&self) -> (r: &Puzzle)
        ensures
            *r == self.puzzle_spec(),
    {
        &self.puzzle
    }

    pub fn player(&self, player: PlayerId) -> (r: &PlayerState)
        ensures
            *r == self.player_spec(player),
    {
        match player {
            PlayerId::PlayerA => &self.player_a,
            PlayerId::PlayerB => &self.player_b,
        }
    }

    /// The player's state, to change in place.
    pub fn player_mut(&mut self, player: PlayerId) -> (r: &mut PlayerState)
        ensures
            *r == old(self).player_spec(player),
            final(self).player_spec(player) == *final(r),
            final(self).player_spec(other_player(player)) == old(self).player_spec(
                other_player(player),
            ),
            final(self).puzzle_spec() == old(self).puzzle_spec(),
            final(self).state_spec() == old(self).state_spec(),
            final(self).revision_spec() == old(self).revision_spec(),
            final(self).start_at_spec() == old(self).start_at_spec(),
    {
        match player {
            PlayerId::PlayerA => &mut self.player_a,
            PlayerId::PlayerB => &mut self.player_b,
        }
    }

    /// Opens the game at `now`: a waiting game goes in progress and both
    /// clocks start; any other game is left as it is.
    pub fn start(&mut self, now: u64)
        requires
            old(self).state_spec() is Waiting ==> old(self).revision_spec() < u64::MAX,
        ensures
            old(self).wf() ==> final(self).wf(),
            start_result(*old(self), *final(self), now),
    {
        if let GameState::Waiting = self.state {
            self.state = GameState::InProgress;
            self.start_at = Some(now);
            self.player_a.time.start(now);
            self.player_b.time.start(now);
            self.revision = self.revision + 1;
        }
    }

    fn set_win(&mut self, player: PlayerId)
        requires
            old(self).revision < u64::MAX,
        ensures
            *final(self) == (Game {
                state: GameState::Won { player },
                revision: (old(self).revision + 1) as u64,
                ..*old(self)
            }),
    {
        self.state = GameState::Won { player };
        self.revision = self.revision + 1;
    }

    fn set_loss(&mut self, loser: PlayerId, reason: LoseReason)
        requires
            old(self).revision < u64::MAX,
        ensures
            *final(self) == (Game {
                state: GameState::Lost { loser, winner: other_player(loser), reason },
                revision: (old(self).revision + 1) as u64,
                ..*old(self)
            }),
    {
        let winner = loser.opponent();
        self.state = GameState::Lost { loser, winner, reason };
        self.revision = self.revision + 1;
    }

    /// Plays `mv` for `player`, who last saw revision `expected_revision`.
    /// A move on a game not in progress, on a stale revision, on a given
    /// cell or with no digit is turned down and changes nothing. Every
    /// other move raises the revision by one: clearing empties the cell; a
    /// wrong digit costs a mistake, and the last allowed mistake loses the
    /// game; a right digit is written, and completing the solution wins.
    pub fn apply_move(&mut self, player: PlayerId, expected_revision: u64, mv: Move, now: u64) -> (r:
        MoveOutcome)
        requires
            move_rejection(*old(self), expected_revision, mv) is None ==> old(self).revision_spec()
                < u64::MAX,
            move_rejection(*old(self), expected_revision, mv) is None && (mv matches Move::Place { cell, value }
                && old(self).puzzle_spec().solution_spec()[cell@ as int] != value@) ==> old(self).player_spec(
                player,
            ).mistakes <= MAX_MISTAKES,
        ensures
            old(self).wf() ==> final(self).wf(),
            move_result(*old(self), *final(self), player, expected_revision, mv, r),
    {
        if !matches!(self.state, GameState::InProgress) {
            return MoveOutcome::Rejected { reason: RejectReason::NotInProgress };
        }
        if expected_revision != self.revision {
            return MoveOutcome::Rejected {
                reason: RejectReason::RevisionMismatch { expected: expected_revision, actual: self.revision },
            };
        }
        let expired = match player {
            PlayerId::PlayerA => self.player_a.time.is_expired(now),
            PlayerId::PlayerB => self.player_b.time.is_expired(now),
        };
        if expired {
            self.set_loss(player, LoseReason::TimeExpired);
            return MoveOutcome::Lost { revision: self.revision, reason: LoseReason::TimeExpired };
        }
        match mv {
            Move::Clear { cell } => {
                let _index: u8 = cell.index();
                if self.puzzle.is_given(cell) {
                    return MoveOutcome::Rejected { reason: RejectReason::GivenCell };
                }
                match player {
                    PlayerId::PlayerA => self.player_a.current.set(cell, Value::unknown()),
                    PlayerId::PlayerB => self.player_b.current.set(cell, Value::unknown()),
                }
                proof {
                    if old(self).wf() {
                        lemma_update_keeps_givens(
                            old(self).player_spec(player).current@,
                            self.puzzle.givens_spec(),
                            cell@ as int,
                            0,
                        );
                    }
                }
                self.revision = self.revision + 1;
                MoveOutcome::Applied { revision: self.revision, applied: AppliedMove::Cleared }
            },
            Move::Place { cell, value } => {
                let _index: u8 = cell.index();
                if self.puzzle.is_given(cell) {
                    return MoveOutcome::Rejected { reason: RejectReason::GivenCell };
                }
                if !value.is_known() {
                    return MoveOutcome::Rejected { reason: RejectReason::InvalidValue };
                }
                if !self.puzzle.is_correct_value(cell, value) {
                    let (lost, mistakes_left) = match player {
                        PlayerId::PlayerA => {
                            let lost = self.player_a.register_mistake();
                            (lost, self.player_a.mistakes_left())
                        },
                        PlayerId::PlayerB => {
                            let lost = self.player_b.register_mistake();
                            (lost, self.player_b.mistakes_left())
                        },
                    };
                    if lost {
                        self.set_loss(player, LoseReason::TooManyMistakes);
                        return MoveOutcome::Lost {
                            revision: self.revision,
                            reason: LoseReason::TooManyMistakes,
                        };
                    }
                    self.revision = self.revision + 1;
                    return MoveOutcome::Penalty {
                        reason: PenaltyReason::WrongValue,
                        mistakes_left,
                        revision: self.revision,
                    };
                }
                proof {
                    if old(self).wf() {
                        lemma_update_keeps_givens(
                            old(self).player_spec(player).current@,
                            self.puzzle.givens_spec(),
                            cell@ as int,
                            value@,
                        );
                    }
                }
                let solved = match player {
                    PlayerId::PlayerA => {
                        self.player_a.current.set(cell, value);
                        self.player_a.current.same_as(self.puzzle.solution())
                    },
                    PlayerId::PlayerB => {
                        self.player_b.current.set(cell, value);
                        self.player_b.current.same_as(self.puzzle.solution())
                    },
                };
                if solved {
                    self.set_win(player);
                    return MoveOutcome::Won { revision: self.revision };
                }
                self.revision = self.revision + 1;
                MoveOutcome::Applied { revision: self.revision, applied: AppliedMove::Placed }
            },
        }
    }

    /// What `player` sees as of `now`: the shared revision and state, the
    /// givens, the player's own grid, mistakes and clock, and the
    /// opponent's number of filled cells, mistakes and clock.
    pub fn view_for(&mut self, player: PlayerId, now: u64) -> (r: GameView)
        requires
            old(self).player_spec(PlayerId::PlayerA).mistakes <= MAX_MISTAKES,
            old(self).player_spec(PlayerId::PlayerB).mistakes <= MAX_MISTAKES,
        ensures
            *final(self) == *old(self),
            r.revision == old(self).revision_spec(),
            r.state == old(self).state_spec(),
            r.givens@ == old(self).puzzle_spec().givens_spec(),
            r.current@ == old(self).player_spec(player).current@,
            r.mistakes_left == MAX_MISTAKES - old(self).player_spec(player).mistakes,
            r.remaining_time == remaining_spec(old(self).player_spec(player).time, now),
            r.opponent_progress == Some(
                OpponentProgress {
                    filled: known_cells(old(self).player_spec(other_player(player)).current@, 81) as u8,
                    mistakes_left: (MAX_MISTAKES - old(self).player_spec(
                        other_player(player),
                    ).mistakes) as u8,
                    remaining_time: remaining_spec(
                        old(self).player_spec(other_player(player)).time,
                        now,
                    ),
                },
            ),
    {
        let opponent = player.opponent();
        if matches!(self.state, GameState::InProgress) {
            if self.player(player).time.is_expired(now) && matches!(self.state, GameState::InProgress) {
                self.set_loss(player, LoseReason::TimeExpired);
            }
            if self.player(opponent).time.is_expired(now) && matches!(self.state, GameState::InProgress) {
                self.set_loss(opponent, LoseReason::TimeExpired);
            }
        }
        let p = self.player(player);
        let op = self.player(opponent);
        let opponent_progress = Some(
            OpponentProgress {
                filled: count_filled(&op.current),
                mistakes_left: op.mistakes_left(),
                remaining_time: op.time.remaining(now),
            },
        );
        GameView {
            revision: self.revision,
            state: self.state,
            givens: self.puzzle.givens().copy(),
            current: p.current.copy(),
            mistakes_left: p.mistakes_left(),
            remaining_time: p.time.remaining(now),
            opponent_progress,
        }
    }
}

/// Every move that is played raises the revision by exactly one; a move
/// that is turned down leaves it as it was.
pub proof fn lemma_revision_counts_moves(
    g0: Game,
    g1: Game,
    player: PlayerId,
    expected_revision: u64,
    mv: Move,
    r: MoveOutcome,
)
    requires
        move_result(g0, g1, player, expected_revision, mv, r),
        g0.revision_spec() < u64::MAX,
    ensures
        g1.revision_spec() == if move_rejection(g0, expected_revision, mv) is None {
            g0.revision_spec() + 1
        } else {
            g0.revision_spec() as int
        },
{
}

/// What starting the game `g0` at `now` gives: a waiting game goes in
/// progress at `now`, one revision on, with both clocks started and the
/// grids and mistakes kept; any other game is left as it is.
pub open spec fn start_result(g0: Game, g1: Game, now: u64) -> bool {
    &&& g1.puzzle_spec() == g0.puzzle_spec()
    &&& g0.state_spec() is Waiting ==> {
        &&& g1.state_spec() == GameState::InProgress
        &&& g1.start_at_spec() == Some(now)
        &&& g1.revision_spec() == g0.revision_spec() + 1
        &&& forall|p: PlayerId|
            {
                &&& #[trigger] g1.player_spec(p).mistakes == g0.player_spec(p).mistakes
                &&& g1.player_spec(p).current@ == g0.player_spec(p).current@
                &&& g1.player_spec(p).time.limit == g0.player_spec(p).time.limit
                &&& g1.player_spec(p).time.started_at == match g0.player_spec(p).time.started_at {
                    None => Some(now),
                    Some(s) => Some(s),
                }
            }
    }
    &&& !(g0.state_spec() is Waiting) ==> g1 == g0
}

/// Starting a game a second time leaves it as the first start did: a
/// started game no longer waits.
pub proof fn lemma_start_twice(g0: Game, g1: Game, g2: Game, t1: u64, t2: u64)
    requires
        start_result(g0, g1, t1),
        start_result(g1, g2, t2),
    ensures
        g2 == g1,
{
}

/// The revision a move's outcome reports, when it reports one.
pub open spec fn outcome_revision(r: MoveOutcome) -> Option<u64> {
    match r {
        MoveOutcome::Applied { revision, .. } => Some(revision),
        MoveOutcome::Rejected { .. } => None,
        MoveOutcome::Penalty { revision, .. } => Some(revision),
        MoveOutcome::Won { revision } => Some(revision),
        MoveOutcome::Lost { revision, .. } => Some(revision),
    }
}

/// A refused move leaves the game as it was; any other outcome raises the
/// revision by one and reports the new revision; and a won or lost game is
/// never left: every move on it is refused as not in progress.
pub proof fn lemma_move_outcome_revision(
    g0: Game,
    g1: Game,
    player: PlayerId,
    expected_revision: u64,
    mv: Move,
    r: MoveOutcome,
)
    requires
        move_result(g0, g1, player, expected_revision, mv, r),
        g0.revision_spec() < u64::MAX,
    ensures
        r is Rejected ==> g1 == g0,
        !(r is Rejected) ==> g1.revision_spec() == g0.revision_spec() + 1 && outcome_revision(r) == Some(
            g1.revision_spec(),
        ),
        g0.state_spec() is Won || g0.state_spec() is Lost ==> r == (MoveOutcome::Rejected {
            reason: RejectReason::NotInProgress,
        }) && g1 == g0,
{
}

/// A game that is not in progress (waiting, won or lost) turns down every
/// move, whoever plays it.
pub proof fn lemma_closed_game_rejects_moves(g: Game, expected_revision: u64, mv: Move)
    requires
        !(g.state_spec() is InProgress),
    ensures
        move_rejection(g, expected_revision, mv) == Some(RejectReason::NotInProgress),
{
}

/// A move on a revision other than the game's is turned down, unless the
/// game is closed, which turns it down first.
pub proof fn lemma_stale_revision_rejects_moves(g: Game, expected_revision: u64, mv: Move)
    requires
        g.state_spec() is InProgress,
        expected_revision != g.revision_spec(),
    ensures
        move_rejection(g, expected_revision, mv) == Some(
            RejectReason::RevisionMismatch { expected: expected_revision, actual: g.revision_spec() },
        ),
{
}

/// In every well-formed game, the winner's grid is the solution, and a
/// player who lost on mistakes made the maximum of them.
pub proof fn lemma_outcomes_are_earned(g: Game)
    requires
        g.wf(),
    ensures
        g.state_spec() matches GameState::Won { player } ==> g.player_spec(player).current@
            == g.puzzle_spec().solution_spec(),
        g.state_spec() matches GameState::Lost { loser, reason, .. } ==> (reason is TooManyMistakes
            ==> g.player_spec(loser).mistakes == MAX_MISTAKES),
{
}

/// How many cells of the grid hold a digit.
fn count_filled(grid: &Grid) -> (r: u8)
    ensures
        r == known_cells(grid@, 81),
{
    grid.known_count()
}

} // verus!
