use vstd::prelude::*;

use crate::game_match::model::GameMatch;
use crate::match_state::GameSession;

verus! {

/// The sessions of all open matches, in no particular order.
pub struct MatchRepository {
    sessions: Vec<GameSession>,
}

/// The position of the first session of the match `id`, if any.
pub open spec fn index_of(sessions: Seq<GameSession>, id: u128) -> Option<int> {
    if exists|i: int| 0 <= i < sessions.len() && #[trigger] sessions[i].meta.id == id {
        Some(
            choose|i: int|
                0 <= i < sessions.len() && #[trigger] sessions[i].meta.id == id && forall|j: int|
                    0 <= j < i ==> sessions[j].meta.id != id,
        )
    } else {
        None
    }
}

/// The first position `i` holds `id` and no earlier one does.
pub open spec fn first_with(sessions: Seq<GameSession>, id: u128, i: int) -> bool {
    &&& 0 <= i < sessions.len()
    &&& sessions[i].meta.id == id
    &&& forall|j: int| 0 <= j < i ==> #[trigger] sessions[j].meta.id != id
}

/// The first position that holds `id` is the one `index_of` gives.
pub proof fn lemma_index_of(sessions: Seq<GameSession>, id: u128, i: int)
    requires
        first_with(sessions, id, i),
    ensures
        index_of(sessions, id) == Some(i),
{
    let k = choose|k: int|
        0 <= k < sessions.len() && #[trigger] sessions[k].meta.id == id && forall|j: int|
            0 <= j < k ==> sessions[j].meta.id != id;
    assert(sessions[i].meta.id == id);
    assert(0 <= k < sessions.len() && sessions[k].meta.id == id && forall|j: int|
        0 <= j < k ==> sessions[j].meta.id != id);
    if k < i {
        assert(sessions[k].meta.id != id);
    }
    if i < k {
        assert(sessions[i].meta.id != id);
    }
}

/// Whether the game of the match `match_id`, if it has one, may still
/// count one more revision.
pub open spec fn revision_room(repo: MatchRepository, match_id: u128) -> bool {
    match repo.session_spec(match_id) {
        Some(s) => s.game matches Some(g) ==> g.revision_spec() < u64::MAX,
        None => true,
    }
}

impl MatchRepository {
    pub closed spec fn sessions_spec(&self) -> Seq<GameSession> {
        self.sessions@
    }

    /// Every session's game keeps the rules of a game.
    pub open spec fn wf(&self) -> bool {
        forall|i: int| 0 <= i < self.sessions_spec().len() ==> #[trigger] self.sessions_spec()[i].wf()
    }

    /// The session of the match `id`, if there is one.
    pub open spec fn session_spec(&self, id: u128) -> Option<GameSession> {
        match index_of(self.sessions_spec(), id) {
            Some(i) => Some(self.sessions_spec()[i]),
            None => None,
        }
    }

    /// An empty repository.
    pub fn new() -> (r: Self)
        ensures
            r.wf(),
            r.sessions_spec() == Seq::<GameSession>::empty(),
    {
        MatchRepository { sessions: Vec::new() }
    }

    /// Adds a session for the match, without a game.
    pub fn add_match(&mut self, m: GameMatch)
        ensures
            final(self).sessions_spec().len() == old(self).sessions_spec().len() + 1,
            final(self).sessions_spec().drop_last() == old(self).sessions_spec(),
            final(self).sessions_spec().last().meta == m,
            final(self).sessions_spec().last().game is None,
            old(self).wf() ==> final(self).wf(),
    {
        let s = GameSession::from_match(m);
        self.add_session(s);
    }

    /// Adds the session.
    pub fn add_session(&mut self, s: GameSession)
        ensures
            final(self).sessions_spec() == old(self).sessions_spec().push(s),
            old(self).wf() && s.wf() ==> final(self).wf(),
    {
        self.sessions.push(s);
        proof {
            if old(self).wf() && s.wf() {
                assert forall|i: int| 0 <= i < self.sessions@.len() implies #[trigger] self.sessions@[i].wf() by {
                    if i < old(self).sessions@.len() {
                        assert(self.sessions@[i] == old(self).sessions@[i]);
                    }
                }
            }
        }
    }

    /// The position of the session of the match `id`, if any.
    pub fn position(&self, id: u128) -> (r: Option<usize>)
        ensures
            match r {
                Some(i) => {
                    &&& first_with(self.sessions_spec(), id, i as int)
                    &&& index_of(self.sessions_spec(), id) == Some(i as int)
                },
                None => {
                    &&& index_of(self.sessions_spec(), id) is None
                    &&& forall|j: int|
                        0 <= j < self.sessions_spec().len() ==> #[trigger] self.sessions_spec()[j].meta.id
                            != id
                },
            },
    {
        let mut i: usize = 0;
        while i < self.sessions.len()
            invariant
                0 <= i <= self.sessions@.len(),
                forall|j: int| 0 <= j < i ==> #[trigger] self.sessions@[j].meta.id != id,
            decreases self.sessions@.len() - i,
        {
            if self.sessions[i].meta.id == id {
                proof {
                    lemma_index_of(self.sessions@, id, i as int);
                }
                return Some(i);
            }
            i = i + 1;
        }
        None
    }

    /// The match `id`, if there is one.
    pub fn find_by_id(&self, id: u128) -> (r: Option<&GameMatch>)
        ensures
            match self.session_spec(id) {
                Some(s) => r == Some(&s.meta),
                None => r is None,
            },
    {
        match self.position(id) {
            Some(i) => Some(&self.sessions[i].meta),
            None => None,
        }
    }

    /// The session of the match `id`, if there is one.
    pub fn find_session_by_id(&self, id: u128) -> (r: Option<&GameSession>)
        ensures
            match self.session_spec(id) {
                Some(s) => r == Some(&s),
                None => r is None,
            },
    {
        match self.position(id) {
            Some(i) => Some(&self.sessions[i]),
            None => None,
        }
    }

    /// The session of the match `id`, if there is one, to change in place.
    pub fn find_session_by_id_mut(&mut self, id: u128) -> (r: Option<&mut GameSession>)
        ensures
            match index_of(old(self).sessions_spec(), id) {
                Some(i) => r matches Some(s) && {
                    &&& first_with(old(self).sessions_spec(), id, i)
                    &&& *s == old(self).sessions_spec()[i]
                    &&& final(self).sessions_spec() == old(self).sessions_spec().update(i, *final(s))
                },
                None => r is None && final(self).sessions_spec() == old(self).sessions_spec(),
            },
    {
        match self.position(id) {
            Some(i) => Some(&mut self.sessions[i]),
            None => None,
        }
    }

    /// The match `id`, if there is one, to change in place.
    pub fn find_by_id_mut(&mut self, id: u128) -> (r: Option<&mut GameMatch>)
        ensures
            match index_of(old(self).sessions_spec(), id) {
                Some(i) => r matches Some(m) && {
                    &&& first_with(old(self).sessions_spec(), id, i)
                    &&& *m == old(self).sessions_spec()[i].meta
                    &&& final(self).sessions_spec() == old(self).sessions_spec().update(
                        i,
                        GameSession { meta: *final(m), ..old(self).sessions_spec()[i] },
                    )
                },
                None => r is None && final(self).sessions_spec() == old(self).sessions_spec(),
            },
    {
        match self.position(id) {
            Some(i) => Some(&mut self.sessions[i].meta),
            None => None,
        }
    }

    /// Whether the game of the match `id`, if it has one, may still count
    /// one more revision.
    pub fn has_revision_room(&self, id: u128) -> (r: bool)
        ensures
            r == revision_room(*self, id),
    {
        match self.find_session_by_id(id) {
            Some(s) => match &s.game {
                Some(g) => g.revision() < u64::MAX,
                None => true,
            },
            None => true,
        }
    }

    /// Removes the session of the match `id`; the last session takes its
    /// place. False, and nothing removed, when there is none.
    pub fn remove_match(&mut self, id: u128) -> (r: bool)
        ensures
            r == (index_of(old(self).sessions_spec(), id) is Some),
            match index_of(old(self).sessions_spec(), id) {
                Some(i) => {
                    let s = old(self).sessions_spec();
                    final(self).sessions_spec() == s.update(i, s.last()).drop_last()
                },
                None => final(self).sessions_spec() == old(self).sessions_spec(),
            },
            old(self).wf() ==> final(self).wf(),
    {
        match self.position(id) {
            Some(pos) => {
                self.sessions.swap_remove(pos);
                proof {
                    let o = old(self).sessions@;
                    if old(self).wf() {
                        assert forall|i: int| 0 <= i < self.sessions@.len() implies #[trigger] self.sessions@[i].wf() by {
                            if i == pos {
                                assert(self.sessions@[i] == o[o.len() - 1]);
                            } else {
                                assert(self.sessions@[i] == o[i]);
                            }
                        }
                    }
                }
                true
            },
            None => false,
        }
    }
}

} // verus!
