use vstd::prelude::*;

verus! {

/// The identifier of a created match.
#[derive(Clone, Debug)]
pub struct CreateMatchResponse {
    pub match_id: String,
}

#[derive(Clone, Debug)]
pub struct JoinMatchRequest {
    pub match_id: String,
}

#[derive(Clone, Copy, Debug)]
pub struct JoinMatchResponse {
    pub ok: bool,
}

/// Who is in a match and where it stands, identifiers as text.
#[derive(Clone, Debug)]
pub struct MatchInfoResponse {
    pub match_id: String,
    pub status: String,
    pub player1_id: String,
    pub player2_id: Option<String>,
}

#[derive(Clone, Debug)]
pub struct LeaveMatchRequest {
    pub match_id: String,
}

#[derive(Clone, Copy, Debug)]
pub struct LeaveMatchResponse {
    pub ok: bool,
}

#[derive(Clone, Debug)]
pub struct StartMatchRequest {
    pub match_id: String,
}

#[derive(Clone, Copy, Debug)]
pub struct StartMatchResponse {
    pub ok: bool,
}

} // verus!
