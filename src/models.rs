//! The plain records that travel between the coordinator, its callers and the
//! token store.
use vstd::prelude::*;

verus! {

/// A request to create or refresh tokens for a user's project at some sites.
pub struct TokenParams {
    pub user_id: String,
    pub project_id: String,
    pub bridgehead_ids: Vec<String>,
}

/// Identifies whose login script is wanted.
pub struct ScriptParams {
    pub project_id: String,
    pub user_id: String,
}

/// The body of a task, as the sites read it.
pub struct OpalRequest {
    pub request_type: String,
    pub name: Option<String>,
    pub project: Option<String>,
    pub token: Option<String>,
}

/// A stored token row.
pub struct TokenManager {
    pub id: i32,
    pub token_name: String,
    pub token: String,
    pub project_id: String,
    pub project_status: String,
    pub bk: String,
    pub token_status: String,
    pub user_id: String,
    pub token_created_at: String,
}

/// A token row to be written to the store.
pub struct NewToken {
    pub token_name: String,
    pub token: String,
    pub project_id: String,
    pub project_status: String,
    pub bk: String,
    pub token_status: String,
    pub user_id: String,
    pub token_created_at: String,
}

/// A change of token status for one user's project at one site.
pub struct TokenStatus {
    pub project_id: String,
    pub bk: String,
    pub token_status: String,
    pub user_id: String,
}

/// Identifies one user's token for a project at one site.
pub struct TokensQueryParams {
    pub user_id: String,
    pub bk: String,
    pub project_id: String,
}

/// Identifies a project at one site.
pub struct ProjectStatusQuery {
    pub bk: String,
    pub project_id: String,
}

/// A copy of a list of texts.
pub fn clone_texts(v: &Vec<String>) -> (r: Vec<String>)
    ensures
        r@ == v@,
{
    let r = v.clone();
    assert forall|i: int| 0 <= i < r.len() implies r[i] == v[i] by {
        assert(cloned(v[i], r[i]));
    }
    assert(r@ =~= v@);
    r
}

} // verus!
