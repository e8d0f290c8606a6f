use vstd::prelude::*;

verus! {

/// An account of a user.
pub struct User {
    pub active: bool,
    pub sign_in_count: u64,
    pub username: String,
    pub email: String,
}

/// A new, active account that has signed in once.
pub fn build_user(username: String, email: String) -> (r: User)
    ensures
        r.active,
        r.sign_in_count == 1,
        r.username == username,
        r.email == email,
{
    User { active: true, username, email, sign_in_count: 1 }
}

} // verus!
