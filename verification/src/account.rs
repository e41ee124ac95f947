//! A simulated mailbox account: a login / secret pair, passed by value into
//! exactly one sender worker and at most one IDLE worker.
use vstd::prelude::*;

verus! {

/// A `(login, secret)` pair identifying a simulated mailbox.
#[derive(Clone, Debug, PartialEq, Eq)]
pub struct MailAccount {
    pub user: String,
    pub password: String,
}

impl MailAccount {
    pub fn new(user: &str, password: &str) -> (r: Self)
        ensures
            r.user@ == user@,
            r.password@ == password@,
    {
        Self { user: user.to_owned(), password: password.to_owned() }
    }
}

} // verus!
