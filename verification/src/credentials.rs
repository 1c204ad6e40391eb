//! Mailbox account settings and the fetch-range builder.

use vstd::prelude::*;
use vstd::string::StringExecFns;

verus! {

/// Connection settings for one mailbox account, with the identifier range to
/// fetch.
#[derive(Debug, Clone)]
pub struct EmailAccountBuilder {
    pub server: String,
    pub port: u16,
    pub email: String,
    pub password: String,
    pub uid_set: String,
}

impl EmailAccountBuilder {
    /// A new account that retrieves every message (`1:*`) by default.
    pub fn new(server: &str, port: u16, email: &str, password: &str) -> (r: Self)
        ensures
            r.server@ == server@,
            r.port == port,
            r.email@ == email@,
            r.password@ == password@,
            (r.uid_set@ == "1:*"@),
    {
        EmailAccountBuilder {
            server: server.to_owned(),
            port,
            email: email.to_owned(),
            password: password.to_owned(),
            uid_set: String::from_str("1:*"),
        }
    }

    /// The same account with another identifier range.
    pub fn uid_set(self, uid_set: &str) -> (r: Self)
        ensures
            r.server == self.server,
            r.port == self.port,
            r.email == self.email,
            r.password == self.password,
            r.uid_set@ == uid_set@,
    {
        EmailAccountBuilder {
            server: self.server,
            port: self.port,
            email: self.email,
            password: self.password,
            uid_set: uid_set.to_owned(),
        }
    }

    /// Finishes building: the account exactly as configured.
    pub fn build(self) -> (r: Self)
        ensures
            r == self,
    {
        EmailAccountBuilder {
            server: self.server,
            port: self.port,
            email: self.email,
            password: self.password,
            uid_set: self.uid_set,
        }
    }
}

impl PartialEq for EmailAccountBuilder {
    fn eq(&self, other: &Self) -> (r: bool) {
        self.server == other.server && self.port == other.port && self.email == other.email
            && self.password == other.password && self.uid_set == other.uid_set
    }
}

impl vstd::std_specs::cmp::PartialEqSpecImpl for EmailAccountBuilder {
    open spec fn obeys_eq_spec() -> bool {
        true
    }

    open spec fn eq_spec(&self, other: &Self) -> bool {
        self.server@ == other.server@ && self.port == other.port && self.email@ == other.email@
            && self.password@ == other.password@ && self.uid_set@ == other.uid_set@
    }
}

impl Default for EmailAccountBuilder {
    /// Empty settings: empty strings and port 0.
    fn default() -> (r: Self)
        ensures
            (r.server@ == Seq::<char>::empty()),
            r.port == 0,
            (r.email@ == Seq::<char>::empty()),
            (r.password@ == Seq::<char>::empty()),
            (r.uid_set@ == Seq::<char>::empty()),
    {
        EmailAccountBuilder {
            server: String::new(),
            port: 0,
            email: String::new(),
            password: String::new(),
            uid_set: String::new(),
        }
    }
}

} // verus!
