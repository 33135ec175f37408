//! Kinds of user actions and the errors of action records.
use vstd::prelude::*;
use crate::text::same_text;

verus! {

#[derive(Clone, Debug, PartialEq, Eq)]
pub enum ActionType {
    Login,
    Logout,
    Search,
    View,
    Update,
    Delete,
    Custom(String),
}

impl ActionType {
    /// The action named `name`: `login`, `logout` and `search` are known,
    /// anything else is a custom action of that name.
    pub fn from_name(name: &str) -> (r: ActionType)
        ensures
            name@ == "login"@ ==> r is Login,
            name@ == "logout"@ ==> r is Logout,
            name@ == "search"@ ==> r is Search,
            name@ != "login"@ && name@ != "logout"@ && name@ != "search"@ ==> (r matches ActionType::Custom(s) && s@ == name@),
    {
        proof {
            reveal_strlit("login");
            reveal_strlit("logout");
            reveal_strlit("search");
            assert("logout"@[0] != "search"@[0]);
            assert("login"@.len() != "logout"@.len());
            assert("login"@.len() != "search"@.len());
        }
        if same_text(name, "login") {
            ActionType::Login
        } else if same_text(name, "logout") {
            ActionType::Logout
        } else if same_text(name, "search") {
            ActionType::Search
        } else {
            ActionType::Custom(name.to_owned())
        }
    }
}

#[derive(Clone, Debug)]
pub enum LogEntryError {
    EmptyUserId,
    NegativeDuration,
    InvalidTimestamp(String),
    ParseError(String),
}

} // verus!
