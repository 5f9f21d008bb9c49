//! Users, their sessions, and what the API shows of them.

use crate::text::{decimal_i64, decimal_of, join2, join3, replace_char, replace_of};
use vstd::prelude::*;

verus! {

/// A user as stored.
#[derive(Clone, Debug, PartialEq, Eq)]
pub struct User {
    pub id: i32,
    pub github_id: i32,
    pub admin: bool,
    pub name: Option<String>,
    pub email: String,
    pub login: String,
    /// Seconds since the epoch.
    pub last_login: i64,
    /// Seconds since the epoch.
    pub created: i64,
}

/// A user as the API shows it.
#[derive(Clone, Debug, PartialEq, Eq)]
pub struct ApiUser {
    pub id: i32,
    pub github_id: i32,
    pub admin: bool,
    pub name: Option<String>,
    pub avatar: String,
    pub email: String,
    pub login: String,
}

/// A session of a user.
#[derive(Clone, Debug, PartialEq, Eq)]
pub struct UserSession {
    pub id: i32,
    /// The address that the session was last used from.
    pub ip: String,
    pub user_agent: String,
    /// Seconds since the epoch.
    pub last_used: i64,
    /// Seconds since the epoch.
    pub created: i64,
}

/// The text of an optional string.
pub open spec fn text_of(s: Option<String>) -> Option<Seq<char>> {
    match s {
        Some(s) => Some(s@),
        None => None,
    }
}

/// The address of the avatar of the GitHub account `github_id`.
pub open spec fn avatar_of(github_id: i32) -> Seq<char> {
    "https://avatars.githubusercontent.com/u/"@ + decimal_of(github_id as int)
}

impl User {
    /// The public face of the user. With `hide_email` the address is
    /// replaced by a fixed one.
    pub fn api_user(&self, hide_email: bool) -> (r: ApiUser)
        ensures
            r.id == self.id,
            r.github_id == self.github_id,
            r.admin == self.admin,
            text_of(r.name) == text_of(self.name),
            r.avatar@ == avatar_of(self.github_id),
            r.email@ == if hide_email {
                "hidden@email.com"@
            } else {
                self.email@
            },
            r.login@ == self.login@,
    {
        let name = match &self.name {
            Some(n) => Some(n.clone()),
            None => None,
        };
        let number = decimal_i64(self.github_id as i64);
        ApiUser {
            id: self.id,
            github_id: self.github_id,
            admin: self.admin,
            name,
            avatar: join2("https://avatars.githubusercontent.com/u/", number.as_str()),
            email: if hide_email {
                String::from_str("hidden@email.com")
            } else {
                self.email.clone()
            },
            login: self.login.clone(),
        }
    }
}

/// Seconds for which a user looked up by login stays cached.
pub const USER_TTL: u64 = 3600;

/// Seconds for which a user looked up by session stays cached.
pub const SESSION_TTL: u64 = 300;

/// The cache key of the user with this login.
pub fn user_key(login: &str) -> (r: String)
    ensures
        r@ == "user::"@ + login@,
{
    join2("user::", login)
}

/// The cache key of the user behind this session.
pub fn session_key(session: &str) -> (r: String)
    ensures
        r@ == "user::session::"@ + session@,
{
    join2("user::session::", session)
}

/// `login` as a pattern that matches only itself: a backslash goes before
/// every percent sign and every underscore.
pub open spec fn like_pattern_of(login: Seq<char>) -> Seq<char> {
    replace_of(replace_of(login, '%', "\\%"@), '_', "\\_"@)
}

/// `login` as a pattern that matches only itself, whatever the case of its
/// letters.
pub fn like_pattern(login: &str) -> (r: String)
    ensures
        r@ == like_pattern_of(login@),
{
    let first = replace_char(login, '%', "\\%");
    replace_char(first.as_str(), '_', "\\_")
}

/// One column of a query: its qualified name, and the name that it is
/// selected as.
#[derive(Clone, Debug, PartialEq, Eq)]
pub struct Column {
    pub name: String,
    pub alias: String,
}

/// The text of a prefix: empty if there is none.
pub open spec fn prefix_text(prefix: Option<&str>) -> Seq<char> {
    match prefix {
        Some(p) => p@,
        None => Seq::<char>::empty(),
    }
}

/// Whether `columns` selects `fields` from `table`, each under its own name
/// behind `prefix`, in order.
pub open spec fn selects(
    columns: Seq<Column>,
    fields: Seq<&str>,
    prefix: Seq<char>,
    table: Seq<char>,
) -> bool {
    &&& columns.len() == fields.len()
    &&& forall|i: int|
        0 <= i < fields.len() ==> (#[trigger] columns[i]).name@ == table + "."@ + fields[i]@
            && columns[i].alias@ == prefix + fields[i]@
}

fn columns_of(fields: &[&str], prefix: Option<&str>, table: &str) -> (r: Vec<Column>)
    ensures
        selects(r@, fields@, prefix_text(prefix), table@),
{
    let before: &str = match prefix {
        Some(p) => p,
        None => "",
    };
    proof {
        reveal_strlit("");
    }
    let mut r: Vec<Column> = Vec::with_capacity(fields.len());
    let mut i: usize = 0;
    while i < fields.len()
        invariant
            i <= fields.len(),
            before@ == prefix_text(prefix),
            selects(r@, fields@.take(i as int), before@, table@),
        decreases fields.len() - i,
    {
        r.push(Column { name: join3(table, ".", fields[i]), alias: join2(before, fields[i]) });
        i += 1;
    }
    assert(fields@.take(fields.len() as int) == fields@);
    r
}

/// The fields of a user, in the order of their qualified names.
pub open spec fn user_fields() -> Seq<&'static str> {
    seq!["admin", "created", "email", "github_id", "id", "last_login", "login", "name"]
}

/// The fields of a session, in the order of their qualified names.
pub open spec fn session_fields() -> Seq<&'static str> {
    seq!["created", "id", "ip", "last_used", "user_agent"]
}

/// The table that `table` names: `default` if it names none.
pub open spec fn table_text(table: Option<&str>, default: &str) -> Seq<char> {
    match table {
        Some(t) => t@,
        None => default@,
    }
}

impl User {
    /// The columns of a user in `table` (`users` if none is given), each
    /// selected under its own name behind `prefix`, in the order of the
    /// qualified names.
    pub fn columns(prefix: Option<&str>, table: Option<&str>) -> (r: Vec<Column>)
        ensures
            selects(r@, user_fields(), prefix_text(prefix), table_text(table, "users")),
    {
        let table: &str = match table {
            Some(t) => t,
            None => "users",
        };
        let fields: [&str; 8] = [
            "admin",
            "created",
            "email",
            "github_id",
            "id",
            "last_login",
            "login",
            "name",
        ];
        assert(fields@ =~= user_fields());
        columns_of(fields.as_slice(), prefix, table)
    }
}

impl UserSession {
    /// The columns of a session in `table` (`user_sessions` if none is
    /// given), each selected under its own name behind `prefix`, in the order
    /// of the qualified names.
    pub fn columns(prefix: Option<&str>, table: Option<&str>) -> (r: Vec<Column>)
        ensures
            selects(r@, session_fields(), prefix_text(prefix), table_text(table, "user_sessions")),
    {
        let table: &str = match table {
            Some(t) => t,
            None => "user_sessions",
        };
        let fields: [&str; 5] = ["created", "id", "ip", "last_used", "user_agent"];
        assert(fields@ =~= session_fields());
        columns_of(fields.as_slice(), prefix, table)
    }

    /// The session after it was used from `ip` by `user_agent` (empty if the
    /// request named none).
    pub fn touch(self, ip: String, user_agent: Option<&str>) -> (r: UserSession)
        ensures
            r.id == self.id,
            r.ip == ip,
            r.user_agent@ == prefix_text(user_agent),
            r.last_used == self.last_used,
            r.created == self.created,
    {
        let agent: &str = match user_agent {
            Some(a) => a,
            None => "",
        };
        proof {
            reveal_strlit("");
        }
        UserSession {
            id: self.id,
            ip,
            user_agent: String::from_str(agent),
            last_used: self.last_used,
            created: self.created,
        }
    }
}

} // verus!
