use api_core::user::{
    like_pattern, session_key, user_key, ApiUser, Column, User, UserSession, SESSION_TTL, USER_TTL,
};

fn alice() -> User {
    User {
        id: 3,
        github_id: 583231,
        admin: false,
        name: Some("Alice".to_string()),
        email: "alice@example.org".to_string(),
        login: "alice".to_string(),
        last_login: 1_700_000_100,
        created: 1_600_000_000,
    }
}

fn pairs(columns: Vec<Column>) -> Vec<(String, String)> {
    columns.into_iter().map(|c| (c.name, c.alias)).collect()
}

#[test]
fn public_face_of_a_user() {
    assert_eq!(
        alice().api_user(false),
        ApiUser {
            id: 3,
            github_id: 583231,
            admin: false,
            name: Some("Alice".to_string()),
            avatar: "https://avatars.githubusercontent.com/u/583231".to_string(),
            email: "alice@example.org".to_string(),
            login: "alice".to_string(),
        }
    );
}

#[test]
fn hidden_email_is_replaced() {
    let mut user = alice();
    user.name = None;
    user.github_id = -5;
    let shown = user.api_user(true);
    assert_eq!(shown.email, "hidden@email.com");
    assert_eq!(shown.name, None);
    assert_eq!(shown.avatar, "https://avatars.githubusercontent.com/u/-5");
}

#[test]
fn user_columns_follow_the_order_of_a_sorted_map() {
    let expected: std::collections::BTreeMap<String, String> =
        ["id", "github_id", "admin", "name", "email", "login", "last_login", "created"]
            .iter()
            .map(|f| (format!("users.{}", f), f.to_string()))
            .collect();
    assert_eq!(pairs(User::columns(None, None)), expected.into_iter().collect::<Vec<_>>());
}

#[test]
fn columns_take_prefix_and_table() {
    let columns = pairs(User::columns(Some("user_"), Some("u")));
    assert_eq!(columns.len(), 8);
    assert_eq!(columns[0], ("u.admin".to_string(), "user_admin".to_string()));
    assert_eq!(columns[3], ("u.github_id".to_string(), "user_github_id".to_string()));
    assert_eq!(columns[7], ("u.name".to_string(), "user_name".to_string()));
}

#[test]
fn session_columns_follow_the_order_of_a_sorted_map() {
    let expected: std::collections::BTreeMap<String, String> =
        ["id", "ip", "user_agent", "last_used", "created"]
            .iter()
            .map(|f| (format!("user_sessions.{}", f), format!("session_{}", f)))
            .collect();
    assert_eq!(
        pairs(UserSession::columns(Some("session_"), None)),
        expected.into_iter().collect::<Vec<_>>()
    );
}

#[test]
fn cache_keys_of_users() {
    assert_eq!(user_key("alice"), "user::alice");
    assert_eq!(session_key("abc"), "user::session::abc");
    assert_eq!(USER_TTL, 3600);
    assert_eq!(SESSION_TTL, 300);
}

#[test]
fn login_is_escaped_for_a_pattern() {
    assert_eq!(like_pattern("alice"), "alice");
    assert_eq!(like_pattern("a_b%c"), "a\\_b\\%c");
    assert_eq!(like_pattern("%_"), "\\%\\_");
    for login in ["x__y", "100%", "", "_", "a\\_b"] {
        assert_eq!(like_pattern(login), login.replace('%', "\\%").replace('_', "\\_"));
    }
}

#[test]
fn used_session_takes_address_and_agent() {
    let session = UserSession {
        id: 9,
        ip: "10.0.0.1".to_string(),
        user_agent: "old".to_string(),
        last_used: 5,
        created: 1,
    };
    let touched = session.clone().touch("10.0.0.2".to_string(), Some("new"));
    assert_eq!(
        touched,
        UserSession {
            id: 9,
            ip: "10.0.0.2".to_string(),
            user_agent: "new".to_string(),
            last_used: 5,
            created: 1,
        }
    );
    assert_eq!(session.touch("10.0.0.3".to_string(), None).user_agent, "");
}
