use chocobase::auth::ExecutionContext;
use chocobase::http::presence::{default_presence_key, realtime_route, RealtimeChannelManager, RealtimeRoute};

fn ctx(uid: Option<i64>, role: Option<&str>) -> ExecutionContext {
    ExecutionContext { user_id: uid, role: role.map(|r| r.to_string()), is_admin: false }
}

#[test]
fn routes_realtime_requests() {
    assert!(matches!(realtime_route("POST", "/v1/realtime/v1/broadcast/room1/"), RealtimeRoute::Broadcast(c) if c == "room1"));
    assert!(matches!(realtime_route("GET", "/v1/realtime/v1/broadcast/room1"), RealtimeRoute::NotFound));
    assert!(matches!(realtime_route("GET", "/presence//lobby//"), RealtimeRoute::ListPresence(c) if c == "lobby"));
    assert!(matches!(realtime_route("POST", "/v1/realtime/v1/presence/lobby"), RealtimeRoute::TrackPresence(c) if c == "lobby"));
    assert!(matches!(realtime_route("DELETE", "/v1/realtime/v1/presence/lobby"), RealtimeRoute::UntrackPresence(c) if c == "lobby"));
    assert!(matches!(realtime_route("PUT", "/v1/realtime/v1/presence/lobby"), RealtimeRoute::MethodNotAllowed));
    assert!(matches!(realtime_route("GET", "/v1/realtime/v1/other"), RealtimeRoute::NotFound));
}

#[test]
fn default_keys_name_the_user() {
    assert_eq!(default_presence_key(Some(42)), "user_42");
    assert_eq!(default_presence_key(Some(-3)), "user_-3");
    assert_eq!(default_presence_key(None), "anon");
}

#[test]
fn presence_is_tracked_replaced_and_withdrawn() {
    let mut m = RealtimeChannelManager::new();
    let a = m.track_presence_at("lobby", "alice", "{\"s\":1}", &ctx(Some(1), Some("member")), 100);
    assert_eq!((a.key.as_str(), a.user_id, a.role.as_str(), a.state.as_str(), a.updated_at), ("alice", Some(1), "member", "{\"s\":1}", 100));
    m.track_presence_at("lobby", "bob", "{}", &ctx(None, None), 101);
    m.track_presence_at("kitchen", "alice", "{}", &ctx(Some(1), None), 102);
    m.track_presence_at("lobby", "alice", "{\"s\":2}", &ctx(Some(1), None), 103);
    let lobby = m.get_presence("lobby");
    assert_eq!(lobby.iter().map(|e| (e.key.as_str(), e.state.as_str(), e.role.as_str(), e.updated_at)).collect::<Vec<_>>(),
        vec![("alice", "{\"s\":2}", "anon", 103), ("bob", "{}", "anon", 101)]);
    assert_eq!(m.get_presence("kitchen").len(), 1);
    assert!(m.untrack_presence("lobby", "alice"));
    assert!(!m.untrack_presence("lobby", "alice"));
    assert!(!m.untrack_presence("nowhere", "bob"));
    assert_eq!(m.get_presence("lobby").iter().map(|e| e.key.clone()).collect::<Vec<_>>(), vec!["bob".to_string()]);
    assert!(m.get_presence("empty").is_empty());
}
