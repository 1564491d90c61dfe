use song_request_hub::playlist::{AppState, Playlist, SongRequest};

fn request(viewer: &str, song: &str) -> SongRequest {
    SongRequest { viewer_id: viewer.to_string(), viewer_username: format!("{}-name", viewer), song_id: song.to_string() }
}

#[test]
fn missing_room_gives_default_snapshot() {
    let state = AppState::new();
    let p = state.playlist_snapshot(&"nobody".to_string());
    assert_eq!(p, Playlist { song_requests_enabled: false, song_requests: vec![] });
}

#[test]
fn create_adds_once() {
    let mut state = AppState::new();
    let c = state.create_song_request("u".to_string(), request("v1", "s1"));
    assert!(c.changed);
    assert_eq!(c.playlist.song_requests, vec![request("v1", "s1")]);
    let again = state.create_song_request("u".to_string(), request("v1", "s1"));
    assert!(!again.changed);
    assert_eq!(again.playlist.song_requests, vec![request("v1", "s1")]);
    let other = state.create_song_request("u".to_string(), request("v2", "s1"));
    assert!(other.changed);
    assert_eq!(state.playlist_snapshot(&"u".to_string()).song_requests, vec![request("v1", "s1"), request("v2", "s1")]);
}

#[test]
fn update_sets_flag_and_keeps_requests() {
    let mut state = AppState::new();
    state.create_song_request("u".to_string(), request("v1", "s1"));
    let c = state.update_playlist("u".to_string(), true);
    assert!(c.changed);
    assert_eq!(c.playlist, Playlist { song_requests_enabled: true, song_requests: vec![request("v1", "s1")] });
    let fresh = state.update_playlist("w".to_string(), true);
    assert_eq!(fresh.playlist, Playlist { song_requests_enabled: true, song_requests: vec![] });
}

#[test]
fn delete_at_position() {
    let mut state = AppState::new();
    assert!(state.delete_song_request_at(&"u".to_string(), Some(0)).is_none());
    state.create_song_request("u".to_string(), request("a", "1"));
    state.create_song_request("u".to_string(), request("b", "2"));
    state.create_song_request("u".to_string(), request("c", "3"));
    let past = state.delete_song_request_at(&"u".to_string(), Some(3)).unwrap();
    assert!(!past.changed);
    assert_eq!(past.playlist.song_requests.len(), 3);
    let mid = state.delete_song_request_at(&"u".to_string(), Some(1)).unwrap();
    assert!(mid.changed);
    assert_eq!(mid.playlist.song_requests, vec![request("a", "1"), request("c", "3")]);
    let first = state.delete_song_request_at(&"u".to_string(), None).unwrap();
    assert_eq!(first.playlist.song_requests, vec![request("c", "3")]);
}

#[test]
fn delete_by_song_removes_first_match() {
    let mut state = AppState::new();
    assert!(state.delete_song_request_by_song_id(&"u".to_string(), &"1".to_string()).is_none());
    state.create_song_request("u".to_string(), request("a", "1"));
    state.create_song_request("u".to_string(), request("b", "2"));
    state.create_song_request("u".to_string(), request("c", "1"));
    let gone = state.delete_song_request_by_song_id(&"u".to_string(), &"1".to_string()).unwrap();
    assert!(gone.changed);
    assert_eq!(gone.playlist.song_requests, vec![request("b", "2"), request("c", "1")]);
    let none = state.delete_song_request_by_song_id(&"u".to_string(), &"9".to_string()).unwrap();
    assert!(!none.changed);
    assert_eq!(none.playlist.song_requests.len(), 2);
}
