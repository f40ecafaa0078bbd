use tetris_core::lobby::{
    cancel_text, join_text, lobby_text, ready_text, timed_out, Lobby, HB_INTERVAL, TIMEOUT,
};
use tetris_core::tetris::GameSettings;

fn settings() -> GameSettings {
    GameSettings::new(true, false, false, true)
}

fn waiting() -> Lobby<u32> {
    Lobby::Waiting {
        p1: 7,
        id: "match".to_string(),
        settings: settings(),
    }
}

fn ready() -> Lobby<u32> {
    match waiting().join("anna".to_string(), "ben".to_string()) {
        Ok((lobby, _)) => lobby,
        Err(_) => unreachable!(),
    }
}

#[test]
fn the_times_of_the_server() {
    assert_eq!(TIMEOUT, 15_000);
    assert_eq!(HB_INTERVAL, 5_000);
}

#[test]
fn a_player_is_given_up_after_the_timeout() {
    assert!(!timed_out(1_000, 1_000));
    assert!(!timed_out(1_000, 16_000));
    assert!(timed_out(1_000, 16_001));
    assert!(timed_out(0, u64::MAX));
    // a message that came after the look does not count against the player
    assert!(!timed_out(20_000, 1_000));
}

#[test]
fn the_texts_of_the_server() {
    let id = "match".to_string();
    assert_eq!(ready_text(&id, &"anna".to_string()), "ready match/anna");
    assert_eq!(join_text(&id, &"ben".to_string()), "match/ben");
    assert_eq!(lobby_text(&id), "lobby match");
    assert_eq!(cancel_text("timeout"), "cancel timeout");
    assert_eq!(cancel_text(""), "cancel ");
}

#[test]
fn a_waiting_match_is_listed() {
    let lobby = waiting();
    assert!(lobby.is_listed());
    assert_eq!(lobby.get_id(), "match");
    assert_eq!(*lobby.get_settings(), settings());
    assert_eq!(lobby.seat(&"anna".to_string()), None);
}

#[test]
fn joining_makes_the_match_ready() {
    let (lobby, told) = match waiting().join("anna".to_string(), "ben".to_string()) {
        Ok(joined) => joined,
        Err(_) => unreachable!(),
    };
    assert_eq!(told, 7);
    assert!(!lobby.is_listed());
    assert_eq!(lobby.get_id(), "match");
    assert_eq!(*lobby.get_settings(), settings());
    match lobby {
        Lobby::Ready {
            p1,
            p1_id,
            p2,
            p2_id,
            ..
        } => {
            assert_eq!(p1, None);
            assert_eq!(p2, None);
            assert_eq!(p1_id, "anna");
            assert_eq!(p2_id, "ben");
        }
        _ => unreachable!(),
    }
}

#[test]
fn only_a_waiting_match_can_be_joined() {
    let lobby = match ready().join("carl".to_string(), "dora".to_string()) {
        Err(lobby) => lobby,
        Ok(_) => unreachable!(),
    };
    assert_eq!(lobby.seat(&"anna".to_string()), Some(true));
    assert_eq!(lobby.seat(&"carl".to_string()), None);
    let running = ready().connect(true, 1, [0; 32]).connect(false, 2, [0; 32]);
    assert!(running.join("carl".to_string(), "dora".to_string()).is_err());
}

#[test]
fn a_seat_goes_by_the_name() {
    let lobby = ready();
    assert_eq!(lobby.seat(&"anna".to_string()), Some(true));
    assert_eq!(lobby.seat(&"ben".to_string()), Some(false));
    assert_eq!(lobby.seat(&"carl".to_string()), None);
    assert_eq!(lobby.seat(&"".to_string()), None);
}

#[test]
fn a_seat_is_taken_once() {
    let lobby = ready().connect(true, 1, [0; 32]);
    assert_eq!(lobby.seat(&"anna".to_string()), None);
    assert_eq!(lobby.seat(&"ben".to_string()), Some(false));
    let lobby = ready().connect(false, 2, [0; 32]);
    assert_eq!(lobby.seat(&"anna".to_string()), Some(true));
    assert_eq!(lobby.seat(&"ben".to_string()), None);
}

#[test]
fn the_first_name_is_tried_first() {
    let lobby = match waiting().join("same".to_string(), "same".to_string()) {
        Ok((lobby, _)) => lobby,
        Err(_) => unreachable!(),
    };
    assert_eq!(lobby.seat(&"same".to_string()), Some(true));
    let lobby = lobby.connect(true, 1, [0; 32]);
    assert_eq!(lobby.seat(&"same".to_string()), Some(false));
}

#[test]
fn the_match_runs_when_both_have_connected() {
    for first in [true, false] {
        let lobby = ready().connect(first, 1, [1; 32]);
        assert!(matches!(lobby, Lobby::Ready { .. }));
        let lobby = lobby.connect(!first, 2, [2; 32]);
        assert!(!lobby.is_listed());
        assert_eq!(lobby.get_id(), "match");
        assert_eq!(*lobby.get_settings(), settings());
        assert_eq!(lobby.seat(&"anna".to_string()), None);
        assert!(lobby.is_first(&"anna".to_string()));
        assert!(!lobby.is_first(&"ben".to_string()));
        assert!(!lobby.is_first(&"carl".to_string()));
        match lobby {
            Lobby::Running { p1, p2, config, .. } => {
                assert_eq!(p1.id, "anna");
                assert_eq!(p2.id, "ben");
                assert_eq!(p1.session, if first { 1 } else { 2 });
                assert_eq!(p2.session, if first { 2 } else { 1 });
                assert_eq!(config.settings, settings());
                // the seed is that of the connection that filled the match
                assert_eq!(config.seed, Some([2; 32]));
            }
            _ => unreachable!(),
        }
    }
}
