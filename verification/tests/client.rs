use porthole::client::{Action, Client, Message, Outcome, ServerState};
use porthole::config::Config;
use porthole::util::Ipv4;

fn fresh() -> Client {
    Client::new(Config::default(), Some(Ipv4::new(192, 168, 1, 7)))
}

#[test]
fn adding_folders_asks_for_the_picker_with_current_folders() {
    let mut c = fresh();
    c.config.add_folder("/a".to_string());
    match c.update(Message::AddFolder) {
        Action::PickFolders(v) => assert_eq!(v, vec!["/a".to_string()]),
        _ => panic!("expected the folder picker"),
    }
}

#[test]
fn picked_folders_are_added_once_and_synced() {
    let mut c = fresh();
    let a = c.update(Message::FoldersPicked(Some(vec![
        "/a".to_string(),
        "/b".to_string(),
        "/a".to_string(),
    ])));
    assert!(matches!(a, Action::SyncFolders));
    assert_eq!(c.config.folders, vec!["/a".to_string(), "/b".to_string()]);
    assert!(matches!(c.update(Message::FoldersPicked(None)), Action::Nothing));
    let a = c.update(Message::RemoveFolder("/a".to_string()));
    assert!(matches!(a, Action::SyncFolders));
    assert_eq!(c.config.folders, vec!["/b".to_string()]);
}

#[test]
fn toggling_starts_and_stops_the_server() {
    let mut c = fresh();
    c.error = Some("old".to_string());
    assert!(matches!(c.update(Message::ToggleServer), Action::StartServer));
    assert_eq!(c.error, None);
    assert_eq!(c.server_state, ServerState::Stopped);
    c.apply(Outcome::ServerStarted(Ok(Some(8080))));
    assert_eq!(c.server_state, ServerState::Running);
    assert_eq!(c.server_link(), Some("http://192.168.1.7:8080".to_string()));
    assert!(matches!(c.update(Message::ToggleServer), Action::StopServer));
    assert!(matches!(c.update(Message::ToggleServer), Action::Nothing));
    assert!(matches!(c.update(Message::ServerStopped(Ok(()))), Action::Nothing));
    assert_eq!(c.server_state, ServerState::Stopped);
    assert_eq!(c.server_port, None);
    assert_eq!(c.server_link(), None);
    assert_eq!(c.error, None);
}

#[test]
fn failures_are_reported_in_the_error_line() {
    let mut c = fresh();
    c.apply(Outcome::ServerStarted(Err("address in use".to_string())));
    assert_eq!(c.server_state, ServerState::Stopped);
    assert_eq!(c.error_line(), Some("Error: address in use".to_string()));
    c.update(Message::CloseError);
    assert_eq!(c.error_line(), None);
    c.apply(Outcome::ServerStarted(Ok(None)));
    c.update(Message::ServerStopped(Err("boom".to_string())));
    assert_eq!(c.error, Some("Server stopped with an error: boom".to_string()));
    c.apply(Outcome::SaveFailed("disk full".to_string()));
    assert_eq!(c.error, Some("Failed to save settings: disk full".to_string()));
}

#[test]
fn qr_modal_opens_after_the_code_is_built() {
    let mut c = fresh();
    match c.update(Message::OpenQrModal("http://192.168.1.7:80".to_string())) {
        Action::BuildQr(url) => assert_eq!(url, "http://192.168.1.7:80"),
        _ => panic!("expected a QR code request"),
    }
    assert!(!c.qr_open);
    c.apply(Outcome::QrBuilt(Ok(())));
    assert!(c.qr_open);
    c.update(Message::CloseQrModal);
    assert!(!c.qr_open);
    c.apply(Outcome::QrBuilt(Err("too long".to_string())));
    assert_eq!(c.error, Some("too long".to_string()));
}

#[test]
fn a_stopped_server_has_no_port_and_no_pending_stop() {
    let mut c = fresh();
    assert_eq!(c.server_state, ServerState::Stopped);
    assert_eq!((c.server_port, c.can_stop), (None, false));
    c.update(Message::ToggleServer);
    assert_eq!((c.server_port, c.can_stop), (None, false));
    c.apply(Outcome::ServerStarted(Ok(Some(8080))));
    c.update(Message::ServerStopped(Ok(())));
    assert_eq!(c.server_state, ServerState::Stopped);
    assert_eq!((c.server_port, c.can_stop), (None, false));
}
