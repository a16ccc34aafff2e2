use voice_input::app::AppState;
use voice_input::error::ErrorKind;

#[test]
fn default_is_idle() {
    assert!(matches!(AppState::default(), AppState::Idle));
}

#[test]
fn error_variant_carries_kind() {
    let s = AppState::Error(ErrorKind::NoMicrophone);
    match s {
        AppState::Error(k) => assert_eq!(k, ErrorKind::NoMicrophone),
        _ => panic!("expected Error variant"),
    }
}

#[test]
fn clone_keeps_the_content() {
    let started = std::time::Instant::now();
    match (AppState::Listening { started_at: started }).clone() {
        AppState::Listening { started_at } => assert_eq!(started_at, started),
        other => panic!("expected Listening, got {:?}", other),
    }
    match (AppState::Refining { raw_text: "raw".to_string() }).clone() {
        AppState::Refining { raw_text } => assert_eq!(raw_text, "raw"),
        other => panic!("expected Refining, got {:?}", other),
    }
    match (AppState::Injecting { final_text: "final".to_string() }).clone() {
        AppState::Injecting { final_text } => assert_eq!(final_text, "final"),
        other => panic!("expected Injecting, got {:?}", other),
    }
    match AppState::Error(ErrorKind::NetworkError("down".to_string())).clone() {
        AppState::Error(kind) => assert_eq!(kind, ErrorKind::NetworkError("down".to_string())),
        other => panic!("expected Error, got {:?}", other),
    }
}
