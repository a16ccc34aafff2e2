use voice_input::state::{AppState, Config};
use voice_input::tray::{MenuCommand, MenuEntry, TrayEffect, UiCmd, VoiceInputTray};

fn tray(enabled: bool) -> VoiceInputTray<u8> {
    VoiceInputTray::new(AppState::new(Config { enabled }), 7)
}

#[test]
fn new_keeps_state_and_channel() {
    let t = tray(true);
    assert_eq!(t.state.snapshot(), Config { enabled: true });
    assert_eq!(t.ui_tx, 7);
}

#[test]
fn appearance() {
    let t = tray(true);
    assert_eq!(t.id(), "com.yetone.VoiceInput");
    assert_eq!(t.title(), "VoiceInput");
    assert_eq!(t.icon_name(), "audio-input-microphone");
    let tip = t.tool_tip();
    assert_eq!(tip.title, "VoiceInput");
    assert_eq!(tip.description, "Hold the configured key to dictate");
    assert_eq!(tip.icon_name, "audio-input-microphone");
    assert!(tip.icon_pixmap.is_empty());
}

#[test]
fn menu_shows_enabled_separator_and_quit() {
    for enabled in [true, false] {
        assert_eq!(
            tray(enabled).menu(),
            vec![
                MenuEntry::Checkmark {
                    label: "Enabled".to_string(),
                    checked: enabled,
                    command: MenuCommand::ToggleEnabled,
                },
                MenuEntry::Separator,
                MenuEntry::Standard {
                    label: "Quit".to_string(),
                    icon_name: "application-exit".to_string(),
                    command: MenuCommand::Quit,
                },
            ]
        );
    }
}

#[test]
fn toggling_twice_restores_the_setting() {
    let mut t = tray(true);
    for expected in [false, true] {
        let effects = t.activate(MenuCommand::ToggleEnabled);
        assert_eq!(effects, vec![TrayEffect::SetEnabled(expected)]);
        t.state.set_enabled(expected);
        assert_eq!(t.state.snapshot().enabled, expected);
    }
}

#[test]
fn quit_notifies_and_tells_the_overlay() {
    assert_eq!(
        tray(true).activate(MenuCommand::Quit),
        vec![TrayEffect::NotifyShutdown, TrayEffect::SendUi(UiCmd::Quit)]
    );
}
