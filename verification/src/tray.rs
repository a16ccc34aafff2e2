//! The tray icon: its appearance, its menu and what the menu items do.

use crate::state::AppState;
use vstd::prelude::*;

verus! {

/// A command to the overlay.
#[derive(Debug, Clone, Copy, PartialEq, Eq)]
pub enum UiCmd {
    Quit,
}

/// An image in ARGB32 format, in network byte order.
#[derive(Debug, PartialEq, Eq)]
pub struct Pixmap {
    pub width: i32,
    pub height: i32,
    pub data: Vec<u8>,
}

/// Text that the tray shows on hovering.
#[derive(Debug, PartialEq, Eq)]
pub struct ToolTip {
    pub title: String,
    pub description: String,
    pub icon_name: String,
    /// Images of the icon, for an icon without a name.
    pub icon_pixmap: Vec<Pixmap>,
}

/// A menu item that can be chosen.
#[derive(Debug, Clone, Copy, PartialEq, Eq)]
pub enum MenuCommand {
    ToggleEnabled,
    Quit,
}

/// An entry of the menu.
#[derive(Debug, PartialEq, Eq)]
pub enum MenuEntry {
    Checkmark { label: String, checked: bool, command: MenuCommand },
    Separator,
    Standard { label: String, icon_name: String, command: MenuCommand },
}

/// The content of a [`MenuEntry`].
pub enum EntryView {
    Checkmark { label: Seq<char>, checked: bool, command: MenuCommand },
    Separator,
    Standard { label: Seq<char>, icon_name: Seq<char>, command: MenuCommand },
}

impl View for MenuEntry {
    type V = EntryView;

    open spec fn view(&self) -> EntryView {
        match self {
            MenuEntry::Checkmark { label, checked, command } => EntryView::Checkmark {
                label: label@,
                checked: *checked,
                command: *command,
            },
            MenuEntry::Separator => EntryView::Separator,
            MenuEntry::Standard { label, icon_name, command } => EntryView::Standard {
                label: label@,
                icon_name: icon_name@,
                command: *command,
            },
        }
    }
}

/// What choosing a menu item brings about.
#[derive(Debug, Clone, Copy, PartialEq, Eq)]
pub enum TrayEffect {
    /// Store the setting that switches dictation on or off.
    SetEnabled(bool),
    /// Tell everyone who waits for it that the application ends.
    NotifyShutdown,
    /// Send a command to the overlay.
    SendUi(UiCmd),
}

/// The menu while dictation is `enabled` or not: a checkbox that shows it, and
/// below a separator the item that quits.
pub open spec fn menu_of(enabled: bool) -> Seq<EntryView> {
    seq![
        EntryView::Checkmark {
            label: "Enabled"@,
            checked: enabled,
            command: MenuCommand::ToggleEnabled,
        },
        EntryView::Separator,
        EntryView::Standard {
            label: "Quit"@,
            icon_name: "application-exit"@,
            command: MenuCommand::Quit,
        },
    ]
}

/// What a command brings about while dictation is `enabled` or not, in order.
pub open spec fn effects_of(enabled: bool, command: MenuCommand) -> Seq<TrayEffect> {
    match command {
        MenuCommand::ToggleEnabled => seq![TrayEffect::SetEnabled(!enabled)],
        MenuCommand::Quit => seq![TrayEffect::NotifyShutdown, TrayEffect::SendUi(UiCmd::Quit)],
    }
}

/// The tray icon of the application. `U` is the channel to the overlay, which
/// the tray carries for the caller.
pub struct VoiceInputTray<U> {
    pub state: AppState,
    pub ui_tx: U,
}

impl<U> VoiceInputTray<U> {
    pub fn new(state: AppState, ui_tx: U) -> (tray: Self)
        ensures
            tray.state == state,
            tray.ui_tx == ui_tx,
    {
        Self { state, ui_tx }
    }

    /// Identifier of the tray item.
    pub fn id(&self) -> (id: String)
        ensures
            id@ == "com.yetone.VoiceInput"@,
    {
        "com.yetone.VoiceInput".to_owned()
    }

    /// Title of the tray item.
    pub fn title(&self) -> (title: String)
        ensures
            title@ == "VoiceInput"@,
    {
        "VoiceInput".to_owned()
    }

    /// Name of the icon in the icon theme.
    pub fn icon_name(&self) -> (name: String)
        ensures
            name@ == "audio-input-microphone"@,
    {
        "audio-input-microphone".to_owned()
    }

    /// Text that the tray shows on hovering.
    pub fn tool_tip(&self) -> (tip: ToolTip)
        ensures
            tip.title@ == "VoiceInput"@,
            tip.description@ == "Hold the configured key to dictate"@,
            tip.icon_name@ == "audio-input-microphone"@,
            tip.icon_pixmap@ == Seq::<Pixmap>::empty(),
    {
        ToolTip {
            title: "VoiceInput".to_owned(),
            description: "Hold the configured key to dictate".to_owned(),
            icon_name: "audio-input-microphone".to_owned(),
            icon_pixmap: Vec::new(),
        }
    }

    /// The menu for the current state.
    pub fn menu(&self) -> (entries: Vec<MenuEntry>)
        ensures
            entries@.map_values(|entry: MenuEntry| entry@) == menu_of(self.state@.enabled),
    {
        let enabled = self.state.snapshot().enabled;
        let mut entries: Vec<MenuEntry> = Vec::new();
        entries.push(
            MenuEntry::Checkmark {
                label: "Enabled".to_owned(),
                checked: enabled,
                command: MenuCommand::ToggleEnabled,
            },
        );
        entries.push(MenuEntry::Separator);
        entries.push(
            MenuEntry::Standard {
                label: "Quit".to_owned(),
                icon_name: "application-exit".to_owned(),
                command: MenuCommand::Quit,
            },
        );
        assert(entries@.map_values(|entry: MenuEntry| entry@) =~= menu_of(enabled));
        entries
    }

    /// What choosing a menu item brings about, in order.
    pub fn activate(&self, command: MenuCommand) -> (effects: Vec<TrayEffect>)
        ensures
            effects@ == effects_of(self.state@.enabled, command),
    {
        let mut effects: Vec<TrayEffect> = Vec::new();
        match command {
            MenuCommand::ToggleEnabled => {
                let new_value = !self.state.snapshot().enabled;
                effects.push(TrayEffect::SetEnabled(new_value));
            },
            MenuCommand::Quit => {
                effects.push(TrayEffect::NotifyShutdown);
                effects.push(TrayEffect::SendUi(UiCmd::Quit));
            },
        }
        assert(effects@ =~= effects_of(self.state@.enabled, command));
        effects
    }
}

/// Choosing the checkbox flips what it shows, and choosing it again flips it
/// back.
pub proof fn law_toggle_flips_the_checkbox(enabled: bool)
    ensures
        effects_of(enabled, MenuCommand::ToggleEnabled) == seq![TrayEffect::SetEnabled(!enabled)],
        menu_of(!enabled)[0] == (EntryView::Checkmark {
            label: "Enabled"@,
            checked: !enabled,
            command: MenuCommand::ToggleEnabled,
        }),
        effects_of(!enabled, MenuCommand::ToggleEnabled) == seq![TrayEffect::SetEnabled(enabled)],
{
}

/// Quitting does not depend on whether dictation is on: in either case those who
/// wait for the end are told first, then the overlay, and nothing else happens.
pub proof fn law_quit_always_ends_the_application(enabled: bool, other: bool)
    ensures
        effects_of(enabled, MenuCommand::Quit) == effects_of(other, MenuCommand::Quit),
        effects_of(enabled, MenuCommand::Quit).len() == 2,
        effects_of(enabled, MenuCommand::Quit)[0] == TrayEffect::NotifyShutdown,
        effects_of(enabled, MenuCommand::Quit)[1] == TrayEffect::SendUi(UiCmd::Quit),
{
}

/// The one effect of the checkbox is to store the opposite of what it shows, and
/// the application keeps running.
pub proof fn law_toggle_stores_the_opposite(enabled: bool, other: bool)
    ensures
        effects_of(enabled, MenuCommand::ToggleEnabled).len() == 1,
        effects_of(enabled, MenuCommand::ToggleEnabled)[0] matches TrayEffect::SetEnabled(stored)
            && stored != enabled,
        menu_of(enabled)[0] matches EntryView::Checkmark { checked, .. } && checked == enabled,
        effects_of(enabled, MenuCommand::ToggleEnabled) == effects_of(
            other,
            MenuCommand::ToggleEnabled,
        ) <==> enabled == other,
{
    if enabled != other {
        assert(effects_of(enabled, MenuCommand::ToggleEnabled)[0] != effects_of(
            other,
            MenuCommand::ToggleEnabled,
        )[0]);
    }
}

/// The menu has a checkbox, a separator and the item that quits, in this order,
/// and only the mark of the checkbox depends on the state.
pub proof fn law_menu(enabled: bool, other: bool)
    ensures
        menu_of(enabled).len() == 3,
        menu_of(enabled)[0] == (EntryView::Checkmark {
            label: "Enabled"@,
            checked: enabled,
            command: MenuCommand::ToggleEnabled,
        }),
        menu_of(enabled)[1] is Separator,
        menu_of(enabled)[2] == (EntryView::Standard {
            label: "Quit"@,
            icon_name: "application-exit"@,
            command: MenuCommand::Quit,
        }),
        menu_of(enabled).skip(1) == menu_of(other).skip(1),
{
    assert(menu_of(enabled).skip(1) =~= menu_of(other).skip(1));
}

/// The content of an entry is its parts as they are.
pub proof fn law_entry_content(entry: MenuEntry)
    ensures
        entry matches MenuEntry::Checkmark { label, checked, command } ==> entry@ == (
        EntryView::Checkmark { label: label@, checked, command }),
        entry is Separator <==> entry@ is Separator,
        entry matches MenuEntry::Standard { label, icon_name, command } ==> entry@ == (
        EntryView::Standard { label: label@, icon_name: icon_name@, command }),
{
}

} // verus!
