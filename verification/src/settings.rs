//! Application settings: the slice of configuration the core reads,
//! with its defaults, and the name of the data directory.

use vstd::prelude::*;

verus! {

/// The persisted application settings the core consults.
#[derive(Debug, PartialEq, Eq)]
pub struct AppSettings {
    /// Terminal font size.
    pub font_size: u32,
    /// Terminal font family.
    pub font_family: String,
    /// Color theme tag.
    pub theme: String,
    /// Working directory offered for new sessions.
    pub default_working_dir: String,
    /// Agent kind offered for new sessions.
    pub default_agent_type: String,
    /// Whether desktop notifications fire.
    pub notifications_enabled: bool,
    /// Whether terminal-bell notifications fire.
    pub bell_notifications_enabled: bool,
    /// Whether the dock bounces on a bell.
    pub bounce_dock_on_bell: bool,
    /// Whether replies are read aloud.
    pub read_aloud_enabled: bool,
    /// Terminal renderer tag.
    pub renderer: String,
    /// The PIN that authorizes remote login, when one is configured.
    pub remote_pin: Option<String>,
    /// Whether the list shows an active-sessions group.
    pub show_active_sessions_group: bool,
}

/// The default renderer tag.
pub fn default_renderer() -> (r: String)
    ensures
        r@ == "webgl"@,
{
    String::from_str("webgl")
}

/// The default for settings that ship enabled.
pub fn default_true() -> (r: bool)
    ensures
        r == true,
{
    true
}

impl Clone for AppSettings {
    fn clone(&self) -> (r: Self)
        ensures
            r == *self,
    {
        AppSettings {
            font_size: self.font_size,
            font_family: self.font_family.clone(),
            theme: self.theme.clone(),
            default_working_dir: self.default_working_dir.clone(),
            default_agent_type: self.default_agent_type.clone(),
            notifications_enabled: self.notifications_enabled,
            bell_notifications_enabled: self.bell_notifications_enabled,
            bounce_dock_on_bell: self.bounce_dock_on_bell,
            read_aloud_enabled: self.read_aloud_enabled,
            renderer: self.renderer.clone(),
            remote_pin: match &self.remote_pin {
                Some(p) => Some(p.clone()),
                None => None,
            },
            show_active_sessions_group: self.show_active_sessions_group,
        }
    }
}

impl Default for AppSettings {
    /// The settings a fresh install runs with: dark theme, notifications
    /// on, no remote PIN.
    fn default() -> (r: AppSettings)
        ensures
            r.font_size == 13,
            r.font_family@ == "Menlo, Monaco, 'Courier New', monospace"@,
            r.theme@ == "dark"@,
            r.default_working_dir@ == "~/dev/pplsi"@,
            r.default_agent_type@ == "pty-agent"@,
            r.notifications_enabled,
            r.bell_notifications_enabled,
            r.bounce_dock_on_bell,
            !r.read_aloud_enabled,
            r.renderer@ == "webgl"@,
            r.remote_pin is None,
            r.show_active_sessions_group,
    {
        AppSettings {
            font_size: 13,
            font_family: String::from_str("Menlo, Monaco, 'Courier New', monospace"),
            theme: String::from_str("dark"),
            default_working_dir: String::from_str("~/dev/pplsi"),
            default_agent_type: String::from_str("pty-agent"),
            notifications_enabled: true,
            bell_notifications_enabled: true,
            bounce_dock_on_bell: true,
            read_aloud_enabled: false,
            renderer: default_renderer(),
            remote_pin: None,
            show_active_sessions_group: true,
        }
    }
}

/// Whether a PIN is configured for remote login.
pub fn pin_configured(settings: &AppSettings) -> (r: bool)
    ensures
        r == (settings.remote_pin is Some),
{
    settings.remote_pin.is_some()
}

/// The name of the application data directory; development builds keep
/// their data apart from production builds.
pub fn get_app_data_dir_name(dev: bool) -> (r: &'static str)
    ensures
        dev ==> r@ == "agent-hub-dev"@,
        !dev ==> r@ == "agent-hub"@,
{
    if dev {
        "agent-hub-dev"
    } else {
        "agent-hub"
    }
}

} // verus!
