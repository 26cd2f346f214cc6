//! The data that requests carry, that the daemon reports and that its
//! configuration holds.

use vstd::prelude::*;

use crate::auth::{admits, is_authorized};
use crate::notifications::NotificationLog;

verus! {

/// The daemon's shared state: the pairing token and the notification
/// history.
pub struct AppState {
    pub token: String,
    pub notifications: NotificationLog,
}

impl AppState {
    /// The state of a daemon paired with `token` that has seen no
    /// notification yet.
    pub fn new(token: String) -> (r: AppState)
        ensures
            r.token == token,
            r.notifications@ == Seq::<Notification>::empty(),
    {
        AppState { token, notifications: NotificationLog::new() }
    }

    /// Whether a request with the given `Authorization` header bytes may
    /// reach the protected routes.
    pub fn authorize(&self, header: Option<&[u8]>) -> (r: bool)
        ensures
            r == admits(
                match header {
                    Some(h) => Some(h@),
                    None => None,
                },
                self.token@,
            ),
    {
        is_authorized(header, self.token.as_str())
    }
}

/// The stored pairing token.
#[derive(Clone, Debug, PartialEq, Eq)]
pub struct AuthConfig {
    pub token: String,
}

/// A request to switch the desktop theme.
#[derive(Clone, Debug, PartialEq, Eq)]
pub struct ThemePayload {
    pub name: String,
}

/// A media player request, optionally aimed at one player.
#[derive(Clone, Debug, PartialEq, Eq)]
pub struct MediaPayload {
    pub action: String,
    pub player: Option<String>,
}

/// An audio request.
#[derive(Clone, Debug, PartialEq, Eq)]
pub struct AudioPayload {
    pub action: String,
    pub value: Option<u32>,
}

/// A display brightness request.
#[derive(Clone, Debug, PartialEq, Eq)]
pub struct BrightnessPayload {
    pub action: String,
    pub value: Option<u32>,
}

/// A system or bluetooth request.
#[derive(Clone, Debug, PartialEq, Eq)]
pub struct SystemPayload {
    pub action: String,
}

/// A request to focus a workspace.
#[derive(Clone, Debug, PartialEq, Eq)]
pub struct WorkspacePayload {
    pub id: i32,
}

/// A request on the notification history.
#[derive(Clone, Debug, PartialEq, Eq)]
pub struct NotificationPayload {
    pub action: String,
    pub id: Option<String>,
}

/// A request to run a shell command.
#[derive(Clone, Debug, PartialEq, Eq)]
pub struct ExecutePayload {
    pub command: String,
}

/// A desktop notification as the history keeps it.
#[derive(Clone, Debug, PartialEq, Eq)]
pub struct Notification {
    pub id: String,
    pub app_name: String,
    pub summary: String,
    pub body: String,
}

impl Notification {
    /// A field-for-field copy.
    pub fn duplicate(&self) -> (r: Notification)
        ensures
            r == *self,
    {
        Notification {
            id: self.id.clone(),
            app_name: self.app_name.clone(),
            summary: self.summary.clone(),
            body: self.body.clone(),
        }
    }
}

/// The state of the machine that the daemon reports.
#[derive(Clone, Debug, PartialEq, Eq)]
pub struct SystemState {
    pub volume: u32,
    pub is_muted: bool,
    pub brightness: u32,
    pub workspaces: Vec<i32>,
    pub active_workspace: i32,
    pub battery: u8,
    pub wifi_ssid: String,
    pub bluetooth_on: bool,
    pub bt_device: String,
    pub notifications: Vec<Notification>,
}

/// One module of the dashboard layout.
#[derive(Clone, Debug, PartialEq, Eq)]
pub enum ModuleConfig {
    Telemetry {},
    Notifications {},
    Workspaces {},
    MediaSystem {},
    Slider { endpoint: String, label: String, color: String },
    AppLauncher { apps: Vec<AppShortcut> },
}

/// A launcher entry of the dashboard layout.
#[derive(Clone, Debug, PartialEq, Eq)]
pub struct AppShortcut {
    pub name: String,
    pub command: String,
    pub icon: String,
}

/// The general section of the configuration.
#[derive(Clone, Debug, PartialEq, Eq)]
pub struct GeneralConfig {
    pub theme: String,
}

/// The dashboard configuration.
#[derive(Clone, Debug, PartialEq, Eq)]
pub struct AppConfig {
    pub general: GeneralConfig,
    pub layout: Vec<ModuleConfig>,
}

/// An installed application, as its desktop entry describes it.
#[derive(Clone, Debug, PartialEq, Eq)]
pub struct SystemApp {
    pub name: String,
    pub command: String,
    pub icon: String,
}

/// What a media player reports it is playing.
#[derive(Clone, Debug, PartialEq, Eq)]
pub struct MediaMetadata {
    pub player_name: String,
    pub title: String,
    pub artist: String,
    pub art_url: String,
    pub status: String,
}

/// A request for cover art by URL.
#[derive(Clone, Debug, PartialEq, Eq)]
pub struct ArtQuery {
    pub url: String,
}

} // verus!
