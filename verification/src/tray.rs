//! What the system tray shows and asks: connection status texts and icon
//! names, and the intents the menu can send back. The tray service itself
//! lives in the surrounding application.

use vstd::prelude::*;

verus! {

/// Intents the tray menu sends back to the main loop.
#[derive(Debug, Clone, Copy, PartialEq, Eq, Structural)]
pub enum TrayAction {
    ManageCommands,
    Quit,
}

/// The connection state as the tray presents it.
#[derive(Debug, Clone, Copy, PartialEq, Eq, Structural)]
pub enum ConnectionStatus {
    Connected,
    Disconnected,
    Connecting,
    Error,
}

impl ConnectionStatus {
    /// The themed icon for this status.
    pub open spec fn spec_icon_name(self) -> Seq<char> {
        match self {
            ConnectionStatus::Connected => "prontafon-connected-symbolic"@,
            ConnectionStatus::Disconnected => "prontafon-disconnected-symbolic"@,
            ConnectionStatus::Connecting => "prontafon-disconnected-symbolic"@,
            ConnectionStatus::Error => "prontafon-disconnected-symbolic"@,
        }
    }

    /// The themed icon name.
    pub fn icon_name(self) -> (r: &'static str)
        ensures
            r@ == self.spec_icon_name(),
    {
        match self {
            ConnectionStatus::Connected => "prontafon-connected-symbolic",
            ConnectionStatus::Disconnected => "prontafon-disconnected-symbolic",
            ConnectionStatus::Connecting => "prontafon-disconnected-symbolic",
            ConnectionStatus::Error => "prontafon-disconnected-symbolic",
        }
    }

    /// The tooltip line for this status; a connected status names the
    /// device.
    pub fn describe(self, device_name: &str) -> (r: String)
        ensures
            self == ConnectionStatus::Connected ==> r@ == "Connected to "@ + device_name@,
            self != ConnectionStatus::Connected ==> r@ == self.spec_fixed_description(),
    {
        match self {
            ConnectionStatus::Connected => {
                let mut s = String::new();
                s.append("Connected to ");
                s.append(device_name);
                s
            },
            ConnectionStatus::Disconnected => "Waiting for connection...".to_owned(),
            ConnectionStatus::Connecting => "Connecting...".to_owned(),
            ConnectionStatus::Error => "Connection error".to_owned(),
        }
    }

    /// The fixed tooltip lines of the unconnected states.
    pub open spec fn spec_fixed_description(self) -> Seq<char> {
        match self {
            ConnectionStatus::Connected => ""@,
            ConnectionStatus::Disconnected => "Waiting for connection..."@,
            ConnectionStatus::Connecting => "Connecting..."@,
            ConnectionStatus::Error => "Connection error"@,
        }
    }

    /// The menu's status header; a connected status names the device.
    pub fn menu_label(self, device_name: &str) -> (r: String)
        ensures
            self == ConnectionStatus::Connected ==> r@ == "Connected: "@ + device_name@,
            self != ConnectionStatus::Connected ==> r@ == self.spec_menu_label(),
    {
        match self {
            ConnectionStatus::Connected => {
                let mut s = String::new();
                s.append("Connected: ");
                s.append(device_name);
                s
            },
            ConnectionStatus::Disconnected => "Disconnected".to_owned(),
            ConnectionStatus::Connecting => "Connecting...".to_owned(),
            ConnectionStatus::Error => "Error".to_owned(),
        }
    }

    /// The fixed menu headers of the unconnected states.
    pub open spec fn spec_menu_label(self) -> Seq<char> {
        match self {
            ConnectionStatus::Connected => ""@,
            ConnectionStatus::Disconnected => "Disconnected"@,
            ConnectionStatus::Connecting => "Connecting..."@,
            ConnectionStatus::Error => "Error"@,
        }
    }
}

} // verus!
