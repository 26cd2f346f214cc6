//! The dashboard's default configuration.

use vstd::prelude::*;

use crate::models::{AppConfig, GeneralConfig, ModuleConfig};
use crate::text::owned;

verus! {

/// Whether `m` is a slider on `endpoint` with the given label and colour.
pub open spec fn is_slider(m: ModuleConfig, endpoint: Seq<char>, label: Seq<char>, color: Seq<char>) -> bool {
    m matches ModuleConfig::Slider { endpoint: e, label: l, color: c } && e@ == endpoint && l@
        == label && c@ == color
}

/// The configuration written where none exists: the `glass` theme, and the
/// telemetry, notifications, workspaces, master volume slider, display
/// brightness slider and media modules, in that order.
pub fn default_config() -> (r: AppConfig)
    ensures
        r.general.theme@ == "glass"@,
        r.layout@.len() == 6,
        r.layout@[0] is Telemetry,
        r.layout@[1] is Notifications,
        r.layout@[2] is Workspaces,
        is_slider(r.layout@[3], "audio"@, "Master Volume"@, "bg-white"@),
        is_slider(r.layout@[4], "brightness"@, "Display Brightness"@, "bg-yellow-400"@),
        r.layout@[5] is MediaSystem,
{
    let mut layout: Vec<ModuleConfig> = Vec::new();
    layout.push(ModuleConfig::Telemetry {  });
    layout.push(ModuleConfig::Notifications {  });
    layout.push(ModuleConfig::Workspaces {  });
    layout.push(
        ModuleConfig::Slider {
            endpoint: owned("audio"),
            label: owned("Master Volume"),
            color: owned("bg-white"),
        },
    );
    layout.push(
        ModuleConfig::Slider {
            endpoint: owned("brightness"),
            label: owned("Display Brightness"),
            color: owned("bg-yellow-400"),
        },
    );
    layout.push(ModuleConfig::MediaSystem {  });
    AppConfig { general: GeneralConfig { theme: owned("glass") }, layout }
}

} // verus!
