//! Which bundled symbolic icon stands for an icon key.
use vstd::prelude::*;

use crate::text::same_text;

verus! {

/// The bundled symbolic icons.
#[derive(Debug, Clone, Copy, PartialEq, Eq, Structural)]
pub enum IconAsset {
    Temperature,
    Voltage,
    Fan,
    Memory,
    Cpu,
    System,
    Network,
    NetworkDown,
    NetworkUp,
    Storage,
    Battery,
    Gpu,
}

/// The icon for a key; unknown keys get the system icon.
pub open spec fn icon_for_spec(name: Seq<char>) -> IconAsset {
    if name == "temperature"@ {
        IconAsset::Temperature
    } else if name == "voltage"@ {
        IconAsset::Voltage
    } else if name == "fan"@ {
        IconAsset::Fan
    } else if name == "memory"@ {
        IconAsset::Memory
    } else if name == "processor"@ {
        IconAsset::Cpu
    } else if name == "system"@ {
        IconAsset::System
    } else if name == "network"@ {
        IconAsset::Network
    } else if name == "network-down"@ {
        IconAsset::NetworkDown
    } else if name == "network-up"@ {
        IconAsset::NetworkUp
    } else if name == "storage"@ {
        IconAsset::Storage
    } else if name == "battery"@ {
        IconAsset::Battery
    } else if name == "gpu"@ {
        IconAsset::Gpu
    } else {
        IconAsset::System
    }
}

/// The icon for an icon key (see `Category::icon_name`).
pub fn for_category(name: &str) -> (r: IconAsset)
    ensures
        r == icon_for_spec(name@),
{
    if same_text(name, "temperature") {
        IconAsset::Temperature
    } else if same_text(name, "voltage") {
        IconAsset::Voltage
    } else if same_text(name, "fan") {
        IconAsset::Fan
    } else if same_text(name, "memory") {
        IconAsset::Memory
    } else if same_text(name, "processor") {
        IconAsset::Cpu
    } else if same_text(name, "system") {
        IconAsset::System
    } else if same_text(name, "network") {
        IconAsset::Network
    } else if same_text(name, "network-down") {
        IconAsset::NetworkDown
    } else if same_text(name, "network-up") {
        IconAsset::NetworkUp
    } else if same_text(name, "storage") {
        IconAsset::Storage
    } else if same_text(name, "battery") {
        IconAsset::Battery
    } else if same_text(name, "gpu") {
        IconAsset::Gpu
    } else {
        IconAsset::System
    }
}

} // verus!
