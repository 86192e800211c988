//! Root-hub port features of the host controller, as masks of the port's
//! status and control register, and the driver's match on a device class.
use vstd::prelude::*;

verus! {

/// A feature of a root-hub port.
#[derive(Clone, Copy, Debug, PartialEq, Eq)]
pub enum PortFeature {
    Connection,
    Enable,
    Suspend,
    OverCurrent,
    Reset,
    Power,
    LowSpeed,
    CConnection,
    CEnable,
    CSuspend,
    COverCurrent,
    CReset,
    Test,
    Indicator,
}

/// The bits that setting a feature puts into the register; `None` for a
/// feature that cannot be set.
pub open spec fn set_mask(feature: PortFeature) -> Option<u32> {
    match feature {
        PortFeature::Connection => Some(0x1u32),
        PortFeature::Enable => Some(0x2u32),
        PortFeature::OverCurrent => Some(0x8u32),
        PortFeature::Reset => Some(0x10u32),
        PortFeature::Power => Some(0x200u32),
        PortFeature::Indicator => Some(0x8000u32),
        _ => None,
    }
}

/// The bits that clearing a feature takes out of the register, and that
/// reading a feature looks at; `None` for a feature that the register does
/// not hold.
pub open spec fn clear_mask(feature: PortFeature) -> Option<u32> {
    match feature {
        PortFeature::Connection => Some(0x1u32),
        PortFeature::Enable => Some(0x2u32),
        PortFeature::OverCurrent => Some(0x8u32),
        PortFeature::Reset => Some(0x10u32),
        PortFeature::Power => Some(0x200u32),
        PortFeature::CConnection => Some(0x2_0000u32),
        PortFeature::CEnable => Some(0x4_0000u32),
        PortFeature::COverCurrent => Some(0x10_0000u32),
        PortFeature::CReset => Some(0x20_0000u32),
        PortFeature::Indicator => Some(0xC000u32),
        _ => None,
    }
}

/// The bits that reading a feature looks at; `None` for a feature that
/// always reads as off.
pub open spec fn get_mask(feature: PortFeature) -> Option<u32> {
    match feature {
        PortFeature::LowSpeed => None,
        _ => clear_mask(feature),
    }
}

/// The host controller's side of the root hub.
pub struct UsbHost;

impl UsbHost {
    /// The value to write to a port's register, which holds `sc`, to set
    /// `feature`; `None` if nothing is to be written.
    pub fn set_port_feature(&self, sc: u32, feature: PortFeature) -> (write: Option<u32>)
        ensures
            write == match set_mask(feature) {
                Some(mask) => Some(sc | mask),
                None => None,
            },
    {
        let mask: u32 = match feature {
            PortFeature::Connection => 1 << 0,
            PortFeature::Enable => 1 << 1,
            PortFeature::Suspend => {
                return None;
            },
            PortFeature::OverCurrent => 1 << 3,
            PortFeature::Reset => 1 << 4,
            PortFeature::Power => 1 << 9,
            PortFeature::LowSpeed => {
                return None;
            },
            PortFeature::CConnection => {
                return None;
            },
            PortFeature::CEnable => {
                return None;
            },
            PortFeature::CSuspend => {
                return None;
            },
            PortFeature::COverCurrent => {
                return None;
            },
            PortFeature::CReset => {
                return None;
            },
            PortFeature::Test => {
                return None;
            },
            PortFeature::Indicator => 2 << 14,
        };
        proof {
            lemma_masks();
        }
        Some(sc | mask)
    }

    /// The value to write to a port's register, which holds `sc`, to clear
    /// `feature`; `None` if nothing is to be written.
    pub fn clear_port_feature(&self, sc: u32, feature: PortFeature) -> (write: Option<u32>)
        ensures
            write == match clear_mask(feature) {
                Some(mask) => Some(sc & !mask),
                None => None,
            },
    {
        let mask: u32 = match feature {
            PortFeature::Connection => 1 << 0,
            PortFeature::Enable => 1 << 1,
            PortFeature::Suspend => {
                return None;
            },
            PortFeature::OverCurrent => 1 << 3,
            PortFeature::Reset => 1 << 4,
            PortFeature::Power => 1 << 9,
            PortFeature::LowSpeed => {
                return None;
            },
            PortFeature::CConnection => 1 << 17,
            PortFeature::CEnable => 1 << 18,
            PortFeature::CSuspend => {
                return None;
            },
            PortFeature::COverCurrent => 1 << 20,
            PortFeature::CReset => 1 << 21,
            PortFeature::Test => {
                return None;
            },
            PortFeature::Indicator => 3 << 14,
        };
        proof {
            lemma_masks();
        }
        Some(sc & !mask)
    }

    /// Whether `feature` is on in a port's register, which holds `sc`.
    pub fn get_port_feature(&self, sc: u32, feature: PortFeature) -> (on: bool)
        ensures
            on == match get_mask(feature) {
                Some(mask) => sc & mask != 0,
                None => false,
            },
    {
        let mask: u32 = match feature {
            PortFeature::Connection => 1 << 0,
            PortFeature::Enable => 1 << 1,
            PortFeature::Suspend => {
                return false;
            },
            PortFeature::OverCurrent => 1 << 3,
            PortFeature::Reset => 1 << 4,
            PortFeature::Power => 1 << 9,
            PortFeature::LowSpeed => {
                return false;
            },
            PortFeature::CConnection => 1 << 17,
            PortFeature::CEnable => 1 << 18,
            PortFeature::CSuspend => {
                return false;
            },
            PortFeature::COverCurrent => 1 << 20,
            PortFeature::CReset => 1 << 21,
            PortFeature::Test => {
                return false;
            },
            PortFeature::Indicator => 3 << 14,
        };
        proof {
            lemma_masks();
        }
        sc & mask != 0
    }
}

/// The masks as numbers.
proof fn lemma_masks()
    ensures
        1u32 << 0 == 0x1,
        1u32 << 1 == 0x2,
        1u32 << 3 == 0x8,
        1u32 << 4 == 0x10,
        1u32 << 9 == 0x200,
        1u32 << 17 == 0x2_0000,
        1u32 << 18 == 0x4_0000,
        1u32 << 20 == 0x10_0000,
        1u32 << 21 == 0x20_0000,
        2u32 << 14 == 0x8000,
        3u32 << 14 == 0xC000,
{
    assert(1u32 << 0 == 0x1 && 1u32 << 1 == 0x2 && 1u32 << 3 == 0x8 && 1u32 << 4 == 0x10 && 1u32
        << 9 == 0x200 && 1u32 << 17 == 0x2_0000 && 1u32 << 18 == 0x4_0000 && 1u32 << 20
        == 0x10_0000 && 1u32 << 21 == 0x20_0000 && 2u32 << 14 == 0x8000 && 3u32 << 14 == 0xC000)
        by (bit_vector);
}

/// The class of devices that the driver takes: serial bus, USB, with the
/// enhanced host controller's programming interface.
pub const EHCI_CLASS: u32 = 0x0C03_2000;

/// The driver of the enhanced host controller on the PCI bus.
pub struct PciDriver;

impl PciDriver {
    /// The name of the driver.
    pub fn name(&self) -> (name: &'static str)
        ensures
            name == "ohci-pci",
    {
        "ohci-pci"
    }

    /// The bus that the driver's devices sit on.
    pub fn bus_type(&self) -> (bus: &'static str)
        ensures
            bus == "pci",
    {
        "pci"
    }

    /// How well the driver handles a device of this class word: 1 if the
    /// class, without the revision in its low byte, is the driver's, else 0.
    pub fn handles(&self, class: u32) -> (level: u32)
        ensures
            level == if class & 0xFFFF_FF00 == EHCI_CLASS {
                1u32
            } else {
                0u32
            },
    {
        if class & 0xFFFF_FF00 == EHCI_CLASS {
            1
        } else {
            0
        }
    }
}

} // verus!
