//! Frontend control bindings: which physical control maps to which
//! emulated button, with an optional modifier, packed into a single
//! integer for storage.

use vstd::prelude::*;

verus! {

/// How Game Boy games are run on a Game Boy Color core.
#[derive(Copy, Clone, PartialEq, Eq, Structural, Debug)]
pub enum GameBoyMode {
    /// Run all Game Boy games in Game Boy Color mode.
    AlwaysGBC,
    /// Run Game Boy games in Game Boy mode.
    GBInGBMode,
    /// Run all games in Game Boy mode, even incompatible ones.
    AlwaysGB,
}

impl Default for GameBoyMode {
    /// The default mode runs everything in Game Boy Color mode.
    fn default() -> (r: Self)
        ensures
            r == GameBoyMode::AlwaysGBC,
    {
        GameBoyMode::AlwaysGBC
    }
}

/// Game Boy specific settings.
#[derive(Copy, Clone, PartialEq, Eq, Structural, Debug)]
pub struct GameBoySettings {
    /// The Game Boy Color compatibility mode.
    pub gbc_mode: GameBoyMode,
}

impl Default for GameBoySettings {
    /// Default Game Boy settings.
    fn default() -> (r: Self)
        ensures
            r.gbc_mode == GameBoyMode::AlwaysGBC,
    {
        GameBoySettings { gbc_mode: GameBoyMode::AlwaysGBC }
    }
}

/// An emulated control a physical input can map to.
#[derive(Copy, Clone, PartialEq, Eq, Structural, Debug)]
pub enum Control {
    /// Up on the directional pad.
    Up,
    /// Down on the directional pad.
    Down,
    /// Left on the directional pad.
    Left,
    /// Right on the directional pad.
    Right,
    /// The A button.
    A,
    /// The B button.
    B,
    /// The Start button.
    Start,
    /// The Select button.
    Select,
    /// The L shoulder button.
    L,
    /// The R shoulder button.
    R,
    /// The X button.
    X,
    /// The Y button.
    Y,
    /// Fast-forward.
    Turbo,
    /// Reset the console.
    Reset,
    /// Pause emulation.
    Pause,
}

impl Control {
    /// The integer this control is stored as.
    pub open spec fn spec_code(self) -> u32 {
        match self {
            Control::Up => 0,
            Control::Down => 1,
            Control::Left => 2,
            Control::Right => 3,
            Control::A => 4,
            Control::B => 5,
            Control::Start => 6,
            Control::Select => 7,
            Control::L => 8,
            Control::R => 9,
            Control::X => 10,
            Control::Y => 11,
            Control::Turbo => 12,
            Control::Reset => 13,
            Control::Pause => 14,
        }
    }

    /// The control stored under an integer, if the integer is known.
    pub open spec fn spec_from_code(code: u32) -> Option<Control> {
        if code == 0 {
            Some(Control::Up)
        } else if code == 1 {
            Some(Control::Down)
        } else if code == 2 {
            Some(Control::Left)
        } else if code == 3 {
            Some(Control::Right)
        } else if code == 4 {
            Some(Control::A)
        } else if code == 5 {
            Some(Control::B)
        } else if code == 6 {
            Some(Control::Start)
        } else if code == 7 {
            Some(Control::Select)
        } else if code == 8 {
            Some(Control::L)
        } else if code == 9 {
            Some(Control::R)
        } else if code == 10 {
            Some(Control::X)
        } else if code == 11 {
            Some(Control::Y)
        } else if code == 12 {
            Some(Control::Turbo)
        } else if code == 13 {
            Some(Control::Reset)
        } else if code == 14 {
            Some(Control::Pause)
        } else {
            None
        }
    }

    /// Converts this control to its integer code.
    pub fn as_code(self) -> (r: u32)
        ensures
            r == self.spec_code(),
    {
        match self {
            Control::Up => 0,
            Control::Down => 1,
            Control::Left => 2,
            Control::Right => 3,
            Control::A => 4,
            Control::B => 5,
            Control::Start => 6,
            Control::Select => 7,
            Control::L => 8,
            Control::R => 9,
            Control::X => 10,
            Control::Y => 11,
            Control::Turbo => 12,
            Control::Reset => 13,
            Control::Pause => 14,
        }
    }

    /// Looks a control up by its integer code.
    pub fn from_code(code: u32) -> (r: Option<Control>)
        ensures
            r == Control::spec_from_code(code),
    {
        if code == 0 {
            Some(Control::Up)
        } else if code == 1 {
            Some(Control::Down)
        } else if code == 2 {
            Some(Control::Left)
        } else if code == 3 {
            Some(Control::Right)
        } else if code == 4 {
            Some(Control::A)
        } else if code == 5 {
            Some(Control::B)
        } else if code == 6 {
            Some(Control::Start)
        } else if code == 7 {
            Some(Control::Select)
        } else if code == 8 {
            Some(Control::L)
        } else if code == 9 {
            Some(Control::R)
        } else if code == 10 {
            Some(Control::X)
        } else if code == 11 {
            Some(Control::Y)
        } else if code == 12 {
            Some(Control::Turbo)
        } else if code == 13 {
            Some(Control::Reset)
        } else if code == 14 {
            Some(Control::Pause)
        } else {
            None
        }
    }

    /// Whether this control maps to an emulated console button, as opposed
    /// to a frontend action.
    pub fn is_button(self) -> (r: bool)
        ensures
            r == !(self == Control::Turbo || self == Control::Reset || self == Control::Pause),
    {
        match self {
            Control::Turbo => false,
            Control::Reset => false,
            Control::Pause => false,
            _ => true,
        }
    }
}

/// How a bound control behaves when held.
#[derive(Copy, Clone, PartialEq, Eq, Structural, Debug)]
pub enum ControlModifier {
    /// Held while the physical input is held.
    Normal,
    /// Rapid fire while the physical input is held.
    Rapid,
    /// Toggled on each press.
    Toggle,
}

impl Default for ControlModifier {
    /// The default modifier is `Normal`.
    fn default() -> (r: Self)
        ensures
            r == ControlModifier::Normal,
    {
        ControlModifier::Normal
    }
}

impl ControlModifier {
    /// The integer this modifier is stored as.
    pub open spec fn spec_code(self) -> u32 {
        match self {
            ControlModifier::Normal => 0,
            ControlModifier::Rapid => 1,
            ControlModifier::Toggle => 2,
        }
    }

    /// The modifier stored under an integer, if the integer is known.
    pub open spec fn spec_from_code(code: u32) -> Option<ControlModifier> {
        if code == 0 {
            Some(ControlModifier::Normal)
        } else if code == 1 {
            Some(ControlModifier::Rapid)
        } else if code == 2 {
            Some(ControlModifier::Toggle)
        } else {
            None
        }
    }

    /// Converts this modifier to its integer code.
    pub fn as_code(self) -> (r: u32)
        ensures
            r == self.spec_code(),
    {
        match self {
            ControlModifier::Normal => 0,
            ControlModifier::Rapid => 1,
            ControlModifier::Toggle => 2,
        }
    }

    /// Looks a modifier up by its integer code.
    pub fn from_code(code: u32) -> (r: Option<ControlModifier>)
        ensures
            r == ControlModifier::spec_from_code(code),
    {
        if code == 0 {
            Some(ControlModifier::Normal)
        } else if code == 1 {
            Some(ControlModifier::Rapid)
        } else if code == 2 {
            Some(ControlModifier::Toggle)
        } else {
            None
        }
    }

    /// Whether this is the default modifier.
    pub fn is_default(&self) -> (r: bool)
        ensures
            r == (*self == ControlModifier::Normal),
    {
        match self {
            ControlModifier::Normal => true,
            _ => false,
        }
    }
}

/// A control with its modifier.
#[derive(Copy, Clone, PartialEq, Eq, Structural, Debug)]
pub struct ControlSetting {
    /// The emulated control.
    pub control: Control,
    /// How the control behaves when held.
    pub modifier: ControlModifier,
}

impl ControlSetting {
    /// Packs this setting into one integer: the control code in the low
    /// half, the modifier code in the high half.
    pub fn as_u64(self) -> (r: u64)
        ensures
            r == self.control.spec_code() + self.modifier.spec_code() * 0x1_0000_0000,
    {
        let low = self.control.as_code() as u64;
        let high = self.modifier.as_code() as u64;
        low + high * 0x1_0000_0000
    }

    /// Unpacks a setting packed by [`ControlSetting::as_u64`]; unknown
    /// codes in either half yield `None`.
    pub fn from_u64(u: u64) -> (r: Option<Self>)
        ensures
            (r matches Some(s) ==> Control::spec_from_code((u % 0x1_0000_0000) as u32) == Some(
                s.control,
            ) && ControlModifier::spec_from_code((u / 0x1_0000_0000) as u32) == Some(s.modifier)),
            (r is None ==> Control::spec_from_code((u % 0x1_0000_0000) as u32) is None
                || ControlModifier::spec_from_code((u / 0x1_0000_0000) as u32) is None),
    {
        let low = (u % 0x1_0000_0000) as u32;
        let high = (u / 0x1_0000_0000) as u32;
        let control = match Control::from_code(low) {
            Some(c) => c,
            None => {
                return None;
            },
        };
        let modifier = match ControlModifier::from_code(high) {
            Some(m) => m,
            None => {
                return None;
            },
        };
        Some(ControlSetting { control, modifier })
    }
}

/// Packing a control setting and unpacking it yields the setting back.
pub proof fn lemma_control_setting_round_trip(s: ControlSetting)
    ensures
        Control::spec_from_code(
            ((s.control.spec_code() + s.modifier.spec_code() * 0x1_0000_0000) % 0x1_0000_0000)
                as u32,
        ) == Some(s.control),
        ControlModifier::spec_from_code(
            ((s.control.spec_code() + s.modifier.spec_code() * 0x1_0000_0000) / 0x1_0000_0000)
                as u32,
        ) == Some(s.modifier),
{
    let low = s.control.spec_code() as u64;
    let high = s.modifier.spec_code() as u64;
    assert((low + high * 0x1_0000_0000) % 0x1_0000_0000 == low) by (nonlinear_arith)
        requires
            low < 0x1_0000_0000,
            high < 0x1_0000_0000,
    ;
    assert((low + high * 0x1_0000_0000) / 0x1_0000_0000 == high) by (nonlinear_arith)
        requires
            low < 0x1_0000_0000,
            high < 0x1_0000_0000,
    ;
}

} // verus!
