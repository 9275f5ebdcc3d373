//! Telling the console from an emulator by where the code section is mapped.
use vstd::prelude::*;

verus! {

/// What the game runs on.
#[non_exhaustive]
#[derive(Debug, Clone, Copy, PartialEq, Eq, Structural)]
pub enum RunEnvironment {
    Switch,
    Ryujinx,
}

/// Where Ryujinx maps the code section.
pub const RYUJINX_TEXT_ADDRESS: u64 = 0x8004000;

/// What the game runs on, given the address of its code section.
pub open spec fn spec_running_env(text_address: u64) -> RunEnvironment {
    if text_address == RYUJINX_TEXT_ADDRESS {
        RunEnvironment::Ryujinx
    } else {
        RunEnvironment::Switch
    }
}

/// What the game runs on, from the address of its code section: Ryujinx
/// maps it at a fixed address.
pub fn get_running_env(text_address: u64) -> (r: RunEnvironment)
    ensures
        r == spec_running_env(text_address),
{
    if text_address == RYUJINX_TEXT_ADDRESS {
        RunEnvironment::Ryujinx
    } else {
        RunEnvironment::Switch
    }
}

/// As the loader has it: true when the environment is `Switch`.
pub fn is_emulator(text_address: u64) -> (r: bool)
    ensures
        r == (spec_running_env(text_address) == RunEnvironment::Switch),
{
    match get_running_env(text_address) {
        RunEnvironment::Switch => true,
        _ => false,
    }
}

pub fn is_ryujinx(text_address: u64) -> (r: bool)
    ensures
        r == (spec_running_env(text_address) == RunEnvironment::Ryujinx),
{
    match get_running_env(text_address) {
        RunEnvironment::Ryujinx => true,
        _ => false,
    }
}

} // verus!
