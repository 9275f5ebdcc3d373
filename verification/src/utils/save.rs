//! The language recorded in the save data, and the region it selects.
use vstd::prelude::*;

use crate::region::Region;

verus! {

/// A language as the save data numbers it.
#[derive(Debug, Clone, Copy, PartialEq, Eq, Structural)]
pub enum SaveLanguageId {
    Japanese,
    English,
    French,
    Spanish,
    German,
    Italian,
    Dutch,
    Russian,
    Chinese,
    Taiwanese,
    Korean,
}

/// The language a save-data byte names; unknown bytes mean English.
pub open spec fn spec_language_from_byte(byte: u8) -> SaveLanguageId {
    if byte == 0 {
        SaveLanguageId::Japanese
    } else if byte == 1 {
        SaveLanguageId::English
    } else if byte == 2 {
        SaveLanguageId::French
    } else if byte == 3 {
        SaveLanguageId::Spanish
    } else if byte == 4 {
        SaveLanguageId::German
    } else if byte == 5 {
        SaveLanguageId::Italian
    } else if byte == 6 {
        SaveLanguageId::Dutch
    } else if byte == 7 {
        SaveLanguageId::Russian
    } else if byte == 8 {
        SaveLanguageId::Chinese
    } else if byte == 9 {
        SaveLanguageId::Taiwanese
    } else if byte == 10 {
        SaveLanguageId::Korean
    } else {
        SaveLanguageId::English
    }
}

impl From<u8> for SaveLanguageId {
    fn from(byte: u8) -> (r: Self) {
        match byte {
            0 => SaveLanguageId::Japanese,
            1 => SaveLanguageId::English,
            2 => SaveLanguageId::French,
            3 => SaveLanguageId::Spanish,
            4 => SaveLanguageId::German,
            5 => SaveLanguageId::Italian,
            6 => SaveLanguageId::Dutch,
            7 => SaveLanguageId::Russian,
            8 => SaveLanguageId::Chinese,
            9 => SaveLanguageId::Taiwanese,
            10 => SaveLanguageId::Korean,
            _ => SaveLanguageId::English,
        }
    }
}

impl vstd::std_specs::convert::FromSpecImpl<u8> for SaveLanguageId {
    open spec fn obeys_from_spec() -> bool {
        true
    }

    open spec fn from_spec(v: u8) -> Self {
        spec_language_from_byte(v)
    }
}

/// The region the game uses for a language: English, French and Spanish
/// take the US variant when the system region is 1 (the Americas) and the
/// European one otherwise.
pub open spec fn spec_system_region(language: SaveLanguageId, system_region: u32) -> Region {
    match language {
        SaveLanguageId::Japanese => Region::Japanese,
        SaveLanguageId::English => if system_region == 1 { Region::UsEnglish } else { Region::EuEnglish },
        SaveLanguageId::French => if system_region == 1 { Region::UsFrench } else { Region::EuFrench },
        SaveLanguageId::Spanish => if system_region == 1 { Region::UsSpanish } else { Region::EuSpanish },
        SaveLanguageId::German => Region::EuGerman,
        SaveLanguageId::Dutch => Region::EuDutch,
        SaveLanguageId::Italian => Region::EuItalian,
        SaveLanguageId::Russian => Region::EuRussian,
        SaveLanguageId::Chinese => Region::ChinaChinese,
        SaveLanguageId::Taiwanese => Region::TaiwanChinese,
        SaveLanguageId::Korean => Region::Korean,
    }
}

/// The region for a language, given the console's system region (read by
/// the caller from the system's region table).
pub fn get_system_region_from_language_id(language: SaveLanguageId, system_region: u32) -> (r: Region)
    ensures
        r == spec_system_region(language, system_region),
{
    match language {
        SaveLanguageId::Japanese => Region::Japanese,
        SaveLanguageId::English => {
            if system_region == 1 {
                Region::UsEnglish
            } else {
                Region::EuEnglish
            }
        },
        SaveLanguageId::French => {
            if system_region == 1 {
                Region::UsFrench
            } else {
                Region::EuFrench
            }
        },
        SaveLanguageId::Spanish => {
            if system_region == 1 {
                Region::UsSpanish
            } else {
                Region::EuSpanish
            }
        },
        SaveLanguageId::German => Region::EuGerman,
        SaveLanguageId::Dutch => Region::EuDutch,
        SaveLanguageId::Italian => Region::EuItalian,
        SaveLanguageId::Russian => Region::EuRussian,
        SaveLanguageId::Chinese => Region::ChinaChinese,
        SaveLanguageId::Taiwanese => Region::TaiwanChinese,
        SaveLanguageId::Korean => Region::Korean,
    }
}

/// The byte offset of the language in the system save data.
pub const LANGUAGE_OFFSET: u64 = 0x3c6098;

/// The language from the save-data byte at `LANGUAGE_OFFSET`.
pub fn language_from_save_byte(byte: u8) -> (r: SaveLanguageId)
    ensures
        r == spec_language_from_byte(byte),
{
    SaveLanguageId::from(byte)
}

} // verus!
