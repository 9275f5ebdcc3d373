//! The game's regions (language and market) and their codes.
use vstd::prelude::*;

verus! {

/// A region of the game: a language and a market.
#[derive(Clone, Copy, Debug, PartialEq, Eq, Structural)]
pub enum Region {
    NoRegion,
    Japanese,
    UsEnglish,
    UsFrench,
    UsSpanish,
    EuEnglish,
    EuFrench,
    EuSpanish,
    EuGerman,
    EuDutch,
    EuItalian,
    EuRussian,
    Korean,
    ChinaChinese,
    TaiwanChinese,
}

/// The region with the given number; numbers outside 1..=14 give `NoRegion`.
pub open spec fn spec_region_from_index(r: nat) -> Region {
    if r == 1 {
        Region::Japanese
    } else if r == 2 {
        Region::UsEnglish
    } else if r == 3 {
        Region::UsFrench
    } else if r == 4 {
        Region::UsSpanish
    } else if r == 5 {
        Region::EuEnglish
    } else if r == 6 {
        Region::EuFrench
    } else if r == 7 {
        Region::EuSpanish
    } else if r == 8 {
        Region::EuGerman
    } else if r == 9 {
        Region::EuDutch
    } else if r == 10 {
        Region::EuItalian
    } else if r == 11 {
        Region::EuRussian
    } else if r == 12 {
        Region::Korean
    } else if r == 13 {
        Region::ChinaChinese
    } else if r == 14 {
        Region::TaiwanChinese
    } else {
        Region::NoRegion
    }
}

/// The short code of a region, empty for `NoRegion`.
pub open spec fn spec_region_code(r: Region) -> Seq<char> {
    match r {
        Region::NoRegion => ""@,
        Region::Japanese => "jp_ja"@,
        Region::UsEnglish => "us_en"@,
        Region::UsFrench => "us_fr"@,
        Region::UsSpanish => "us_es"@,
        Region::EuEnglish => "eu_en"@,
        Region::EuFrench => "eu_fr"@,
        Region::EuSpanish => "eu_es"@,
        Region::EuGerman => "eu_de"@,
        Region::EuDutch => "eu_nl"@,
        Region::EuItalian => "eu_it"@,
        Region::EuRussian => "eu_ru"@,
        Region::Korean => "kr_ko"@,
        Region::ChinaChinese => "zh_cn"@,
        Region::TaiwanChinese => "zh_tw"@,
    }
}

impl Region {
    /// The region with the given number; numbers outside 1..=14 give `NoRegion`.
    pub fn from_index(r: usize) -> (out: Region)
        ensures
            out == spec_region_from_index(r as nat),
    {
        match r {
            1 => Region::Japanese,
            2 => Region::UsEnglish,
            3 => Region::UsFrench,
            4 => Region::UsSpanish,
            5 => Region::EuEnglish,
            6 => Region::EuFrench,
            7 => Region::EuSpanish,
            8 => Region::EuGerman,
            9 => Region::EuDutch,
            10 => Region::EuItalian,
            11 => Region::EuRussian,
            12 => Region::Korean,
            13 => Region::ChinaChinese,
            14 => Region::TaiwanChinese,
            _ => Region::NoRegion,
        }
    }

    /// The region's number.
    pub fn index(&self) -> (r: usize)
        ensures
            spec_region_from_index(r as nat) == *self,
            r <= 14,
    {
        match self {
            Region::NoRegion => 0,
            Region::Japanese => 1,
            Region::UsEnglish => 2,
            Region::UsFrench => 3,
            Region::UsSpanish => 4,
            Region::EuEnglish => 5,
            Region::EuFrench => 6,
            Region::EuSpanish => 7,
            Region::EuGerman => 8,
            Region::EuDutch => 9,
            Region::EuItalian => 10,
            Region::EuRussian => 11,
            Region::Korean => 12,
            Region::ChinaChinese => 13,
            Region::TaiwanChinese => 14,
        }
    }

    /// The short code of the region, such as `us_en`; empty for `NoRegion`.
    pub fn code(&self) -> (r: &'static str)
        ensures
            r@ == spec_region_code(*self),
    {
        match self {
            Region::NoRegion => "",
            Region::Japanese => "jp_ja",
            Region::UsEnglish => "us_en",
            Region::UsFrench => "us_fr",
            Region::UsSpanish => "us_es",
            Region::EuEnglish => "eu_en",
            Region::EuFrench => "eu_fr",
            Region::EuSpanish => "eu_es",
            Region::EuGerman => "eu_de",
            Region::EuDutch => "eu_nl",
            Region::EuItalian => "eu_it",
            Region::EuRussian => "eu_ru",
            Region::Korean => "kr_ko",
            Region::ChinaChinese => "zh_cn",
            Region::TaiwanChinese => "zh_tw",
        }
    }
}

/// A locale of the archive: the market a localized file has an entry for,
/// in the archive's order of those entries.
#[derive(Clone, Copy, Debug, PartialEq, Eq, Structural)]
pub enum Locale {
    NoLocale,
    Japan,
    UnitedStates,
    Europe,
    Korea,
    China,
}

/// The locale of a region: its market. `NoRegion` has none.
pub open spec fn spec_region_locale(r: Region) -> Locale {
    match r {
        Region::NoRegion => Locale::NoLocale,
        Region::Japanese => Locale::Japan,
        Region::UsEnglish => Locale::UnitedStates,
        Region::UsFrench => Locale::UnitedStates,
        Region::UsSpanish => Locale::UnitedStates,
        Region::EuEnglish => Locale::Europe,
        Region::EuFrench => Locale::Europe,
        Region::EuSpanish => Locale::Europe,
        Region::EuGerman => Locale::Europe,
        Region::EuDutch => Locale::Europe,
        Region::EuItalian => Locale::Europe,
        Region::EuRussian => Locale::Europe,
        Region::Korean => Locale::Korea,
        Region::ChinaChinese => Locale::China,
        Region::TaiwanChinese => Locale::China,
    }
}

/// The place of a locale among a localized file's entries.
pub open spec fn spec_locale_number(l: Locale) -> int {
    match l {
        Locale::NoLocale => 0,
        Locale::Japan => 1,
        Locale::UnitedStates => 2,
        Locale::Europe => 3,
        Locale::Korea => 4,
        Locale::China => 5,
    }
}

/// The locale whose entry a localized file is read from in a region: the
/// region's locale, or Japan's for a region without one.
pub open spec fn spec_entry_locale(r: Region) -> Locale {
    if spec_region_locale(r) == Locale::NoLocale { Locale::Japan } else { spec_region_locale(r) }
}

} // verus!
