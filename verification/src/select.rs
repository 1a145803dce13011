use vstd::prelude::*;

verus! {

/// Which candidate set the resolver should consider; orthogonal to the
/// region.
#[derive(Clone, Copy, Debug, PartialEq, Eq, Structural)]
pub enum FontStyle {
    Sans,
    Serif,
}

/// A single-script font-selection unit: the atomic input to resolution.
#[derive(Clone, Copy, Debug, PartialEq, Eq, Structural)]
pub enum FontPreset {
    Korean,
    Japanese,
    SimplifiedChinese,
    TraditionalChinese,
    Latin,
    Cyrillic,
}

/// A supported script/region. A region expands to an ordered list of
/// presets: the priority chain that covers its composite scripts.
#[derive(Clone, Copy, Debug, PartialEq, Eq, Structural)]
pub enum FontRegion {
    Korean,
    Japanese,
    SimplifiedChinese,
    TraditionalChinese,
    Latin,
    Cyrillic,
}

/// The fixed preset chain of each region, most preferred first: the
/// region's own script, a related script where one helps coverage, and
/// Latin as the common tail.
pub open spec fn region_presets(region: FontRegion) -> Seq<FontPreset> {
    match region {
        FontRegion::Korean => seq![FontPreset::Korean, FontPreset::Latin],
        FontRegion::Japanese => seq![FontPreset::Japanese, FontPreset::Latin],
        FontRegion::SimplifiedChinese => seq![FontPreset::SimplifiedChinese, FontPreset::Latin],
        FontRegion::TraditionalChinese => seq![
            FontPreset::TraditionalChinese,
            FontPreset::SimplifiedChinese,
            FontPreset::Latin,
        ],
        FontRegion::Latin => seq![FontPreset::Latin],
        FontRegion::Cyrillic => seq![FontPreset::Cyrillic, FontPreset::Latin],
    }
}

/// Expands a region to its preset priority chain via the fixed lookup.
pub fn presets_for_region(region: FontRegion) -> (presets: Vec<FontPreset>)
    ensures
        presets@ == region_presets(region),
{
    let presets: Vec<FontPreset> = match region {
        FontRegion::Korean => vec![FontPreset::Korean, FontPreset::Latin],
        FontRegion::Japanese => vec![FontPreset::Japanese, FontPreset::Latin],
        FontRegion::SimplifiedChinese => vec![FontPreset::SimplifiedChinese, FontPreset::Latin],
        FontRegion::TraditionalChinese => vec![
            FontPreset::TraditionalChinese,
            FontPreset::SimplifiedChinese,
            FontPreset::Latin,
        ],
        FontRegion::Latin => vec![FontPreset::Latin],
        FontRegion::Cyrillic => vec![FontPreset::Cyrillic, FontPreset::Latin],
    };
    proof {
        assert(presets@ =~= region_presets(region));
    }
    presets
}

} // verus!
