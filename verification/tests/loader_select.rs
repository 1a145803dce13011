use font_fallback::defs::FontDefs;
use font_fallback::engine::install_replacing;
use font_fallback::loader::{load, ByteSource, Candidate, FoundFont};
use font_fallback::select::{presets_for_region, FontPreset, FontRegion};

#[test]
fn load_embedded_bytes_always_succeeds() {
    let r = load(ByteSource::Bytes(vec![1, 2, 3]), None);
    assert_eq!(r, Some(vec![1, 2, 3]));
    let r = load(ByteSource::Bytes(vec![]), Some(vec![9]));
    assert_eq!(r, Some(vec![]));
}

#[test]
fn load_path_passes_the_file_read_through() {
    let r = load(ByteSource::Path("/fonts/one.ttf".to_string()), Some(vec![4, 5]));
    assert_eq!(r, Some(vec![4, 5]));
    let r = load(ByteSource::Path("/fonts/missing.ttf".to_string()), None);
    assert_eq!(r, None);
}

#[test]
fn candidate_from_font_keeps_key_and_family() {
    let font = FoundFont {
        key: "noto-kr".to_string(),
        family: "Noto Sans KR".to_string(),
        source: ByteSource::Bytes(vec![7]),
    };
    let c = Candidate::from_font(font, None);
    assert_eq!(c.key, "noto-kr");
    assert_eq!(c.family, "Noto Sans KR");
    assert_eq!(c.bytes, Some(vec![7]));
}

#[test]
fn replace_scenario_one_load_fails() {
    let kr = FoundFont {
        key: "noto-kr".to_string(),
        family: "Noto Sans KR".to_string(),
        source: ByteSource::Path("/fonts/NotoSansKR.ttf".to_string()),
    };
    let jp = FoundFont {
        key: "noto-jp".to_string(),
        family: "Noto Sans JP".to_string(),
        source: ByteSource::Path("/fonts/NotoSansJP.ttf".to_string()),
    };
    // the first path reads fine, the second is missing
    let cands = vec![
        Candidate::from_font(kr, Some(vec![1, 2, 3])),
        Candidate::from_font(jp, None),
    ];
    let mut defs = FontDefs::new();
    let (commit, names) = install_replacing(&mut defs, cands);
    assert!(commit);
    assert_eq!(names, vec!["Noto Sans KR"]);
    assert_eq!(defs.proportional[0], "noto-kr");
    assert_eq!(defs.font_data.len(), 1);
    assert_eq!(defs.font_data[0].key, "noto-kr");
    assert_eq!(defs.font_data[0].bytes, vec![1, 2, 3]);
}

#[test]
fn region_preset_chains() {
    assert_eq!(
        presets_for_region(FontRegion::Korean),
        vec![FontPreset::Korean, FontPreset::Latin]
    );
    assert_eq!(
        presets_for_region(FontRegion::Japanese),
        vec![FontPreset::Japanese, FontPreset::Latin]
    );
    assert_eq!(
        presets_for_region(FontRegion::SimplifiedChinese),
        vec![FontPreset::SimplifiedChinese, FontPreset::Latin]
    );
    assert_eq!(
        presets_for_region(FontRegion::TraditionalChinese),
        vec![
            FontPreset::TraditionalChinese,
            FontPreset::SimplifiedChinese,
            FontPreset::Latin
        ]
    );
    assert_eq!(presets_for_region(FontRegion::Latin), vec![FontPreset::Latin]);
    assert_eq!(
        presets_for_region(FontRegion::Cyrillic),
        vec![FontPreset::Cyrillic, FontPreset::Latin]
    );
}

#[test]
fn new_defs_are_empty() {
    let defs = FontDefs::new();
    assert!(defs.font_data.is_empty());
    assert!(defs.proportional.is_empty());
    assert!(defs.monospace.is_empty());
}
