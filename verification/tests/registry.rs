//! Registry behaviour: registration, catalog ordering, and matching.

use fontmanager::FontInfo;
use fontmanager::FontManager;
use fontmanager::FontRecord;
use fontmanager::FontSourceType;
use fontmanager::FontStyle;

fn rec(family: &str, style: FontStyle, weight: u32, path: Option<&str>) -> FontRecord {
    FontRecord {
        family: family.to_string(),
        style,
        weight,
        stretch: 1000,
        monospaced: false,
        path: path.map(|p| p.to_string()),
        index: None,
    }
}

fn manager_with(records: Vec<FontRecord>) -> FontManager<u64> {
    let mut m: FontManager<u64> = FontManager::new();
    assert!(m.add_backend(FontSourceType::Fontkit, &records));
    m
}

#[test]
fn style_names() {
    assert_eq!(FontStyle::Normal.as_str(), "Normal");
    assert_eq!(FontStyle::Italic.as_str(), "Italic");
    assert_eq!(FontStyle::Oblique.as_str(), "Oblique");
}

#[test]
fn source_names() {
    assert_eq!(FontSourceType::Fontkit.as_str(), "fontkit");
    assert_eq!(FontSourceType::Fontique.as_str(), "fontique");
    assert_eq!(FontSourceType::Parley.as_str(), "parley");
    assert_eq!(FontSourceType::Pango.as_str(), "pango");
}

#[test]
fn sources_in_registration_order() {
    let mut m: FontManager<u64> = FontManager::new();
    assert!(m.add_backend(FontSourceType::Pango, &vec![]));
    assert!(m.add_backend(FontSourceType::Fontkit, &vec![]));
    assert_eq!(m.sources(), vec![FontSourceType::Pango, FontSourceType::Fontkit]);
}

#[test]
fn duplicate_backend_rejected() {
    let mut m: FontManager<u64> = FontManager::new();
    assert!(m.add_backend(FontSourceType::Fontkit, &vec![rec("Arial", FontStyle::Normal, 400, None)]));
    assert!(!m.add_backend(FontSourceType::Fontkit, &vec![rec("Times", FontStyle::Normal, 400, None)]));
    let fonts = m.available_fonts(FontSourceType::Fontkit);
    assert_eq!(fonts.len(), 1);
    assert_eq!(fonts[0].family, "Arial");
}

#[test]
fn available_fonts_sorted_by_family() {
    let m = manager_with(vec![
        rec("Georgia", FontStyle::Normal, 400, None),
        rec("Arial", FontStyle::Normal, 400, None),
        rec("Courier", FontStyle::Normal, 400, None),
    ]);
    let fonts = m.available_fonts(FontSourceType::Fontkit);
    let families: Vec<&str> = fonts.iter().map(|f| f.family.as_str()).collect();
    assert_eq!(families, vec!["Arial", "Courier", "Georgia"]);
}

#[test]
fn available_fonts_stable_for_equal_families() {
    let m = manager_with(vec![
        rec("Arial", FontStyle::Normal, 400, None),
        rec("Times", FontStyle::Normal, 400, None),
        rec("Arial", FontStyle::Italic, 700, None),
        rec("Arial", FontStyle::Oblique, 200, None),
    ]);
    let fonts = m.available_fonts(FontSourceType::Fontkit);
    let arials: Vec<u32> = fonts.iter().filter(|f| f.family == "Arial").map(|f| f.weight).collect();
    // equal families keep their enumeration order
    assert_eq!(arials, vec![400, 700, 200]);
}

#[test]
fn available_fonts_inactive_backend_empty() {
    let m = manager_with(vec![rec("Arial", FontStyle::Normal, 400, None)]);
    assert!(m.available_fonts(FontSourceType::Pango).is_empty());
}

#[test]
fn find_matches_style_exactly() {
    let m = manager_with(vec![
        rec("Arial", FontStyle::Normal, 400, None),
        rec("Arial", FontStyle::Italic, 400, None),
    ]);
    let families = vec!["Arial".to_string()];
    let hit = m.find(FontSourceType::Fontkit, &families, FontStyle::Italic);
    let f: FontInfo = hit.expect("the italic face exists");
    assert_eq!(f.family, "Arial");
    assert_eq!(f.style, FontStyle::Italic);
    assert!(m.find(FontSourceType::Fontkit, &families, FontStyle::Oblique).is_none());
}

#[test]
fn find_generic_family_resolves() {
    let m = manager_with(vec![rec("DejaVu Sans", FontStyle::Normal, 400, None)]);
    let families = vec!["sans-serif".to_string()];
    let f = m.find(FontSourceType::Fontkit, &families, FontStyle::Normal);
    assert!(f.is_some());
}

#[test]
fn find_generic_prefers_requested_style() {
    let m = manager_with(vec![
        rec("DejaVu Sans", FontStyle::Normal, 400, None),
        rec("DejaVu Sans", FontStyle::Italic, 400, None),
    ]);
    let families = vec!["monospace".to_string()];
    let f = m.find(FontSourceType::Fontkit, &families, FontStyle::Italic).unwrap();
    assert_eq!(f.style, FontStyle::Italic);
}

#[test]
fn find_generic_on_empty_catalog_is_none() {
    let m = manager_with(vec![]);
    let families = vec!["sans-serif".to_string()];
    assert!(m.find(FontSourceType::Fontkit, &families, FontStyle::Normal).is_none());
}

#[test]
fn find_trims_quotes_and_whitespace() {
    let m = manager_with(vec![rec("Comic Sans MS", FontStyle::Normal, 400, None)]);
    let quoted = vec!["'Comic Sans MS'  ".to_string()];
    let plain = vec!["Comic Sans MS".to_string()];
    let a = m.find(FontSourceType::Fontkit, &quoted, FontStyle::Normal).unwrap();
    let b = m.find(FontSourceType::Fontkit, &plain, FontStyle::Normal).unwrap();
    assert_eq!(a.family, b.family);
    assert_eq!(a.style, b.style);
    assert_eq!(a.weight, b.weight);
}

#[test]
fn find_quoted_generic_still_resolves() {
    let m = manager_with(vec![rec("Liberation Serif", FontStyle::Normal, 400, None)]);
    let families = vec![" 'serif' ".to_string()];
    assert!(m.find(FontSourceType::Fontkit, &families, FontStyle::Normal).is_some());
}

#[test]
fn find_is_case_insensitive() {
    let m = manager_with(vec![rec("Arial", FontStyle::Normal, 400, None)]);
    let families = vec!["aRIaL".to_string()];
    let f = m.find(FontSourceType::Fontkit, &families, FontStyle::Normal).unwrap();
    assert_eq!(f.family, "Arial");
}

#[test]
fn find_tries_families_in_order() {
    let m = manager_with(vec![
        rec("Helvetica", FontStyle::Normal, 400, None),
        rec("Arial", FontStyle::Normal, 400, None),
    ]);
    let families = vec!["NoSuchFamily".to_string(), "Arial".to_string(), "Helvetica".to_string()];
    let f = m.find(FontSourceType::Fontkit, &families, FontStyle::Normal).unwrap();
    assert_eq!(f.family, "Arial");
}

#[test]
fn find_first_in_catalog_order_wins() {
    let m = manager_with(vec![
        rec("Arial", FontStyle::Normal, 400, None),
        rec("Arial", FontStyle::Normal, 700, None),
    ]);
    let families = vec!["Arial".to_string()];
    let f = m.find(FontSourceType::Fontkit, &families, FontStyle::Normal).unwrap();
    assert_eq!(f.weight, 400);
}

#[test]
fn find_inactive_backend_is_none() {
    let m = manager_with(vec![rec("Arial", FontStyle::Normal, 400, None)]);
    let families = vec!["Arial".to_string()];
    assert!(m.find(FontSourceType::Parley, &families, FontStyle::Normal).is_none());
}
