//! Symlink resolution and canonical-path deduplication.

use fontmanager::FontManager;
use fontmanager::FontRecord;
use fontmanager::FontSourceType;
use fontmanager::FontStyle;
use fontmanager::SymlinkResolver;
use fontmanager::resolver::StepOutcome;
use fontmanager::resolver::resolve_with_table;

fn chars(s: &str) -> Vec<char> {
    s.chars().collect()
}

fn string_of(v: &[char]) -> String {
    v.iter().collect()
}

fn rec_with_path(family: &str, path: Option<&str>) -> FontRecord {
    FontRecord {
        family: family.to_string(),
        style: FontStyle::Normal,
        weight: 400,
        stretch: 1000,
        monospaced: false,
        path: path.map(|p| p.to_string()),
        index: None,
    }
}

#[test]
fn resolver_plain_path_is_done() {
    let mut r = SymlinkResolver::new(chars("/usr/share/fonts/a.ttf"));
    assert_eq!(r.step(None), StepOutcome::Done);
    assert_eq!(string_of(r.current()), "/usr/share/fonts/a.ttf");
}

#[test]
fn resolver_follows_absolute_target() {
    let mut r = SymlinkResolver::new(chars("/etc/fonts/alias.ttf"));
    assert_eq!(r.step(Some(chars("/usr/share/fonts/real.ttf"))), StepOutcome::Followed);
    assert_eq!(string_of(r.current()), "/usr/share/fonts/real.ttf");
}

#[test]
fn resolver_relative_target_joins_parent() {
    let mut r = SymlinkResolver::new(chars("/fonts/alias.ttf"));
    assert_eq!(r.step(Some(chars("real/b.ttf"))), StepOutcome::Followed);
    assert_eq!(string_of(r.current()), "/fonts/real/b.ttf");
}

#[test]
fn resolve_with_table_no_link() {
    let table: Vec<(Vec<char>, Vec<char>)> = Vec::new();
    let r = resolve_with_table(&table, chars("/a/b.ttf")).unwrap();
    assert_eq!(string_of(&r), "/a/b.ttf");
}

#[test]
fn resolve_with_table_chain() {
    let table = vec![
        (chars("/a/one.ttf"), chars("/b/two.ttf")),
        (chars("/b/two.ttf"), chars("three.ttf")),
    ];
    let r = resolve_with_table(&table, chars("/a/one.ttf")).unwrap();
    assert_eq!(string_of(&r), "/b/three.ttf");
}

#[test]
fn resolve_with_table_cycle_errors() {
    let table = vec![
        (chars("/a/one.ttf"), chars("/b/two.ttf")),
        (chars("/b/two.ttf"), chars("/a/one.ttf")),
    ];
    assert!(resolve_with_table(&table, chars("/a/one.ttf")).is_none());
}

#[test]
fn resolve_with_table_long_chain_within_bound() {
    let mut table: Vec<(Vec<char>, Vec<char>)> = Vec::new();
    for i in 0..32 {
        table.push((chars(&format!("/l/{}.ttf", i)), chars(&format!("/l/{}.ttf", i + 1))));
    }
    let r = resolve_with_table(&table, chars("/l/0.ttf")).unwrap();
    assert_eq!(string_of(&r), "/l/32.ttf");
}

#[test]
fn resolve_with_table_chain_over_bound_errors() {
    let mut table: Vec<(Vec<char>, Vec<char>)> = Vec::new();
    for i in 0..33 {
        table.push((chars(&format!("/l/{}.ttf", i)), chars(&format!("/l/{}.ttf", i + 1))));
    }
    assert!(resolve_with_table(&table, chars("/l/0.ttf")).is_none());
}

#[test]
fn dedup_same_canonical_file_once() {
    // three symlinked names, all resolved to the same canonical file
    let table = vec![
        (chars("/alias/a.ttf"), chars("/real/font.ttf")),
        (chars("/alias/b.ttf"), chars("/real/font.ttf")),
    ];
    let mut records = Vec::new();
    for name in ["/alias/a.ttf", "/alias/b.ttf", "/real/font.ttf"] {
        let canonical = resolve_with_table(&table, chars(name)).unwrap();
        records.push(rec_with_path("Duplicated", Some(&string_of(&canonical))));
    }
    let mut m: FontManager<u64> = FontManager::new();
    m.add_backend(FontSourceType::Parley, &records);
    let fonts = m.available_fonts(FontSourceType::Parley);
    assert_eq!(fonts.len(), 1);
    assert_eq!(fonts[0].path.as_deref(), Some("/real/font.ttf"));
}

#[test]
fn dedup_keeps_first_occurrence() {
    let records = vec![
        rec_with_path("First", Some("/x/shared.ttf")),
        rec_with_path("Second", Some("/x/shared.ttf")),
        rec_with_path("Other", Some("/x/other.ttf")),
    ];
    let mut m: FontManager<u64> = FontManager::new();
    m.add_backend(FontSourceType::Fontkit, &records);
    let fonts = m.available_fonts(FontSourceType::Fontkit);
    assert_eq!(fonts.len(), 2);
    assert!(fonts.iter().any(|f| f.family == "First"));
    assert!(!fonts.iter().any(|f| f.family == "Second"));
}

#[test]
fn dedup_keeps_all_pathless_records() {
    let records = vec![rec_with_path("A", None), rec_with_path("B", None)];
    let mut m: FontManager<u64> = FontManager::new();
    m.add_backend(FontSourceType::Pango, &records);
    assert_eq!(m.available_fonts(FontSourceType::Pango).len(), 2);
}

#[test]
fn dedup_is_scoped_per_backend() {
    let records = vec![rec_with_path("Shared", Some("/x/f.ttf"))];
    let mut m: FontManager<u64> = FontManager::new();
    m.add_backend(FontSourceType::Fontkit, &records);
    m.add_backend(FontSourceType::Parley, &records);
    assert_eq!(m.available_fonts(FontSourceType::Fontkit).len(), 1);
    assert_eq!(m.available_fonts(FontSourceType::Parley).len(), 1);
}

#[test]
fn adopted_records_carry_backend_identifier() {
    let records = vec![rec_with_path("A", None)];
    let mut m: FontManager<u64> = FontManager::new();
    m.add_backend(FontSourceType::Pango, &records);
    let fonts = m.available_fonts(FontSourceType::Pango);
    assert_eq!(fonts[0].source_type, FontSourceType::Pango);
}
