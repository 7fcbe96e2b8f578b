//! Face loading through the per-backend cache: hits, misses, and failures.

use fontmanager::FaceCache;
use fontmanager::FontInfo;
use fontmanager::FontManager;
use fontmanager::FontRecord;
use fontmanager::FontSource;
use fontmanager::FontSourceType;
use fontmanager::FontStyle;
use fontmanager::LoadError;

/// A loader stub that counts parses and can be told to fail.
struct CountingLoader {
    calls: usize,
    fail: bool,
}

impl FontSource for CountingLoader {
    type Face = u64;

    fn load_face(&mut self, _info: &FontInfo) -> Result<u64, LoadError> {
        self.calls += 1;
        if self.fail {
            Err(LoadError::Rejected)
        } else {
            Ok(1000 + self.calls as u64)
        }
    }
}

fn rec(family: &str, style: FontStyle, path: Option<&str>) -> FontRecord {
    FontRecord {
        family: family.to_string(),
        style,
        weight: 400,
        stretch: 1000,
        monospaced: false,
        path: path.map(|p| p.to_string()),
        index: None,
    }
}

fn manager_with(records: Vec<FontRecord>) -> FontManager<u64> {
    let mut m: FontManager<u64> = FontManager::new();
    assert!(m.add_backend(FontSourceType::Fontkit, &records));
    m
}

fn first_font(m: &FontManager<u64>) -> FontInfo {
    m.available_fonts(FontSourceType::Fontkit).remove(0)
}

#[test]
fn second_load_is_a_cache_hit() {
    let m0 = manager_with(vec![rec("Arial", FontStyle::Normal, Some("/f/arial.ttf"))]);
    let mut m = m0;
    let info = first_font(&m);
    let mut loader = CountingLoader { calls: 0, fail: false };
    let i1 = m.load(&mut loader, &info).unwrap();
    let i2 = m.load(&mut loader, &info).unwrap();
    // exactly one underlying parse, and the same face both times
    assert_eq!(loader.calls, 1);
    assert_eq!(i1, i2);
    let h1 = *m.face(FontSourceType::Fontkit, i1).unwrap();
    let h2 = *m.face(FontSourceType::Fontkit, i2).unwrap();
    assert_eq!(h1, h2);
}

#[test]
fn faces_of_distinct_descriptors_are_distinct_entries() {
    let mut m = manager_with(vec![
        rec("Arial", FontStyle::Normal, Some("/f/arial.ttf")),
        rec("Times", FontStyle::Normal, Some("/f/times.ttf")),
    ]);
    let fonts = m.available_fonts(FontSourceType::Fontkit);
    let mut loader = CountingLoader { calls: 0, fail: false };
    let i1 = m.load(&mut loader, &fonts[0]).unwrap();
    let i2 = m.load(&mut loader, &fonts[1]).unwrap();
    assert_eq!(loader.calls, 2);
    assert_ne!(i1, i2);
}

#[test]
fn missing_path_fails_without_parsing() {
    let mut m = manager_with(vec![
        rec("NoFile", FontStyle::Normal, None),
        rec("Real", FontStyle::Normal, Some("/f/real.ttf")),
    ]);
    let fonts = m.available_fonts(FontSourceType::Fontkit);
    let pathless = fonts.iter().find(|f| f.path.is_none()).unwrap().clone();
    let real = fonts.iter().find(|f| f.path.is_some()).unwrap().clone();
    let mut loader = CountingLoader { calls: 0, fail: false };
    assert_eq!(m.load(&mut loader, &pathless), Err(LoadError::MissingPath));
    assert_eq!(loader.calls, 0);
    // an unrelated later load still succeeds
    assert!(m.load(&mut loader, &real).is_ok());
    assert_eq!(loader.calls, 1);
}

#[test]
fn inactive_backend_load_fails() {
    let mut m = manager_with(vec![rec("Arial", FontStyle::Normal, Some("/f/arial.ttf"))]);
    let mut info = first_font(&m);
    info.source_type = FontSourceType::Pango;
    let mut loader = CountingLoader { calls: 0, fail: false };
    assert_eq!(m.load(&mut loader, &info), Err(LoadError::BackendUnavailable));
    assert_eq!(loader.calls, 0);
}

#[test]
fn failed_load_is_not_cached() {
    let mut m = manager_with(vec![rec("Arial", FontStyle::Normal, Some("/f/arial.ttf"))]);
    let info = first_font(&m);
    let mut loader = CountingLoader { calls: 0, fail: true };
    assert_eq!(m.load(&mut loader, &info), Err(LoadError::Rejected));
    // the failure was not cached: a retry parses again, and can succeed
    loader.fail = false;
    let i = m.load(&mut loader, &info).unwrap();
    assert_eq!(loader.calls, 2);
    assert!(m.face(FontSourceType::Fontkit, i).is_some());
}

/// A loader stub whose file can never be read.
struct UnreadableLoader;

impl FontSource for UnreadableLoader {
    type Face = u64;

    fn load_face(&mut self, _info: &FontInfo) -> Result<u64, LoadError> {
        Err(LoadError::Unreadable)
    }
}

#[test]
fn unreadable_file_error_is_passed_through() {
    let mut m = manager_with(vec![rec("Arial", FontStyle::Normal, Some("/f/arial.ttf"))]);
    let info = first_font(&m);
    let mut loader = UnreadableLoader;
    assert_eq!(m.load(&mut loader, &info), Err(LoadError::Unreadable));
}

#[test]
fn face_cache_stores_and_finds() {
    let mut c: FaceCache<u64> = FaceCache::new();
    let key: Vec<char> = "Arial:Normal".chars().collect();
    assert_eq!(c.len(), 0);
    assert!(c.lookup(&key).is_none());
    c.store(key.clone(), 7);
    assert_eq!(c.len(), 1);
    let i = c.lookup(&key).unwrap();
    assert_eq!(*c.face(i), 7);
}

#[test]
fn face_cache_keys_are_style_specific() {
    let m0 = manager_with(vec![
        rec("Arial", FontStyle::Normal, Some("/f/arial.ttf")),
        rec("Arial", FontStyle::Italic, Some("/f/arial-i.ttf")),
    ]);
    let mut m = m0;
    let fonts = m.available_fonts(FontSourceType::Fontkit);
    let normal = fonts.iter().find(|f| f.style == FontStyle::Normal).unwrap().clone();
    let italic = fonts.iter().find(|f| f.style == FontStyle::Italic).unwrap().clone();
    let mut loader = CountingLoader { calls: 0, fail: false };
    let i1 = m.load(&mut loader, &normal).unwrap();
    let i2 = m.load(&mut loader, &italic).unwrap();
    assert_eq!(loader.calls, 2);
    assert_ne!(i1, i2);
}
