//! The normalized description of one font face, shared by every discovery
//! backend, together with the closed style and backend identifier sets.

use vstd::prelude::*;

verus! {

/// Style of a font face: a closed set, no custom styles.
#[derive(Clone, Copy, Debug, PartialEq, Eq, Structural)]
pub enum FontStyle {
    Normal,
    Italic,
    Oblique,
}

/// The characters of a style's display name.
pub open spec fn style_name(s: FontStyle) -> Seq<char> {
    match s {
        FontStyle::Normal => seq!['N', 'o', 'r', 'm', 'a', 'l'],
        FontStyle::Italic => seq!['I', 't', 'a', 'l', 'i', 'c'],
        FontStyle::Oblique => seq!['O', 'b', 'l', 'i', 'q', 'u', 'e'],
    }
}

impl FontStyle {
    /// Display name of the style.
    pub fn as_str(&self) -> (r: &'static str)
        ensures
            r@ == style_name(*self),
    {
        proof {
            reveal_strlit("Normal");
            reveal_strlit("Italic");
            reveal_strlit("Oblique");
        }
        match self {
            FontStyle::Normal => "Normal",
            FontStyle::Italic => "Italic",
            FontStyle::Oblique => "Oblique",
        }
    }

    /// Display name of the style, as a freshly built character vector.
    pub fn name_chars(&self) -> (r: Vec<char>)
        ensures
            r@ == style_name(*self),
    {
        let mut r: Vec<char> = Vec::new();
        match self {
            FontStyle::Normal => {
                r.push('N');
                r.push('o');
                r.push('r');
                r.push('m');
                r.push('a');
                r.push('l');
            },
            FontStyle::Italic => {
                r.push('I');
                r.push('t');
                r.push('a');
                r.push('l');
                r.push('i');
                r.push('c');
            },
            FontStyle::Oblique => {
                r.push('O');
                r.push('b');
                r.push('l');
                r.push('i');
                r.push('q');
                r.push('u');
                r.push('e');
            },
        }
        proof {
            assert(r@ =~= style_name(*self));
        }
        r
    }
}

/// Identifier of the discovery backend a descriptor came from. The set of
/// backends a registry holds is chosen at construction time; any subset may
/// be active.
#[derive(Clone, Copy, Debug, PartialEq, Eq, Hash, Structural)]
pub enum FontSourceType {
    Fontkit,
    Fontique,
    Parley,
    Pango,
}

/// The characters of a backend identifier's display name.
pub open spec fn source_name(s: FontSourceType) -> Seq<char> {
    match s {
        FontSourceType::Fontkit => seq!['f', 'o', 'n', 't', 'k', 'i', 't'],
        FontSourceType::Fontique => seq!['f', 'o', 'n', 't', 'i', 'q', 'u', 'e'],
        FontSourceType::Parley => seq!['p', 'a', 'r', 'l', 'e', 'y'],
        FontSourceType::Pango => seq!['p', 'a', 'n', 'g', 'o'],
    }
}

impl FontSourceType {
    /// Display name of the backend identifier.
    pub fn as_str(&self) -> (r: &'static str)
        ensures
            r@ == source_name(*self),
    {
        proof {
            reveal_strlit("fontkit");
            reveal_strlit("fontique");
            reveal_strlit("parley");
            reveal_strlit("pango");
        }
        match self {
            FontSourceType::Fontkit => "fontkit",
            FontSourceType::Fontique => "fontique",
            FontSourceType::Parley => "parley",
            FontSourceType::Pango => "pango",
        }
    }
}

/// One font face as reported by a backend, before it is adopted into a
/// registry catalog. The backend that produced it is recorded only when the
/// registry adopts the record.
#[derive(Clone, Debug)]
pub struct FontRecord {
    /// Family name of the font (e.g. "Arial")
    pub family: String,
    /// Style of the font
    pub style: FontStyle,
    /// Weight (400 normal, 700 bold)
    pub weight: u32,
    /// Stretch, in thousandths of the ratio (1000 normal, < 1000 condensed)
    pub stretch: u32,
    /// Font is monospaced
    pub monospaced: bool,
    /// Canonical (symlink-resolved) path to the font file, when known
    pub path: Option<String>,
    /// Index of the face in the font-file
    pub index: Option<i32>,
}

/// The normalized record describing one font face of a backend's catalog.
/// Immutable once created; cloned freely.
#[derive(Clone, Debug)]
pub struct FontInfo {
    /// Family name of the font (e.g. "Arial")
    pub family: String,
    /// Style of the font
    pub style: FontStyle,
    /// Weight (400 normal, 700 bold)
    pub weight: u32,
    /// Stretch, in thousandths of the ratio (1000 normal, < 1000 condensed)
    pub stretch: u32,
    /// Font is monospaced
    pub monospaced: bool,
    /// Canonical (symlink-resolved) path to the font file, when known
    pub path: Option<String>,
    /// Index of the face in the font-file
    pub index: Option<i32>,
    /// Source type of the font
    pub source_type: FontSourceType,
}

/// Mathematical image of a [`FontRecord`]: the same fields with text as
/// character sequences.
pub struct FontRecordV {
    pub family: Seq<char>,
    pub style: FontStyle,
    pub weight: u32,
    pub stretch: u32,
    pub monospaced: bool,
    pub path: Option<Seq<char>>,
    pub index: Option<i32>,
}

impl View for FontRecord {
    type V = FontRecordV;

    open spec fn view(&self) -> FontRecordV {
        FontRecordV {
            family: self.family@,
            style: self.style,
            weight: self.weight,
            stretch: self.stretch,
            monospaced: self.monospaced,
            path: match self.path {
                Some(p) => Some(p@),
                None => None,
            },
            index: self.index,
        }
    }
}

/// Mathematical image of a [`FontInfo`]: the same fields with text as
/// character sequences.
pub struct FontInfoV {
    pub family: Seq<char>,
    pub style: FontStyle,
    pub weight: u32,
    pub stretch: u32,
    pub monospaced: bool,
    pub path: Option<Seq<char>>,
    pub index: Option<i32>,
    pub source_type: FontSourceType,
}

impl View for FontInfo {
    type V = FontInfoV;

    open spec fn view(&self) -> FontInfoV {
        FontInfoV {
            family: self.family@,
            style: self.style,
            weight: self.weight,
            stretch: self.stretch,
            monospaced: self.monospaced,
            path: match self.path {
                Some(p) => Some(p@),
                None => None,
            },
            index: self.index,
            source_type: self.source_type,
        }
    }
}

/// The descriptor a record becomes when the backend's catalog adopts it.
pub open spec fn record_to_info(r: FontRecordV, source_type: FontSourceType) -> FontInfoV {
    FontInfoV {
        family: r.family,
        style: r.style,
        weight: r.weight,
        stretch: r.stretch,
        monospaced: r.monospaced,
        path: r.path,
        index: r.index,
        source_type,
    }
}

impl FontInfo {
    /// A copy of this descriptor, field by field. The derived `Clone` is
    /// opaque to verification; verified callers copy through this instead.
    pub fn duplicate(&self) -> (r: FontInfo)
        ensures
            r@ == self@,
    {
        FontInfo {
            family: self.family.clone(),
            style: self.style,
            weight: self.weight,
            stretch: self.stretch,
            monospaced: self.monospaced,
            path: match &self.path {
                Some(p) => Some(p.clone()),
                None => None,
            },
            index: self.index,
            source_type: self.source_type,
        }
    }
}

/// Why materializing a font face failed. Query-time "not found" is never an
/// error; only face loading reports one.
#[derive(Clone, Copy, Debug, PartialEq, Eq, Structural)]
pub enum LoadError {
    /// The descriptor carries no file path to load from.
    MissingPath,
    /// The descriptor names a backend that is not active in this registry.
    BackendUnavailable,
    /// The font file could not be read.
    Unreadable,
    /// The backend's parser rejected the font file.
    Rejected,
}

} // verus!
