//! The registry: it owns the set of active backends, each with its
//! deduplicated catalog and its face cache, and answers catalog and
//! matching queries across them. Which backends are active is chosen at
//! construction time; a query naming an inactive backend degrades to an
//! empty answer and is never a fault.

use vstd::prelude::*;
use crate::cache::FaceCache;
use crate::cache::key_pos;
use crate::catalog::build_catalog;
use crate::catalog::infos_view;
use crate::catalog::lemma_catalog_wf;
use crate::catalog::records_view;
use crate::catalog::spec_catalog;
use crate::font_info::FontInfo;
use crate::font_info::FontInfoV;
use crate::font_info::FontRecord;
use crate::font_info::FontSourceType;
use crate::font_info::FontStyle;
use crate::font_info::LoadError;
use crate::font_info::style_name;
use crate::sort::sort_by_family;
use crate::sort::sort_fonts;
use crate::sources::FontSource;
use crate::text::chars_ci_eq_str;
use crate::text::chars_eq_str;
use crate::text::ci_eq;
use crate::text::normalize_family;
use crate::text::normalize_family_chars;
use crate::text::str_chars;

verus! {

/// First position of a backend identifier in a source list, or `-1`.
pub open spec fn index_of_source(s: Seq<FontSourceType>, st: FontSourceType) -> int
    decreases s.len(),
{
    if s.len() == 0 {
        -1
    } else if s[0] == st {
        0
    } else {
        let r = index_of_source(s.drop_first(), st);
        if r < 0 {
            -1
        } else {
            r + 1
        }
    }
}

/// What `index_of_source` finds: a valid position holding the identifier,
/// or absence; absence coincides with the list not containing it.
pub proof fn lemma_index_of_source_bounds(s: Seq<FontSourceType>, st: FontSourceType)
    ensures
        index_of_source(s, st) >= 0 ==> index_of_source(s, st) < s.len() && s[index_of_source(
            s,
            st,
        )] == st,
        index_of_source(s, st) == -1 ==> forall|i: int| 0 <= i < s.len() ==> s[i] != st,
        index_of_source(s, st) >= -1,
        (index_of_source(s, st) >= 0) == s.contains(st),
        forall|j: int| 0 <= j < index_of_source(s, st) ==> s[j] != st,
    decreases s.len(),
{
    if s.len() > 0 && s[0] != st {
        lemma_index_of_source_bounds(s.drop_first(), st);
        assert forall|i: int| index_of_source(s, st) == -1 && 0 <= i < s.len() implies s[i]
            != st by {
            if i > 0 {
                assert(s.drop_first()[i - 1] == s[i]);
            }
        }
        assert forall|j: int| 0 <= j < index_of_source(s, st) implies s[j] != st by {
            if j > 0 {
                assert(s.drop_first()[j - 1] == s[j]);
            }
        }
        if s.contains(st) {
            let i = choose|i: int| 0 <= i < s.len() && s[i] == st;
            assert(s.drop_first()[i - 1] == st);
        }
    }
}

/// `index_of_source` finds the first occurrence.
proof fn lemma_index_of_source_first(s: Seq<FontSourceType>, st: FontSourceType, i: int)
    requires
        0 <= i <= s.len(),
        forall|j: int| 0 <= j < i ==> s[j] != st,
        i < s.len() ==> s[i] == st,
    ensures
        index_of_source(s, st) == if i < s.len() {
            i
        } else {
            -1
        },
    decreases s.len(),
{
    if s.len() == 0 {
    } else if s[0] == st {
        assert(i == 0);
    } else {
        if i == 0 {
            assert(false);
        }
        assert(forall|j: int| 0 <= j < i - 1 ==> s.drop_first()[j] == s[j + 1]);
        lemma_index_of_source_first(s.drop_first(), st, i - 1);
    }
}

/// A generic family keyword, resolved to some concrete font rather than
/// matched as a literal family name.
pub open spec fn is_generic_name(n: Seq<char>) -> bool {
    n == "serif"@ || n == "sans-serif"@ || n == "monospace"@ || n == "cursive"@ || n == "fantasy"@
}

/// Whether a descriptor answers a literal family query: the family matches
/// case-insensitively and the style matches exactly.
pub open spec fn matches_query(f: FontInfoV, n: Seq<char>, style: FontStyle) -> bool {
    ci_eq(n, f.family) && f.style == style
}

/// First descriptor answering a literal family query, in catalog order.
pub open spec fn find_named(catalog: Seq<FontInfoV>, n: Seq<char>, style: FontStyle) -> Option<
    FontInfoV,
>
    decreases catalog.len(),
{
    if catalog.len() == 0 {
        None
    } else if matches_query(catalog[0], n, style) {
        Some(catalog[0])
    } else {
        find_named(catalog.drop_first(), n, style)
    }
}

/// First descriptor of the requested style, in catalog order.
pub open spec fn find_style(catalog: Seq<FontInfoV>, style: FontStyle) -> Option<FontInfoV>
    decreases catalog.len(),
{
    if catalog.len() == 0 {
        None
    } else if catalog[0].style == style {
        Some(catalog[0])
    } else {
        find_style(catalog.drop_first(), style)
    }
}

/// What a generic family keyword resolves to: the first descriptor of the
/// requested style, else the first descriptor of the catalog; nothing only
/// when the catalog is empty.
pub open spec fn resolve_generic(catalog: Seq<FontInfoV>, style: FontStyle) -> Option<FontInfoV> {
    if find_style(catalog, style) is Some {
        find_style(catalog, style)
    } else if catalog.len() > 0 {
        Some(catalog[0])
    } else {
        None
    }
}

/// What one candidate family name finds: the name is normalized (quotes
/// stripped, whitespace trimmed); a generic keyword is resolved, any other
/// name is matched literally.
pub open spec fn find_one(catalog: Seq<FontInfoV>, q: Seq<char>, style: FontStyle) -> Option<
    FontInfoV,
> {
    let n = normalize_family(q);
    if is_generic_name(n) {
        resolve_generic(catalog, style)
    } else {
        find_named(catalog, n, style)
    }
}

/// The first match over the candidate families in order: family order
/// first, catalog order within one family.
pub open spec fn spec_find(
    catalog: Seq<FontInfoV>,
    families: Seq<Seq<char>>,
    style: FontStyle,
) -> Option<FontInfoV>
    decreases families.len(),
{
    if families.len() == 0 {
        None
    } else {
        match find_one(catalog, families[0], style) {
            Some(f) => Some(f),
            None => spec_find(catalog, families.drop_first(), style),
        }
    }
}

/// The mathematical image of a family-name list.
pub open spec fn families_view(fs: Seq<String>) -> Seq<Seq<char>> {
    fs.map_values(|s: String| s@)
}

/// A generic family keyword always resolves on a non-empty catalog: asking
/// for such a keyword returns some descriptor and never errs.
pub proof fn lemma_generic_find_some(catalog: Seq<FontInfoV>, q: Seq<char>, style: FontStyle)
    requires
        is_generic_name(normalize_family(q)),
        catalog.len() > 0,
    ensures
        spec_find(catalog, seq![q], style) is Some,
{
    assert(seq![q][0] == q);
    assert(find_one(catalog, q, style) is Some);
}

/// Matching sees only the normalized family name: a candidate with quote
/// characters and surrounding whitespace finds exactly what the plain name
/// finds.
pub proof fn lemma_find_normalized(catalog: Seq<FontInfoV>, q: Seq<char>, style: FontStyle)
    ensures
        find_one(catalog, q, style) == find_one(catalog, normalize_family(q), style),
{
    crate::text::lemma_normalize_idempotent(q);
}

/// Whether a normalized name is a generic family keyword, executable form.
fn is_generic_chars(n: &Vec<char>) -> (r: bool)
    ensures
        r == is_generic_name(n@),
{
    chars_eq_str(n, "serif") || chars_eq_str(n, "sans-serif") || chars_eq_str(n, "monospace")
        || chars_eq_str(n, "cursive") || chars_eq_str(n, "fantasy")
}

proof fn lemma_find_named_skip(c: Seq<FontInfoV>, n: Seq<char>, style: FontStyle, i: int)
    requires
        0 <= i < c.len(),
        !matches_query(c[i], n, style),
    ensures
        find_named(c.skip(i), n, style) == find_named(c.skip(i + 1), n, style),
{
    assert(c.skip(i).drop_first() =~= c.skip(i + 1));
    assert(c.skip(i)[0] == c[i]);
}

proof fn lemma_find_style_skip(c: Seq<FontInfoV>, style: FontStyle, i: int)
    requires
        0 <= i < c.len(),
        c[i].style != style,
    ensures
        find_style(c.skip(i), style) == find_style(c.skip(i + 1), style),
{
    assert(c.skip(i).drop_first() =~= c.skip(i + 1));
    assert(c.skip(i)[0] == c[i]);
}

/// First descriptor answering a literal family query, executable form.
fn find_named_in(fonts: &Vec<FontInfo>, n: &Vec<char>, style: FontStyle) -> (r: Option<FontInfo>)
    ensures
        match r {
            Some(f) => find_named(infos_view(fonts@), n@, style) == Some(f@),
            None => find_named(infos_view(fonts@), n@, style) is None,
        },
{
    let ghost c: Seq<FontInfoV> = infos_view(fonts@);
    let m: usize = fonts.len();
    let mut i: usize = 0;
    proof {
        assert(c.skip(0) =~= c);
    }
    while i < m
        invariant
            m == fonts@.len(),
            i <= m,
            c == infos_view(fonts@),
            find_named(c, n@, style) == find_named(c.skip(i as int), n@, style),
        decreases m - i,
    {
        proof {
            assert(c.skip(i as int)[0] == c[i as int]);
            assert(c[i as int] == fonts@[i as int]@);
        }
        let fam_ok: bool = chars_ci_eq_str(n, fonts[i].family.as_str());
        if fam_ok && fonts[i].style == style {
            let f = fonts[i].duplicate();
            proof {
                assert(matches_query(c[i as int], n@, style));
            }
            return Some(f);
        }
        proof {
            lemma_find_named_skip(c, n@, style, i as int);
        }
        i = i + 1;
    }
    proof {
        assert(c.skip(m as int).len() == 0);
    }
    None
}

/// First descriptor of the requested style, executable form.
fn find_style_in(fonts: &Vec<FontInfo>, style: FontStyle) -> (r: Option<FontInfo>)
    ensures
        match r {
            Some(f) => find_style(infos_view(fonts@), style) == Some(f@),
            None => find_style(infos_view(fonts@), style) is None,
        },
{
    let ghost c: Seq<FontInfoV> = infos_view(fonts@);
    let m: usize = fonts.len();
    let mut i: usize = 0;
    proof {
        assert(c.skip(0) =~= c);
    }
    while i < m
        invariant
            m == fonts@.len(),
            i <= m,
            c == infos_view(fonts@),
            find_style(c, style) == find_style(c.skip(i as int), style),
        decreases m - i,
    {
        proof {
            assert(c.skip(i as int)[0] == c[i as int]);
            assert(c[i as int] == fonts@[i as int]@);
        }
        if fonts[i].style == style {
            let f = fonts[i].duplicate();
            return Some(f);
        }
        proof {
            lemma_find_style_skip(c, style, i as int);
        }
        i = i + 1;
    }
    proof {
        assert(c.skip(m as int).len() == 0);
    }
    None
}

/// One active backend: its identifier, its deduplicated catalog in
/// enumeration order, and its cache of loaded faces.
struct BackendEntry<H> {
    source_type: FontSourceType,
    fonts: Vec<FontInfo>,
    cache: FaceCache<H>,
}

/// The registry over the active backends, generic in the backend-specific
/// face handle `H`.
pub struct FontManager<H> {
    backends: Vec<BackendEntry<H>>,
}

/// The identity key a face is cached under: `family:style`.
pub open spec fn face_key(f: FontInfoV) -> Seq<char> {
    f.family + seq![':'] + style_name(f.style)
}

/// The identity key of a descriptor's face, executable form.
pub fn face_key_chars(info: &FontInfo) -> (r: Vec<char>)
    ensures
        r@ == face_key(info@),
{
    let mut r: Vec<char> = str_chars(info.family.as_str());
    r.push(':');
    let mut sn: Vec<char> = info.style.name_chars();
    r.append(&mut sn);
    proof {
        assert(r@ =~= face_key(info@));
    }
    r
}

impl<H> FontManager<H> {
    /// The identifiers of the active backends, in registration order.
    pub closed spec fn source_seq(&self) -> Seq<FontSourceType> {
        self.backends@.map_values(|b: BackendEntry<H>| b.source_type)
    }

    /// Whether a backend is active in this registry.
    pub open spec fn is_active(&self, st: FontSourceType) -> bool {
        self.source_seq().contains(st)
    }

    /// A backend's catalog, in its enumeration order; empty when the
    /// backend is not active.
    pub closed spec fn catalog_seq(&self, st: FontSourceType) -> Seq<FontInfoV> {
        let i = index_of_source(self.source_seq(), st);
        if i >= 0 {
            infos_view(self.backends@[i].fonts@)
        } else {
            Seq::empty()
        }
    }

    /// The identity keys of a backend's cached faces, in load order.
    pub closed spec fn cache_keys(&self, st: FontSourceType) -> Seq<Seq<char>> {
        let i = index_of_source(self.source_seq(), st);
        if i >= 0 {
            self.backends@[i].cache.keys_view()
        } else {
            Seq::empty()
        }
    }

    /// A backend's cached face handles, in load order.
    pub closed spec fn cache_faces(&self, st: FontSourceType) -> Seq<H> {
        let i = index_of_source(self.source_seq(), st);
        if i >= 0 {
            self.backends@[i].cache.faces_view()
        } else {
            Seq::empty()
        }
    }

    /// The registry invariant: backend identifiers are distinct; each
    /// catalog carries its backend's identifier and no two of its
    /// descriptors share a canonical path; each cache is well formed.
    pub closed spec fn wf(&self) -> bool {
        &&& forall|i: int, j: int|
            0 <= i < j < self.backends@.len() ==> (#[trigger] self.backends@[i]).source_type != (
            #[trigger] self.backends@[j]).source_type
        &&& forall|b: int|
            0 <= b < self.backends@.len() ==> (#[trigger] self.backends@[b]).cache.wf()
        &&& forall|b: int, k: int|
            0 <= b < self.backends@.len() && 0 <= k < self.backends@[b].fonts@.len() ==> (
            #[trigger] self.backends@[b].fonts@[k])@.source_type == self.backends@[b].source_type
        &&& forall|b: int, k: int, l: int|
            0 <= b < self.backends@.len() && 0 <= k < l < self.backends@[b].fonts@.len() ==> ((
            #[trigger] self.backends@[b].fonts@[k])@.path is Some ==> self.backends@[b].fonts@[k]@.path
                != (#[trigger] self.backends@[b].fonts@[l])@.path)
    }

    /// A registry with no backends yet.
    pub fn new() -> (r: Self)
        ensures
            r.wf(),
            r.source_seq() == Seq::<FontSourceType>::empty(),
    {
        let r = FontManager { backends: Vec::new() };
        proof {
            assert(r.source_seq() =~= Seq::<FontSourceType>::empty());
        }
        r
    }

    /// The position of a backend's entry, or nothing when it is inactive.
    fn backend_pos(&self, st: FontSourceType) -> (r: Option<usize>)
        ensures
            match r {
                Some(i) => index_of_source(self.source_seq(), st) == i,
                None => index_of_source(self.source_seq(), st) == -1,
            },
    {
        let n: usize = self.backends.len();
        let mut i: usize = 0;
        while i < n
            invariant
                n == self.backends@.len(),
                n == self.source_seq().len(),
                i <= n,
                forall|j: int| 0 <= j < i ==> self.source_seq()[j] != st,
            decreases n - i,
        {
            if self.backends[i].source_type == st {
                proof {
                    assert(self.source_seq()[i as int] == st);
                    lemma_index_of_source_first(self.source_seq(), st, i as int);
                }
                return Some(i);
            }
            proof {
                assert(self.source_seq()[i as int] != st);
            }
            i = i + 1;
        }
        proof {
            lemma_index_of_source_first(self.source_seq(), st, n as int);
        }
        None
    }

    /// Register one backend's enumeration pass: its records are adopted as
    /// a deduplicated catalog under a fresh identifier, with an empty face
    /// cache. Nothing changes when the identifier is already active.
    pub fn add_backend(
        &mut self,
        source_type: FontSourceType,
        records: &Vec<FontRecord>,
    ) -> (added: bool)
        requires
            old(self).wf(),
        ensures
            final(self).wf(),
            added == !old(self).is_active(source_type),
            !added ==> *final(self) == *old(self),
            added ==> final(self).source_seq() == old(self).source_seq().push(source_type),
            added ==> final(self).catalog_seq(source_type) == spec_catalog(
                records_view(records@),
                source_type,
            ),
            added ==> final(self).cache_keys(source_type) == Seq::<Seq<char>>::empty(),
            forall|st2: FontSourceType|
                st2 != source_type ==> final(self).catalog_seq(st2) == old(self).catalog_seq(st2)
                    && final(self).cache_keys(st2) == old(self).cache_keys(st2)
                    && final(self).cache_faces(st2) == old(self).cache_faces(st2)
                    && final(self).is_active(st2) == old(self).is_active(st2),
    {
        proof {
            lemma_index_of_source_bounds(self.source_seq(), source_type);
        }
        match self.backend_pos(source_type) {
            Some(_) => false,
            None => {
                let ghost old_sources: Seq<FontSourceType> = self.source_seq();
                let ghost old_backends: Seq<BackendEntry<H>> = self.backends@;
                let fonts: Vec<FontInfo> = build_catalog(records, source_type);
                let entry = BackendEntry { source_type, fonts, cache: FaceCache::new() };
                self.backends.push(entry);
                proof {
                    assert(self.source_seq() =~= old_sources.push(source_type));
                    lemma_catalog_wf(records_view(records@), source_type);
                    let n: int = old_backends.len() as int;
                    assert(forall|b: int|
                        0 <= b < n ==> self.backends@[b] == old_backends[b]);
                    assert(forall|b: int|
                        0 <= b < n ==> old_sources[b] == (#[trigger] old_backends[b]).source_type);
                    // the new identifier was absent, so identifiers stay distinct
                    assert(forall|i: int|
                        0 <= i < n ==> (#[trigger] old_backends[i]).source_type != source_type);
                    // the fresh entry's catalog is the deduplicated pass
                    assert(infos_view(self.backends@[n].fonts@) == spec_catalog(
                        records_view(records@),
                        source_type,
                    ));
                    lemma_index_of_source_first(self.source_seq(), source_type, n);
                    assert(index_of_source(self.source_seq(), source_type) == n);
                    assert(self.catalog_seq(source_type) == spec_catalog(
                        records_view(records@),
                        source_type,
                    ));
                    assert forall|st2: FontSourceType| st2 != source_type implies final(self)
                        .catalog_seq(st2) == old(self).catalog_seq(st2) && final(self).cache_keys(
                        st2,
                    ) == old(self).cache_keys(st2) && final(self).cache_faces(st2) == old(self)
                        .cache_faces(st2) && final(self).is_active(st2) == old(self).is_active(
                        st2,
                    ) by {
                        lemma_index_of_source_bounds(old_sources, st2);
                        let i2 = index_of_source(old_sources, st2);
                        if i2 >= 0 {
                            assert(forall|j: int|
                                0 <= j < i2 ==> self.source_seq()[j] == old_sources[j]);
                            assert(self.source_seq()[i2] == old_sources[i2]);
                            lemma_index_of_source_first(self.source_seq(), st2, i2);
                            assert(self.backends@[i2] == old_backends[i2]);
                        } else {
                            lemma_index_of_source_first(
                                self.source_seq(),
                                st2,
                                self.source_seq().len() as int,
                            );
                        }
                        lemma_index_of_source_bounds(self.source_seq(), st2);
                    }
                    // the invariant holds of every entry, old and new
                    let cat = spec_catalog(records_view(records@), source_type);
                    assert(infos_view(self.backends@[n].fonts@) == cat);
                    assert forall|k: int|
                        0 <= k < self.backends@[n].fonts@.len() implies (#[trigger] self
                        .backends@[n].fonts@[k])@.source_type == source_type by {
                        assert(self.backends@[n].fonts@[k]@ == cat[k]);
                    }
                    assert forall|k: int, l: int|
                        0 <= k < l < self.backends@[n].fonts@.len() implies ((#[trigger] self
                        .backends@[n].fonts@[k])@.path is Some ==> self.backends@[n].fonts@[k]@.path
                        != (#[trigger] self.backends@[n].fonts@[l])@.path) by {
                        assert(self.backends@[n].fonts@[k]@ == cat[k]);
                        assert(self.backends@[n].fonts@[l]@ == cat[l]);
                    }
                    assert(final(self).wf());
                }
                true
            },
        }
    }

    /// The identifiers of the active backends, in registration order.
    pub fn sources(&self) -> (r: Vec<FontSourceType>)
        ensures
            r@ == self.source_seq(),
    {
        let n: usize = self.backends.len();
        let mut r: Vec<FontSourceType> = Vec::new();
        let mut i: usize = 0;
        while i < n
            invariant
                n == self.backends@.len(),
                i <= n,
                r@ =~= self.source_seq().subrange(0, i as int),
            decreases n - i,
        {
            r.push(self.backends[i].source_type);
            i = i + 1;
        }
        proof {
            assert(r@ =~= self.source_seq());
        }
        r
    }

    /// All fonts of one backend, ordered by family name ascending;
    /// descriptors with equal family keep their enumeration order. An
    /// inactive backend yields an empty catalog, never a fault.
    pub fn available_fonts(&self, source_type: FontSourceType) -> (r: Vec<FontInfo>)
        requires
            self.wf(),
        ensures
            self.is_active(source_type) ==> infos_view(r@) == sort_by_family(
                self.catalog_seq(source_type),
            ),
            !self.is_active(source_type) ==> r@ == Seq::<FontInfo>::empty(),
    {
        proof {
            lemma_index_of_source_bounds(self.source_seq(), source_type);
        }
        match self.backend_pos(source_type) {
            Some(i) => sort_fonts(&self.backends[i].fonts),
            None => {
                let r: Vec<FontInfo> = Vec::new();
                proof {
                    assert(r@ =~= Seq::<FontInfo>::empty());
                }
                r
            },
        }
    }

    /// The first font of one backend matching the candidate family names
    /// and the style: families are tried in order, each matched in catalog
    /// order, case-insensitively after quote and whitespace trimming;
    /// generic keywords resolve to some concrete font. No match, and an
    /// inactive backend, yield nothing — never a fault.
    #[verifier::loop_isolation(false)]
    pub fn find(
        &self,
        source_type: FontSourceType,
        families: &Vec<String>,
        style: FontStyle,
    ) -> (r: Option<FontInfo>)
        requires
            self.wf(),
        ensures
            !self.is_active(source_type) ==> r is None,
            self.is_active(source_type) ==> match r {
                Some(f) => spec_find(
                    self.catalog_seq(source_type),
                    families_view(families@),
                    style,
                ) == Some(f@),
                None => spec_find(
                    self.catalog_seq(source_type),
                    families_view(families@),
                    style,
                ) is None,
            },
    {
        proof {
            lemma_index_of_source_bounds(self.source_seq(), source_type);
        }
        let idx: usize;
        match self.backend_pos(source_type) {
            None => {
                return None;
            },
            Some(i) => {
                idx = i;
            },
        }
        let fonts: &Vec<FontInfo> = &self.backends[idx].fonts;
        let ghost cat: Seq<FontInfoV> = self.catalog_seq(source_type);
        let ghost fv: Seq<Seq<char>> = families_view(families@);
        proof {
            assert(cat == infos_view(fonts@));
            assert(fv.skip(0) =~= fv);
        }
        let m: usize = families.len();
        let mut i: usize = 0;
        while i < m
            invariant
                m == families@.len(),
                i <= m,
                cat == infos_view(fonts@),
                fv == families_view(families@),
                spec_find(cat, fv, style) == spec_find(cat, fv.skip(i as int), style),
            decreases m - i,
        {
            proof {
                assert(fv.skip(i as int)[0] == fv[i as int]);
                assert(fv[i as int] == families@[i as int]@);
            }
            let n: Vec<char> = normalize_family_chars(families[i].as_str());
            if is_generic_chars(&n) {
                match find_style_in(fonts, style) {
                    Some(f) => {
                        proof {
                            assert(find_one(cat, fv[i as int], style) == Some(f@));
                        }
                        return Some(f);
                    },
                    None => {
                        if fonts.len() > 0 {
                            let f = fonts[0].duplicate();
                            proof {
                                assert(f@ == cat[0]);
                                assert(find_one(cat, fv[i as int], style) == Some(f@));
                            }
                            return Some(f);
                        }
                        proof {
                            assert(find_one(cat, fv[i as int], style) is None);
                        }
                    },
                }
            } else {
                match find_named_in(fonts, &n, style) {
                    Some(f) => {
                        proof {
                            assert(find_one(cat, fv[i as int], style) == Some(f@));
                        }
                        return Some(f);
                    },
                    None => {
                        proof {
                            assert(find_one(cat, fv[i as int], style) is None);
                        }
                    },
                }
            }
            proof {
                assert(fv.skip(i as int).drop_first() =~= fv.skip(i + 1));
            }
            i = i + 1;
        }
        proof {
            assert(fv.skip(m as int).len() == 0);
        }
        None
    }

    /// Whether a face is cached for this key on this backend.
    pub open spec fn cache_contains(&self, st: FontSourceType, k: Seq<char>) -> bool {
        key_pos(self.cache_keys(st), k) >= 0
    }

    /// The face a backend has cached at a position, if there is one.
    pub fn face(&self, source_type: FontSourceType, i: usize) -> (r: Option<&H>)
        requires
            self.wf(),
        ensures
            match r {
                Some(h) => self.is_active(source_type) && i < self.cache_faces(
                    source_type,
                ).len() && *h == self.cache_faces(source_type)[i as int],
                None => !self.is_active(source_type) || i >= self.cache_faces(
                    source_type,
                ).len(),
            },
    {
        proof {
            lemma_index_of_source_bounds(self.source_seq(), source_type);
        }
        match self.backend_pos(source_type) {
            None => None,
            Some(b) => {
                if i < self.backends[b].cache.len() {
                    Some(self.backends[b].cache.face(i))
                } else {
                    None
                }
            },
        }
    }

    /// Load the face of a descriptor through its backend's loader, with the
    /// backend's cache consulted first.
    ///
    /// On a cache hit the cached face's position is returned and the loader
    /// is not touched: no second parse for a face already loaded. On a miss
    /// the loader runs once; its face is cached and its position returned,
    /// while a failure is returned unchanged and never cached, so a later
    /// retry can succeed. A descriptor without a path fails before the
    /// loader is consulted, and an unrelated later load is unaffected by
    /// any failure.
    pub fn load<S: FontSource<Face = H>>(&mut self, loader: &mut S, info: &FontInfo) -> (r:
        Result<usize, LoadError>)
        requires
            old(self).wf(),
        ensures
            final(self).wf(),
            final(self).source_seq() == old(self).source_seq(),
            forall|st2: FontSourceType|
                final(self).catalog_seq(st2) == old(self).catalog_seq(st2),
            !old(self).is_active(info.source_type) ==> r == Err::<usize, LoadError>(
                LoadError::BackendUnavailable,
            ) && *final(self) == *old(self) && *final(loader) == *old(loader),
            old(self).is_active(info.source_type) && old(self).cache_contains(
                info.source_type,
                face_key(info@),
            ) ==> r == Ok::<usize, LoadError>(
                key_pos(old(self).cache_keys(info.source_type), face_key(info@)) as usize,
            ) && *final(self) == *old(self) && *final(loader) == *old(loader),
            old(self).is_active(info.source_type) && !old(self).cache_contains(
                info.source_type,
                face_key(info@),
            ) && info.path is None ==> r == Err::<usize, LoadError>(LoadError::MissingPath)
                && *final(self) == *old(self) && *final(loader) == *old(loader),
            old(self).is_active(info.source_type) && !old(self).cache_contains(
                info.source_type,
                face_key(info@),
            ) && info.path is Some ==> {
                &&& (r matches Ok(i) ==> i == old(self).cache_keys(info.source_type).len()
                    && final(self).cache_keys(info.source_type) == old(self).cache_keys(
                    info.source_type,
                ).push(face_key(info@)) && (exists|h: H|
                    final(self).cache_faces(info.source_type) == old(self).cache_faces(
                        info.source_type,
                    ).push(h)) && (forall|st2: FontSourceType|
                    st2 != info.source_type ==> final(self).cache_keys(st2) == old(
                        self,
                    ).cache_keys(st2) && final(self).cache_faces(st2) == old(self).cache_faces(
                        st2,
                    )))
                &&& (r matches Err(_) ==> *final(self) == *old(self))
            },
    {
        proof {
            lemma_index_of_source_bounds(self.source_seq(), info.source_type);
        }
        let idx: usize;
        match self.backend_pos(info.source_type) {
            None => {
                return Err(LoadError::BackendUnavailable);
            },
            Some(i) => {
                idx = i;
            },
        }
        let key: Vec<char> = face_key_chars(info);
        proof {
            assert(self.cache_keys(info.source_type) == self.backends@[idx as int]
                .cache.keys_view());
        }
        match self.backends[idx].cache.lookup(&key) {
            Some(pos) => {
                return Ok(pos);
            },
            None => {},
        }
        match &info.path {
            None => {
                return Err(LoadError::MissingPath);
            },
            Some(_) => {},
        }
        let fresh: Result<H, LoadError> = loader.load_face(info);
        match fresh {
            Ok(h) => {
                let ghost old_backends: Seq<BackendEntry<H>> = self.backends@;
                let ghost old_sources: Seq<FontSourceType> = self.source_seq();
                let pos: usize = self.backends[idx].cache.len();
                self.backends[idx].cache.store(key, h);
                proof {
                    assert(self.backends@.len() == old_backends.len());
                    assert(forall|b: int|
                        0 <= b < old_backends.len() && b != idx ==> self.backends@[b]
                            == old_backends[b]);
                    assert(self.backends@[idx as int].source_type == old_backends[idx as int]
                        .source_type);
                    assert(self.backends@[idx as int].fonts == old_backends[idx as int].fonts);
                    assert(self.source_seq() =~= old_sources);
                    assert forall|st2: FontSourceType|
                        final(self).catalog_seq(st2) == old(self).catalog_seq(st2) by {
                        lemma_index_of_source_bounds(old_sources, st2);
                    }
                    assert(final(self).wf());
                    let st = info.source_type;
                    assert(old_sources[idx as int] == st);
                    assert(final(self).cache_keys(st) == old(self).cache_keys(st).push(
                        face_key(info@),
                    ));
                    // the stored face itself is the witness
                    let fs = final(self).cache_faces(st);
                    assert(fs == old(self).cache_faces(st).push(fs.last()));
                    assert forall|st2: FontSourceType| st2 != st implies final(self).cache_keys(
                        st2,
                    ) == old(self).cache_keys(st2) && final(self).cache_faces(st2) == old(self)
                        .cache_faces(st2) by {
                        lemma_index_of_source_bounds(old_sources, st2);
                        let i2 = index_of_source(old_sources, st2);
                        if i2 >= 0 {
                            assert(old_sources[i2] == st2);
                            assert(i2 != idx);
                            assert(self.backends@[i2] == old_backends[i2]);
                        }
                    }
                }
                Ok(pos)
            },
            Err(e) => Err(e),
        }
    }
}

} // verus!
