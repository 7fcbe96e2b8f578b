//! Building a backend's catalog: records whose canonical path was already
//! recorded during the same enumeration pass are dropped, so one physical
//! font file reachable through several symlinked directories appears once.
//! Deduplication is scoped to one backend's pass, never across backends.

use vstd::prelude::*;
use crate::font_info::FontInfo;
use crate::font_info::FontInfoV;
use crate::font_info::FontRecord;
use crate::font_info::FontRecordV;
use crate::font_info::FontSourceType;
use crate::font_info::record_to_info;
use crate::text::lemma_filter_push;

verus! {

/// The mathematical image of a record vector.
pub open spec fn records_view(s: Seq<FontRecord>) -> Seq<FontRecordV> {
    s.map_values(|r: FontRecord| r@)
}

/// The mathematical image of a descriptor vector.
pub open spec fn infos_view(s: Seq<FontInfo>) -> Seq<FontInfoV> {
    s.map_values(|f: FontInfo| f@)
}

/// Whether the record at `i` survives deduplication: it has no path, or no
/// earlier record in the pass claims the same canonical path.
pub open spec fn keep_at(s: Seq<FontRecordV>, i: int) -> bool {
    s[i].path is None || (forall|j: int| 0 <= j < i ==> s[j].path != s[i].path)
}

/// The records that survive deduplication, first occurrence of each
/// canonical path winning, in enumeration order.
pub open spec fn dedup_records(s: Seq<FontRecordV>) -> Seq<FontRecordV>
    decreases s.len(),
{
    if s.len() == 0 {
        Seq::empty()
    } else {
        let prefix = dedup_records(s.drop_last());
        if keep_at(s, s.len() - 1) {
            prefix.push(s.last())
        } else {
            prefix
        }
    }
}

/// The catalog a backend's enumeration pass produces: deduplicated records,
/// adopted under the backend's identifier.
pub open spec fn spec_catalog(s: Seq<FontRecordV>, source_type: FontSourceType) -> Seq<
    FontInfoV,
> {
    dedup_records(s).map_values(|r: FontRecordV| record_to_info(r, source_type))
}

/// Whether some record among the first `i` claims canonical path `q`.
pub open spec fn path_in_prefix(s: Seq<FontRecordV>, i: int, q: Seq<char>) -> bool {
    exists|j: int| 0 <= j < i && s[j].path == Some(q)
}

/// Whether the seen-set holds path `q`.
pub open spec fn in_seen(seen: Seq<String>, q: Seq<char>) -> bool {
    exists|k: int| 0 <= k < seen.len() && seen[k]@ == q
}

/// Appending one record to a pass extends its deduplicated form by that
/// record exactly when the record is no duplicate of an earlier path.
proof fn lemma_dedup_push(s: Seq<FontRecordV>, x: FontRecordV)
    ensures
        dedup_records(s.push(x)) == if x.path is None || (forall|j: int|
            0 <= j < s.len() ==> s[j].path != x.path) {
            dedup_records(s).push(x)
        } else {
            dedup_records(s)
        },
{
    assert(s.push(x).drop_last() =~= s);
    assert(s.push(x).last() == x);
    assert(keep_at(s.push(x), s.len() as int) == (x.path is None || (forall|j: int|
        0 <= j < s.len() ==> s[j].path != x.path))) by {
        assert(forall|j: int| 0 <= j < s.len() ==> s.push(x)[j] == s[j]);
    }
}

/// Whether the seen-set already holds a path, executable form.
fn seen_contains(seen: &Vec<String>, p: &String) -> (r: bool)
    ensures
        r == in_seen(seen@, p@),
{
    let n: usize = seen.len();
    let mut k: usize = 0;
    while k < n
        invariant
            n == seen@.len(),
            k <= n,
            forall|j: int| 0 <= j < k ==> seen@[j]@ != p@,
        decreases n - k,
    {
        if seen[k] == *p {
            return true;
        }
        k = k + 1;
    }
    false
}

/// Build one backend's catalog from its enumeration pass: drop every record
/// whose canonical path was already recorded in this pass, and adopt the
/// rest under the backend's identifier, in enumeration order.
pub fn build_catalog(records: &Vec<FontRecord>, source_type: FontSourceType) -> (r: Vec<FontInfo>)
    ensures
        infos_view(r@) == spec_catalog(records_view(records@), source_type),
{
    let ghost orig: Seq<FontRecordV> = records_view(records@);
    let ghost to_info = |r: FontRecordV| record_to_info(r, source_type);
    let n: usize = records.len();
    let mut out: Vec<FontInfo> = Vec::new();
    let mut seen: Vec<String> = Vec::new();
    let mut i: usize = 0;
    while i < n
        invariant
            n == records@.len(),
            orig == records_view(records@),
            orig.len() == n,
            to_info == (|r: FontRecordV| record_to_info(r, source_type)),
            i <= n,
            infos_view(out@) == dedup_records(orig.subrange(0, i as int)).map_values(to_info),
            forall|q: Seq<char>|
                #[trigger] in_seen(seen@, q) == path_in_prefix(orig, i as int, q),
        decreases n - i,
    {
        let ghost pre: Seq<FontRecordV> = orig.subrange(0, i as int);
        let ghost x: FontRecordV = orig[i as int];
        proof {
            assert(x == records@[i as int]@);
            assert(pre.push(x) =~= orig.subrange(0, i + 1));
            lemma_dedup_push(pre, x);
            assert(forall|j: int| 0 <= j < i ==> pre[j] == orig[j]);
        }
        let keep: bool;
        let ghost old_seen: Seq<String> = seen@;
        match &records[i].path {
            Some(p) => {
                proof {
                    assert(x.path == Some(p@));
                }
                if seen_contains(&seen, p) {
                    keep = false;
                    proof {
                        assert(path_in_prefix(orig, i as int, p@));
                        let j = choose|j: int| 0 <= j < i && orig[j].path == Some(p@);
                        assert(pre[j].path == x.path);
                        assert(!keep_at(pre.push(x), i as int));
                    }
                } else {
                    keep = true;
                    seen.push(p.clone());
                    proof {
                        assert(!path_in_prefix(orig, i as int, p@));
                        assert forall|j: int| 0 <= j < i implies pre[j].path != x.path by {
                            if orig[j].path == Some(p@) {
                                assert(path_in_prefix(orig, i as int, p@));
                            }
                        }
                        assert forall|q: Seq<char>| #[trigger] in_seen(seen@, q)
                            == path_in_prefix(orig, i + 1, q) by {
                            if in_seen(seen@, q) {
                                let k = choose|k: int|
                                    0 <= k < seen@.len() && seen@[k]@ == q;
                                if k < old_seen.len() {
                                    assert(old_seen[k]@ == q);
                                    assert(in_seen(old_seen, q));
                                    let j = choose|j: int|
                                        0 <= j < i && orig[j].path == Some(q);
                                    assert(path_in_prefix(orig, i + 1, q));
                                } else {
                                    assert(seen@[k]@ == p@);
                                    assert(orig[i as int].path == Some(q));
                                    assert(path_in_prefix(orig, i + 1, q));
                                }
                            }
                            if path_in_prefix(orig, i + 1, q) {
                                let j = choose|j: int|
                                    0 <= j < i + 1 && orig[j].path == Some(q);
                                if j < i {
                                    assert(path_in_prefix(orig, i as int, q));
                                    assert(in_seen(old_seen, q));
                                    let k = choose|k: int|
                                        0 <= k < old_seen.len() && old_seen[k]@ == q;
                                    assert(seen@[k]@ == q);
                                    assert(in_seen(seen@, q));
                                } else {
                                    assert(x.path == Some(q));
                                    assert(seen@[seen@.len() - 1]@ == q);
                                    assert(in_seen(seen@, q));
                                }
                            }
                        }
                    }
                }
            },
            None => {
                keep = true;
                proof {
                    assert(x.path is None);
                    assert forall|q: Seq<char>| #[trigger] in_seen(seen@, q)
                        == path_in_prefix(orig, i + 1, q) by {
                        if in_seen(seen@, q) {
                            let j = choose|j: int| 0 <= j < i && orig[j].path == Some(q);
                            assert(path_in_prefix(orig, i + 1, q));
                        }
                        if path_in_prefix(orig, i + 1, q) {
                            let j = choose|j: int| 0 <= j < i + 1 && orig[j].path == Some(q);
                            assert(j < i);
                            assert(path_in_prefix(orig, i as int, q));
                        }
                    }
                }
            },
        }
        if keep {
            let rec: &FontRecord = &records[i];
            let info = FontInfo {
                family: rec.family.clone(),
                style: rec.style,
                weight: rec.weight,
                stretch: rec.stretch,
                monospaced: rec.monospaced,
                path: match &rec.path {
                    Some(p) => Some(p.clone()),
                    None => None,
                },
                index: rec.index,
                source_type,
            };
            let ghost old_out: Seq<FontInfo> = out@;
            proof {
                assert(info@ == record_to_info(x, source_type));
            }
            out.push(info);
            proof {
                assert(dedup_records(pre.push(x)) == dedup_records(pre).push(x));
                let d = dedup_records(pre);
                assert(d.push(x).map_values(to_info) =~= d.map_values(to_info).push(
                    to_info(x),
                ));
                assert(infos_view(out@) =~= infos_view(old_out).push(info@));
                assert(infos_view(out@) =~= dedup_records(orig.subrange(0, i + 1)).map_values(
                    to_info,
                ));
            }
        } else {
            proof {
                assert(dedup_records(pre.push(x)) == dedup_records(pre));
                assert(infos_view(out@) =~= dedup_records(orig.subrange(0, i + 1)).map_values(
                    to_info,
                ));
            }
        }
        i = i + 1;
    }
    proof {
        assert(orig.subrange(0, n as int) =~= orig);
    }
    out
}

/// Every record that survives deduplication was enumerated.
proof fn lemma_dedup_subset(s: Seq<FontRecordV>)
    ensures
        forall|k: int|
            0 <= k < dedup_records(s).len() ==> s.contains(#[trigger] dedup_records(s)[k]),
    decreases s.len(),
{
    if s.len() > 0 {
        let s1 = s.drop_last();
        lemma_dedup_subset(s1);
        let d = dedup_records(s);
        let d1 = dedup_records(s1);
        assert forall|k: int| 0 <= k < d.len() implies s.contains(d[k]) by {
            if k < d1.len() {
                assert(d[k] == d1[k]);
                assert(s1.contains(d1[k]));
                let j = choose|j: int| 0 <= j < s1.len() && s1[j] == d1[k];
                assert(s[j] == d[k]);
            } else {
                assert(d[k] == s.last());
                assert(s[s.len() - 1] == s.last());
            }
        }
    }
}

/// Two surviving records never share a canonical path.
proof fn lemma_dedup_distinct_paths(s: Seq<FontRecordV>)
    ensures
        forall|i: int, j: int|
            0 <= i < j < dedup_records(s).len() ==> ((#[trigger] dedup_records(s)[i]).path
                is Some ==> dedup_records(s)[i].path != (#[trigger] dedup_records(s)[j]).path),
    decreases s.len(),
{
    if s.len() > 0 {
        let s1 = s.drop_last();
        let x = s.last();
        lemma_dedup_distinct_paths(s1);
        lemma_dedup_subset(s1);
        let d = dedup_records(s);
        let d1 = dedup_records(s1);
        assert forall|i: int, j: int|
            0 <= i < j < d.len() implies (d[i].path is Some ==> d[i].path != d[j].path) by {
            if j < d1.len() {
                assert(d[i] == d1[i] && d[j] == d1[j]);
            } else if j == d1.len() && d.len() == d1.len() + 1 {
                // the last surviving record is x, and x was kept
                assert(d[j] == x);
                assert(d[i] == d1[i]);
                assert(keep_at(s, s.len() - 1));
                if d[i].path is Some && d[i].path == x.path {
                    assert(x.path is Some);
                    assert(s1.contains(d1[i]));
                    let m = choose|m: int| 0 <= m < s1.len() && s1[m] == d1[i];
                    assert(s[m].path == x.path);
                    assert(s[m].path != s[s.len() - 1].path);
                    assert(false);
                }
            }
        }
    }
}

/// A catalog built from an enumeration pass is well formed: every
/// descriptor carries the backend's identifier, and no two descriptors
/// share a canonical path.
pub proof fn lemma_catalog_wf(s: Seq<FontRecordV>, source_type: FontSourceType)
    ensures
        forall|k: int|
            0 <= k < spec_catalog(s, source_type).len() ==> (#[trigger] spec_catalog(
                s,
                source_type,
            )[k]).source_type == source_type,
        forall|i: int, j: int|
            0 <= i < j < spec_catalog(s, source_type).len() ==> ((#[trigger] spec_catalog(
                s,
                source_type,
            )[i]).path is Some ==> spec_catalog(s, source_type)[i].path != (#[trigger] spec_catalog(
                s,
                source_type,
            )[j]).path),
{
    lemma_dedup_distinct_paths(s);
}

/// Deduplication leaves at most one record per canonical path, and exactly
/// one when the pass saw that path at all: however many symlinked names
/// resolve to one physical file, a backend's catalog lists it once.
pub proof fn lemma_dedup_unique_path(s: Seq<FontRecordV>, p: Seq<char>)
    ensures
        dedup_records(s).filter(|r: FontRecordV| r.path == Some(p)).len() <= 1,
        (exists|i: int| 0 <= i < s.len() && s[i].path == Some(p)) <==> dedup_records(s).filter(
            |r: FontRecordV| r.path == Some(p),
        ).len() == 1,
    decreases s.len(),
{
    let pred = |r: FontRecordV| r.path == Some(p);
    if s.len() == 0 {
        assert(dedup_records(s).filter(pred) =~= Seq::<FontRecordV>::empty());
    } else {
        let s1 = s.drop_last();
        let x = s.last();
        lemma_dedup_unique_path(s1, p);
        assert(s1.push(x) =~= s);
        lemma_dedup_push(s1, x);
        assert(forall|j: int| 0 <= j < s1.len() ==> s[j] == s1[j]);
        if x.path is None || (forall|j: int| 0 <= j < s1.len() ==> s1[j].path != x.path) {
            assert(dedup_records(s) == dedup_records(s1).push(x));
            lemma_filter_push(dedup_records(s1), pred, x);
            if x.path == Some(p) {
                assert(forall|j: int| 0 <= j < s1.len() ==> s1[j].path != Some(p));
                assert(!(exists|i: int| 0 <= i < s1.len() && s1[i].path == Some(p)));
                assert(dedup_records(s1).filter(pred).len() == 0);
                assert(dedup_records(s).filter(pred).len() == 1);
                assert(s[s.len() - 1].path == Some(p));
            } else {
                assert(dedup_records(s).filter(pred) == dedup_records(s1).filter(pred));
                assert forall|i: int|
                    0 <= i < s.len() && s[i].path == Some(p) implies 0 <= i < s1.len()
                    && s1[i].path == Some(p) by {
                    assert(i != s.len() - 1);
                }
                assert((exists|i: int| 0 <= i < s.len() && s[i].path == Some(p)) == (exists|
                    i: int,
                |
                    0 <= i < s1.len() && s1[i].path == Some(p)));
            }
        } else {
            assert(dedup_records(s) == dedup_records(s1));
            let q = choose|j: int| 0 <= j < s1.len() && s1[j].path == x.path;
            if x.path == Some(p) {
                assert(s1[q].path == Some(p));
                assert(exists|i: int| 0 <= i < s1.len() && s1[i].path == Some(p));
            } else {
                assert forall|i: int|
                    0 <= i < s.len() && s[i].path == Some(p) implies 0 <= i < s1.len()
                    && s1[i].path == Some(p) by {
                    assert(i != s.len() - 1);
                }
                assert((exists|i: int| 0 <= i < s.len() && s[i].path == Some(p)) == (exists|
                    i: int,
                |
                    0 <= i < s1.len() && s1[i].path == Some(p)));
            }
        }
    }
}

} // verus!
