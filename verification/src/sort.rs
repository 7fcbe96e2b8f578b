//! Ordering a catalog by family name, ascending and stable: descriptors
//! sharing a family keep their relative enumeration order.

use vstd::prelude::*;
use crate::catalog::infos_view;
use crate::font_info::FontInfo;
use crate::font_info::FontInfoV;
use crate::text::chars_le;
use crate::text::lemma_chars_le_reflexive;
use crate::text::lemma_chars_le_total;
use crate::text::lemma_chars_le_transitive;
use crate::text::lemma_filter_push;
use crate::text::str_le;

verus! {

/// A catalog ordered by family name: every pair of positions is in order.
pub open spec fn sorted_by_family(s: Seq<FontInfoV>) -> bool {
    forall|i: int, j: int| 0 <= i < j < s.len() ==> chars_le(s[i].family, s[j].family)
}

/// A descriptor inserted into an ordered catalog: it goes after every
/// element whose family name is not greater than its own, so among equal
/// families the inserted element comes last.
pub open spec fn insert_sorted(s: Seq<FontInfoV>, x: FontInfoV) -> Seq<FontInfoV>
    decreases s.len(),
{
    if s.len() == 0 {
        seq![x]
    } else if chars_le(s.last().family, x.family) {
        s.push(x)
    } else {
        insert_sorted(s.drop_last(), x).push(s.last())
    }
}

/// The catalog ordered by family name ascending, stably.
pub open spec fn sort_by_family(s: Seq<FontInfoV>) -> Seq<FontInfoV>
    decreases s.len(),
{
    if s.len() == 0 {
        Seq::empty()
    } else {
        insert_sorted(sort_by_family(s.drop_last()), s.last())
    }
}

/// The descriptors of one family, the test stability is stated over.
pub open spec fn family_is(fam: Seq<char>) -> spec_fn(FontInfoV) -> bool {
    |f: FontInfoV| f.family == fam
}

proof fn lemma_insert_sorted_elements(s: Seq<FontInfoV>, x: FontInfoV)
    ensures
        insert_sorted(s, x).len() == s.len() + 1,
        forall|k: int|
            0 <= k < insert_sorted(s, x).len() ==> insert_sorted(s, x)[k] == x || s.contains(
                insert_sorted(s, x)[k],
            ),
    decreases s.len(),
{
    if s.len() == 0 {
    } else if chars_le(s.last().family, x.family) {
        assert forall|k: int| 0 <= k < s.push(x).len() implies s.push(x)[k] == x || s.contains(
            s.push(x)[k],
        ) by {
            if k < s.len() {
                assert(s.push(x)[k] == s[k]);
            }
        }
    } else {
        lemma_insert_sorted_elements(s.drop_last(), x);
        let t = insert_sorted(s.drop_last(), x);
        assert forall|k: int| 0 <= k < t.push(s.last()).len() implies t.push(s.last())[k] == x
            || s.contains(t.push(s.last())[k]) by {
            if k < t.len() {
                assert(t.push(s.last())[k] == t[k]);
                if t[k] != x {
                    assert(s.drop_last().contains(t[k]));
                    let j = choose|j: int| 0 <= j < s.drop_last().len() && s.drop_last()[j]
                        == t[k];
                    assert(s[j] == t[k]);
                }
            } else {
                assert(t.push(s.last())[k] == s.last());
                assert(s[s.len() - 1] == s.last());
            }
        }
    }
}

/// Inserting into an ordered catalog keeps it ordered.
proof fn lemma_insert_sorted_sorted(s: Seq<FontInfoV>, x: FontInfoV)
    requires
        sorted_by_family(s),
    ensures
        sorted_by_family(insert_sorted(s, x)),
    decreases s.len(),
{
    if s.len() == 0 {
    } else if chars_le(s.last().family, x.family) {
        let t = s.push(x);
        assert forall|i: int, j: int| 0 <= i < j < t.len() implies chars_le(
            t[i].family,
            t[j].family,
        ) by {
            if j < s.len() {
            } else {
                assert(t[j] == x);
                if i < s.len() - 1 {
                    assert(chars_le(s[i].family, s.last().family));
                    lemma_chars_le_transitive(s[i].family, s.last().family, x.family);
                } else {
                    assert(t[i] == s.last());
                }
            }
        }
    } else {
        lemma_chars_le_total(s.last().family, x.family);
        assert(chars_le(x.family, s.last().family));
        assert(sorted_by_family(s.drop_last())) by {
            assert(forall|i: int|
                0 <= i < s.len() - 1 ==> #[trigger] s.drop_last()[i] == s[i]);
        }
        lemma_insert_sorted_sorted(s.drop_last(), x);
        lemma_insert_sorted_elements(s.drop_last(), x);
        let t = insert_sorted(s.drop_last(), x);
        let u = t.push(s.last());
        assert forall|i: int, j: int| 0 <= i < j < u.len() implies chars_le(
            u[i].family,
            u[j].family,
        ) by {
            if j < t.len() {
                assert(u[i] == t[i] && u[j] == t[j]);
            } else {
                assert(u[j] == s.last());
                assert(u[i] == t[i]);
                if t[i] == x {
                } else {
                    assert(s.drop_last().contains(t[i]));
                    let k = choose|k: int| 0 <= k < s.drop_last().len() && s.drop_last()[k]
                        == t[i];
                    assert(s[k] == t[i]);
                    assert(chars_le(s[k].family, s.last().family));
                }
            }
        }
    }
}

/// Inserting a descriptor appends it to its family's run and leaves every
/// other family's run unchanged.
proof fn lemma_insert_sorted_filter(s: Seq<FontInfoV>, x: FontInfoV, fam: Seq<char>)
    ensures
        insert_sorted(s, x).filter(family_is(fam)) == if x.family == fam {
            s.filter(family_is(fam)).push(x)
        } else {
            s.filter(family_is(fam))
        },
    decreases s.len(),
{
    let pred = family_is(fam);
    if s.len() == 0 {
        assert(seq![x] =~= Seq::<FontInfoV>::empty().push(x));
        lemma_filter_push(Seq::<FontInfoV>::empty(), pred, x);
        assert(Seq::<FontInfoV>::empty().filter(pred) =~= Seq::<FontInfoV>::empty()) by {
            reveal(Seq::filter);
        }
        assert(s.filter(pred) =~= Seq::<FontInfoV>::empty()) by {
            reveal(Seq::filter);
        }
    } else if chars_le(s.last().family, x.family) {
        lemma_filter_push(s, pred, x);
    } else {
        // the last element's family is strictly greater, so never x's family
        lemma_chars_le_total(s.last().family, x.family);
        assert(s.last().family != x.family) by {
            if s.last().family == x.family {
                lemma_chars_le_reflexive(x.family);
            }
        }
        lemma_insert_sorted_filter(s.drop_last(), x, fam);
        let t = insert_sorted(s.drop_last(), x);
        lemma_filter_push(t, pred, s.last());
        lemma_filter_push(s.drop_last(), pred, s.last());
        assert(s.drop_last().push(s.last()) =~= s);
    }
}

/// Ordering a catalog by family is stable: the descriptors of any one
/// family appear in the ordered catalog exactly as they were enumerated.
pub proof fn lemma_sort_stable(s: Seq<FontInfoV>, fam: Seq<char>)
    ensures
        sort_by_family(s).filter(family_is(fam)) == s.filter(family_is(fam)),
    decreases s.len(),
{
    let pred = family_is(fam);
    if s.len() == 0 {
    } else {
        lemma_sort_stable(s.drop_last(), fam);
        lemma_insert_sorted_filter(sort_by_family(s.drop_last()), s.last(), fam);
        lemma_filter_push(s.drop_last(), pred, s.last());
        assert(s.drop_last().push(s.last()) =~= s);
    }
}

/// An ordered catalog really is ordered by family name.
pub proof fn lemma_sort_sorted(s: Seq<FontInfoV>)
    ensures
        sorted_by_family(sort_by_family(s)),
    decreases s.len(),
{
    if s.len() == 0 {
    } else {
        lemma_sort_sorted(s.drop_last());
        lemma_insert_sorted_sorted(sort_by_family(s.drop_last()), s.last());
    }
}

/// Ordering a catalog keeps exactly its descriptors: the result is a
/// permutation of the input.
pub proof fn lemma_sort_permutation(s: Seq<FontInfoV>)
    ensures
        sort_by_family(s).to_multiset() == s.to_multiset(),
    decreases s.len(),
{
    broadcast use vstd::seq_lib::group_to_multiset_ensures;

    if s.len() > 0 {
        lemma_sort_permutation(s.drop_last());
        lemma_insert_sorted_multiset(sort_by_family(s.drop_last()), s.last());
        assert(s.drop_last().push(s.last()) =~= s);
        assert(s.drop_last().to_multiset().insert(s.last()) == s.to_multiset());
    }
}

proof fn lemma_insert_sorted_multiset(s: Seq<FontInfoV>, x: FontInfoV)
    ensures
        insert_sorted(s, x).to_multiset() == s.to_multiset().insert(x),
    decreases s.len(),
{
    broadcast use vstd::seq_lib::group_to_multiset_ensures;

    if s.len() == 0 {
        assert(seq![x] =~= Seq::<FontInfoV>::empty().push(x));
    } else if chars_le(s.last().family, x.family) {
    } else {
        lemma_insert_sorted_multiset(s.drop_last(), x);
        let t = insert_sorted(s.drop_last(), x);
        assert(t.push(s.last()).to_multiset() == t.to_multiset().insert(s.last()));
        assert(s.drop_last().push(s.last()) =~= s);
        assert(s.to_multiset() == s.drop_last().to_multiset().insert(s.last()));
        assert(s.drop_last().to_multiset().insert(x).insert(s.last())
            =~= s.drop_last().to_multiset().insert(s.last()).insert(x)) by {
            broadcast use vstd::multiset::group_multiset_properties;

        }
    }
}

/// Where the scan from the right stops is where `insert_sorted` puts the
/// element.
proof fn lemma_insert_sorted_at(s: Seq<FontInfoV>, x: FontInfoV, j: int)
    requires
        0 <= j <= s.len(),
        forall|k: int| j <= k < s.len() ==> !chars_le(#[trigger] s[k].family, x.family),
        j > 0 ==> chars_le(s[j - 1].family, x.family),
    ensures
        insert_sorted(s, x) == s.subrange(0, j).push(x) + s.subrange(j, s.len() as int),
    decreases s.len() - j,
{
    if j == s.len() {
        if s.len() == 0 {
            assert(seq![x] =~= s.subrange(0, 0).push(x) + s.subrange(0, 0));
        } else {
            assert(chars_le(s.last().family, x.family));
            assert(s.push(x) =~= s.subrange(0, j).push(x) + s.subrange(j, s.len() as int));
        }
    } else {
        assert(!chars_le(s[s.len() - 1].family, x.family));
        lemma_insert_sorted_at(s.drop_last(), x, j);
        assert(insert_sorted(s, x) == insert_sorted(s.drop_last(), x).push(s.last()));
        assert(insert_sorted(s.drop_last(), x).push(s.last()) =~= s.subrange(0, j).push(x)
            + s.subrange(j, s.len() as int)) by {
            assert(forall|k: int|
                0 <= k < s.len() - 1 ==> #[trigger] s.drop_last()[k] == s[k]);
            assert(s.drop_last().subrange(0, j) =~= s.subrange(0, j));
            assert(s.drop_last().subrange(j, s.drop_last().len() as int) =~= s.subrange(
                j,
                s.len() - 1,
            ));
        }
    }
}

/// A copy of a catalog, ordered by family name ascending; descriptors with
/// equal family keep their enumeration order.
pub fn sort_fonts(fonts: &Vec<FontInfo>) -> (r: Vec<FontInfo>)
    ensures
        infos_view(r@) == sort_by_family(infos_view(fonts@)),
{
    let n: usize = fonts.len();
    let mut out: Vec<FontInfo> = Vec::new();
    let mut i: usize = 0;
    while i < n
        invariant
            n == fonts@.len(),
            i <= n,
            out@.len() == i,
            infos_view(out@) == sort_by_family(infos_view(fonts@).subrange(0, i as int)),
        decreases n - i,
    {
        let ghost s: Seq<FontInfoV> = infos_view(out@);
        let x: FontInfo = fonts[i].duplicate();
        proof {
            assert(x@ == infos_view(fonts@)[i as int]);
        }
        let mut j: usize = out.len();
        while j > 0 && !str_le(out[j - 1].family.as_str(), x.family.as_str())
            invariant
                j <= out@.len(),
                s == infos_view(out@),
                forall|k: int|
                    j <= k < out@.len() ==> !chars_le(#[trigger] s[k].family, x@.family),
            decreases j,
        {
            proof {
                assert(s[j - 1].family == out@[j - 1].family@);
            }
            j = j - 1;
        }
        proof {
            if j > 0 {
                assert(chars_le(s[j - 1].family, x@.family)) by {
                    assert(s[j - 1].family == out@[j - 1].family@);
                }
            }
            lemma_insert_sorted_at(s, x@, j as int);
        }
        let ghost old_out: Seq<FontInfo> = out@;
        out.insert(j, x);
        proof {
            assert(infos_view(out@) =~= insert_sorted(s, x@)) by {
                assert(out@ == old_out.insert(j as int, x));
                old_out.insert_ensures(j as int, x);
            }
            let pre = infos_view(fonts@).subrange(0, i as int);
            assert(pre.push(infos_view(fonts@)[i as int]) =~= infos_view(fonts@).subrange(
                0,
                i + 1,
            ));
            assert(sort_by_family(pre.push(infos_view(fonts@)[i as int])) == insert_sorted(
                sort_by_family(pre),
                infos_view(fonts@)[i as int],
            )) by {
                assert(pre.push(infos_view(fonts@)[i as int]).drop_last() =~= pre);
            }
        }
        i = i + 1;
    }
    proof {
        assert(infos_view(fonts@).subrange(0, n as int) =~= infos_view(fonts@));
    }
    out
}

} // verus!
