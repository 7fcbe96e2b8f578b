//! Character-level text helpers for family-name handling: quote stripping,
//! whitespace trimming, ASCII case folding and lexicographic order.

use vstd::prelude::*;
use vstd::string::StrSliceExecFns;

verus! {

/// Code point of a character after ASCII case folding: upper-case ASCII
/// letters fold to lower case, every other character keeps its code.
pub open spec fn lower_code(c: char) -> int {
    if 65 <= c as int && c as int <= 90 {
        c as int + 32
    } else {
        c as int
    }
}

/// Case-insensitive equality of two character sequences (ASCII case folding).
pub open spec fn ci_eq(a: Seq<char>, b: Seq<char>) -> bool {
    &&& a.len() == b.len()
    &&& forall|i: int| 0 <= i < a.len() ==> lower_code(a[i]) == lower_code(b[i])
}

/// A character of the Unicode `White_Space` set, as `str::trim` removes.
pub open spec fn is_space(c: char) -> bool {
    ||| 9 <= c as int && c as int <= 13
    ||| c as int == 32
    ||| c as int == 0x85
    ||| c as int == 0xA0
    ||| c as int == 0x1680
    ||| 0x2000 <= c as int && c as int <= 0x200A
    ||| c as int == 0x2028
    ||| c as int == 0x2029
    ||| c as int == 0x202F
    ||| c as int == 0x205F
    ||| c as int == 0x3000
}

/// The sequence with every quote character removed.
pub open spec fn strip_quotes(s: Seq<char>) -> Seq<char> {
    s.filter(|c: char| c != '\'')
}

/// The sequence with leading whitespace removed.
pub open spec fn trim_start(s: Seq<char>) -> Seq<char>
    decreases s.len(),
{
    if s.len() > 0 && is_space(s[0]) {
        trim_start(s.drop_first())
    } else {
        s
    }
}

/// The sequence with trailing whitespace removed.
pub open spec fn trim_end(s: Seq<char>) -> Seq<char>
    decreases s.len(),
{
    if s.len() > 0 && is_space(s.last()) {
        trim_end(s.drop_last())
    } else {
        s
    }
}

/// A candidate family name as matching sees it: quote characters removed,
/// then surrounding whitespace trimmed.
pub open spec fn normalize_family(s: Seq<char>) -> Seq<char> {
    trim_end(trim_start(strip_quotes(s)))
}

/// Lexicographic order on character sequences by code point, the order in
/// which family names are listed.
pub open spec fn chars_le(a: Seq<char>, b: Seq<char>) -> bool
    decreases a.len(),
{
    if a.len() == 0 {
        true
    } else if b.len() == 0 {
        false
    } else if (a[0] as int) < (b[0] as int) {
        true
    } else if (a[0] as int) > (b[0] as int) {
        false
    } else {
        chars_le(a.drop_first(), b.drop_first())
    }
}

/// Folded code point of a character, executable form.
pub fn lower_code_u32(c: char) -> (r: u32)
    ensures
        r as int == lower_code(c),
{
    let u: u32 = c as u32;
    if 65 <= u && u <= 90 {
        u + 32
    } else {
        u
    }
}

/// Whether a character is whitespace, executable form.
pub fn is_space_char(c: char) -> (r: bool)
    ensures
        r == is_space(c),
{
    let u: u32 = c as u32;
    (9 <= u && u <= 13) || u == 32 || u == 0x85 || u == 0xA0 || u == 0x1680 || (0x2000 <= u && u
        <= 0x200A) || u == 0x2028 || u == 0x2029 || u == 0x202F || u == 0x205F || u == 0x3000
}

/// The characters of a string slice, collected into a vector.
pub fn str_chars(s: &str) -> (r: Vec<char>)
    ensures
        r@ == s@,
{
    let n: usize = s.unicode_len();
    let mut r: Vec<char> = Vec::new();
    let mut i: usize = 0;
    while i < n
        invariant
            n == s@.len(),
            i <= n,
            r@ =~= s@.subrange(0, i as int),
        decreases n - i,
    {
        r.push(s.get_char(i));
        i = i + 1;
    }
    proof {
        assert(r@ =~= s@);
    }
    r
}

/// Equality of a character vector and a string slice.
pub fn chars_eq_str(a: &Vec<char>, b: &str) -> (r: bool)
    ensures
        r == (a@ == b@),
{
    let n: usize = b.unicode_len();
    if a.len() != n {
        return false;
    }
    let mut i: usize = 0;
    while i < n
        invariant
            n == b@.len(),
            a@.len() == n,
            i <= n,
            forall|j: int| 0 <= j < i ==> a@[j] == b@[j],
        decreases n - i,
    {
        if a[i] != b.get_char(i) {
            return false;
        }
        i = i + 1;
    }
    proof {
        assert(a@ =~= b@);
    }
    true
}

/// Equality of two character vectors.
pub fn chars_eq(a: &Vec<char>, b: &Vec<char>) -> (r: bool)
    ensures
        r == (a@ == b@),
{
    let n: usize = b.len();
    if a.len() != n {
        return false;
    }
    let mut i: usize = 0;
    while i < n
        invariant
            n == b@.len(),
            a@.len() == n,
            i <= n,
            forall|j: int| 0 <= j < i ==> a@[j] == b@[j],
        decreases n - i,
    {
        if a[i] != b[i] {
            return false;
        }
        i = i + 1;
    }
    proof {
        assert(a@ =~= b@);
    }
    true
}

/// A fresh copy of a character vector.
pub fn copy_chars(v: &Vec<char>) -> (r: Vec<char>)
    ensures
        r@ == v@,
{
    let n: usize = v.len();
    let mut r: Vec<char> = Vec::new();
    let mut i: usize = 0;
    while i < n
        invariant
            n == v@.len(),
            i <= n,
            r@ =~= v@.subrange(0, i as int),
        decreases n - i,
    {
        r.push(v[i]);
        i = i + 1;
    }
    proof {
        assert(r@ =~= v@);
    }
    r
}

/// Case-insensitive equality of a character vector and a string slice.
pub fn chars_ci_eq_str(a: &Vec<char>, b: &str) -> (r: bool)
    ensures
        r == ci_eq(a@, b@),
{
    let n: usize = b.unicode_len();
    if a.len() != n {
        return false;
    }
    let mut i: usize = 0;
    while i < n
        invariant
            n == b@.len(),
            a@.len() == n,
            i <= n,
            forall|j: int| 0 <= j < i ==> lower_code(a@[j]) == lower_code(b@[j]),
        decreases n - i,
    {
        if lower_code_u32(a[i]) != lower_code_u32(b.get_char(i)) {
            return false;
        }
        i = i + 1;
    }
    true
}

/// `trim_start` removes exactly the leading run of whitespace.
proof fn lemma_trim_start_prefix(s: Seq<char>, a: int)
    requires
        0 <= a <= s.len(),
        forall|j: int| 0 <= j < a ==> is_space(s[j]),
        a < s.len() ==> !is_space(s[a]),
    ensures
        trim_start(s) == s.subrange(a, s.len() as int),
    decreases a,
{
    if a == 0 {
        assert(s.subrange(0, s.len() as int) =~= s);
    } else {
        assert(is_space(s[0]));
        lemma_trim_start_prefix(s.drop_first(), a - 1);
        assert(s.drop_first().subrange(a - 1, s.drop_first().len() as int) =~= s.subrange(
            a,
            s.len() as int,
        ));
    }
}

/// `trim_end` removes exactly the trailing run of whitespace.
proof fn lemma_trim_end_suffix(s: Seq<char>, b: int)
    requires
        0 <= b <= s.len(),
        forall|j: int| b <= j < s.len() ==> is_space(s[j]),
        b > 0 ==> !is_space(s[b - 1]),
    ensures
        trim_end(s) == s.subrange(0, b),
    decreases s.len() - b,
{
    if b == s.len() {
        if s.len() > 0 && is_space(s.last()) {
            assert(false);
        }
        assert(s.subrange(0, s.len() as int) =~= s);
    } else {
        assert(is_space(s.last()));
        lemma_trim_end_suffix(s.drop_last(), b);
        assert(s.drop_last().subrange(0, b) =~= s.subrange(0, b));
    }
}

/// Pushing an element commutes with `filter`.
pub proof fn lemma_filter_push<A>(s: Seq<A>, pred: spec_fn(A) -> bool, x: A)
    ensures
        s.push(x).filter(pred) == if pred(x) {
            s.filter(pred).push(x)
        } else {
            s.filter(pred)
        },
{
    reveal(Seq::filter);
    assert(s.push(x).drop_last() =~= s);
    assert(s.push(x).last() == x);
}

/// The characters of a family name after quote stripping and trimming.
pub fn normalize_family_chars(s: &str) -> (r: Vec<char>)
    ensures
        r@ == normalize_family(s@),
{
    let n: usize = s.unicode_len();
    let mut stripped: Vec<char> = Vec::new();
    let mut i: usize = 0;
    while i < n
        invariant
            n == s@.len(),
            i <= n,
            stripped@ == s@.subrange(0, i as int).filter(|c: char| c != '\''),
        decreases n - i,
    {
        let c: char = s.get_char(i);
        proof {
            lemma_filter_push(s@.subrange(0, i as int), |c: char| c != '\'', s@[i as int]);
            assert(s@.subrange(0, i as int).push(s@[i as int]) =~= s@.subrange(0, i + 1));
        }
        if c != '\'' {
            stripped.push(c);
        }
        i = i + 1;
    }
    proof {
        assert(s@.subrange(0, n as int) =~= s@);
    }
    // stripped@ == strip_quotes(s@); now trim the surrounding whitespace
    let m: usize = stripped.len();
    let mut a: usize = 0;
    while a < m && is_space_char(stripped[a])
        invariant
            m == stripped@.len(),
            a <= m,
            forall|j: int| 0 <= j < a ==> is_space(stripped@[j]),
        decreases m - a,
    {
        a = a + 1;
    }
    if a == m {
        // all whitespace: the normalized name is empty
        let r: Vec<char> = Vec::new();
        proof {
            lemma_trim_start_prefix(stripped@, m as int);
            assert(stripped@.subrange(m as int, m as int) =~= Seq::<char>::empty());
            assert(r@ =~= normalize_family(s@));
        }
        return r;
    }
    let mut b: usize = m;
    while b > a + 1 && is_space_char(stripped[b - 1])
        invariant
            m == stripped@.len(),
            a < b <= m,
            forall|j: int| b <= j < m ==> is_space(stripped@[j]),
        decreases b,
    {
        b = b - 1;
    }
    // copy out the kept middle part
    let mut r: Vec<char> = Vec::new();
    let mut k: usize = a;
    while k < b
        invariant
            a <= k <= b <= m,
            m == stripped@.len(),
            r@ =~= stripped@.subrange(a as int, k as int),
        decreases b - k,
    {
        r.push(stripped[k]);
        k = k + 1;
    }
    proof {
        lemma_trim_start_prefix(stripped@, a as int);
        let t: Seq<char> = stripped@.subrange(a as int, m as int);
        assert(!is_space(t[0]));
        lemma_trim_end_suffix(t, b - a);
        assert(t.subrange(0, b - a) =~= stripped@.subrange(a as int, b as int));
        assert(r@ =~= stripped@.subrange(a as int, b as int));
    }
    r
}

/// Filtering keeps a sequence on which the predicate already holds
/// everywhere.
proof fn lemma_filter_all_true<A>(s: Seq<A>, pred: spec_fn(A) -> bool)
    requires
        forall|i: int| 0 <= i < s.len() ==> pred(s[i]),
    ensures
        s.filter(pred) == s,
    decreases s.len(),
{
    reveal(Seq::filter);
    if s.len() > 0 {
        lemma_filter_all_true(s.drop_last(), pred);
        assert(s.drop_last().push(s.last()) =~= s);
    }
}

/// Every character of a trimmed sequence was in the sequence.
proof fn lemma_trim_start_chars(s: Seq<char>)
    ensures
        forall|i: int| 0 <= i < trim_start(s).len() ==> s.contains(#[trigger] trim_start(s)[i]),
    decreases s.len(),
{
    if s.len() > 0 && is_space(s[0]) {
        lemma_trim_start_chars(s.drop_first());
        assert(trim_start(s) == trim_start(s.drop_first()));
        assert forall|i: int| 0 <= i < trim_start(s).len() implies s.contains(
            #[trigger] trim_start(s)[i],
        ) by {
            assert(trim_start(s)[i] == trim_start(s.drop_first())[i]);
            assert(s.drop_first().contains(trim_start(s.drop_first())[i]));
            let j = choose|j: int|
                0 <= j < s.drop_first().len() && s.drop_first()[j] == trim_start(s)[i];
            assert(s[j + 1] == trim_start(s)[i]);
        }
    } else {
        assert forall|i: int| 0 <= i < trim_start(s).len() implies s.contains(
            #[trigger] trim_start(s)[i],
        ) by {
            assert(s[i] == trim_start(s)[i]);
        }
    }
}

/// Every character of a trimmed sequence was in the sequence.
proof fn lemma_trim_end_chars(s: Seq<char>)
    ensures
        forall|i: int| 0 <= i < trim_end(s).len() ==> s.contains(#[trigger] trim_end(s)[i]),
    decreases s.len(),
{
    if s.len() > 0 && is_space(s.last()) {
        lemma_trim_end_chars(s.drop_last());
        assert(trim_end(s) == trim_end(s.drop_last()));
        assert forall|i: int| 0 <= i < trim_end(s).len() implies s.contains(
            #[trigger] trim_end(s)[i],
        ) by {
            assert(trim_end(s)[i] == trim_end(s.drop_last())[i]);
            assert(s.drop_last().contains(trim_end(s.drop_last())[i]));
            let j = choose|j: int|
                0 <= j < s.drop_last().len() && s.drop_last()[j] == trim_end(s)[i];
            assert(s[j] == trim_end(s)[i]);
        }
    } else {
        assert forall|i: int| 0 <= i < trim_end(s).len() implies s.contains(
            #[trigger] trim_end(s)[i],
        ) by {
            assert(s[i] == trim_end(s)[i]);
        }
    }
}

/// A nonempty start-trimmed sequence does not begin with whitespace.
proof fn lemma_trim_start_head(s: Seq<char>)
    ensures
        trim_start(s).len() > 0 ==> !is_space(trim_start(s)[0]),
    decreases s.len(),
{
    if s.len() > 0 && is_space(s[0]) {
        lemma_trim_start_head(s.drop_first());
    }
}

/// A nonempty end-trimmed sequence does not end with whitespace.
proof fn lemma_trim_end_last(s: Seq<char>)
    ensures
        trim_end(s).len() > 0 ==> !is_space(trim_end(s).last()),
    decreases s.len(),
{
    if s.len() > 0 && is_space(s.last()) {
        lemma_trim_end_last(s.drop_last());
    }
}

/// End-trimming keeps a prefix of the sequence.
proof fn lemma_trim_end_is_prefix(s: Seq<char>)
    ensures
        trim_end(s).len() <= s.len(),
        forall|i: int| 0 <= i < trim_end(s).len() ==> #[trigger] trim_end(s)[i] == s[i],
    decreases s.len(),
{
    if s.len() > 0 && is_space(s.last()) {
        lemma_trim_end_is_prefix(s.drop_last());
    }
}

/// Normalizing a family name is idempotent: a normalized name passes
/// through quote stripping and trimming unchanged.
pub proof fn lemma_normalize_idempotent(q: Seq<char>)
    ensures
        normalize_family(normalize_family(q)) == normalize_family(q),
{
    let f = strip_quotes(q);
    let m = trim_start(f);
    let n = trim_end(m);
    // n holds no quote character, so stripping changes nothing
    assert forall|i: int| 0 <= i < n.len() implies (|c: char| c != '\'')(n[i]) by {
        lemma_trim_end_chars(m);
        assert(m.contains(n[i]));
        let j = choose|j: int| 0 <= j < m.len() && m[j] == n[i];
        lemma_trim_start_chars(f);
        assert(f.contains(m[j]));
        let k = choose|k: int| 0 <= k < f.len() && f[k] == m[j];
        q.lemma_filter_pred(|c: char| c != '\'', k);
    }
    lemma_filter_all_true(n, |c: char| c != '\'');
    assert(strip_quotes(n) == n);
    // n does not begin with whitespace, so start-trimming changes nothing
    assert(trim_start(n) == n) by {
        if n.len() > 0 {
            lemma_trim_end_is_prefix(m);
            assert(n[0] == m[0]);
            lemma_trim_start_head(f);
        }
    }
    // n does not end with whitespace, so end-trimming changes nothing
    assert(trim_end(n) == n) by {
        lemma_trim_end_last(m);
    }
}

/// `chars_le` is reflexive.
pub proof fn lemma_chars_le_reflexive(a: Seq<char>)
    ensures
        chars_le(a, a),
    decreases a.len(),
{
    if a.len() > 0 {
        lemma_chars_le_reflexive(a.drop_first());
    }
}

/// `chars_le` is total: any two sequences compare one way or the other.
pub proof fn lemma_chars_le_total(a: Seq<char>, b: Seq<char>)
    ensures
        chars_le(a, b) || chars_le(b, a),
    decreases a.len(),
{
    if a.len() > 0 && b.len() > 0 && a[0] as int == b[0] as int {
        lemma_chars_le_total(a.drop_first(), b.drop_first());
    }
}

/// `chars_le` in both directions means the sequences are equal.
pub proof fn lemma_chars_le_antisymmetric(a: Seq<char>, b: Seq<char>)
    requires
        chars_le(a, b),
        chars_le(b, a),
    ensures
        a == b,
    decreases a.len(),
{
    if a.len() == 0 {
        assert(b.len() == 0);
        assert(a =~= b);
    } else {
        assert(b.len() > 0);
        assert(a[0] as int == b[0] as int);
        assert(a[0] == b[0]) by {
            assert(a[0] as int == b[0] as int);
        }
        lemma_chars_le_antisymmetric(a.drop_first(), b.drop_first());
        assert(a.drop_first() == b.drop_first());
        assert(a.drop_first().len() == b.drop_first().len());
        assert(a.len() == b.len());
        assert forall|i: int| 0 <= i < a.len() implies a[i] == b[i] by {
            if i > 0 {
                assert(a[i] == a.drop_first()[i - 1]);
                assert(b[i] == b.drop_first()[i - 1]);
            }
        }
        assert(a =~= b);
    }
}

/// `chars_le` is transitive.
pub proof fn lemma_chars_le_transitive(a: Seq<char>, b: Seq<char>, c: Seq<char>)
    requires
        chars_le(a, b),
        chars_le(b, c),
    ensures
        chars_le(a, c),
    decreases a.len(),
{
    if a.len() > 0 && b.len() > 0 && c.len() > 0 {
        if a[0] as int == b[0] as int && b[0] as int == c[0] as int {
            lemma_chars_le_transitive(a.drop_first(), b.drop_first(), c.drop_first());
        }
    }
}

/// Skipping a shared first character does not change the comparison.
proof fn lemma_chars_le_skip(a: Seq<char>, b: Seq<char>, i: int)
    requires
        0 <= i < a.len(),
        0 <= i < b.len(),
        a[i] == b[i],
    ensures
        chars_le(a.skip(i), b.skip(i)) == chars_le(a.skip(i + 1), b.skip(i + 1)),
{
    assert(a.skip(i).drop_first() =~= a.skip(i + 1));
    assert(b.skip(i).drop_first() =~= b.skip(i + 1));
    assert(a.skip(i)[0] == a[i]);
    assert(b.skip(i)[0] == b[i]);
}

/// Lexicographic comparison of two string slices by code point.
pub fn str_le(a: &str, b: &str) -> (r: bool)
    ensures
        r == chars_le(a@, b@),
{
    let alen: usize = a.unicode_len();
    let blen: usize = b.unicode_len();
    let mut i: usize = 0;
    proof {
        assert(a@.skip(0) =~= a@);
        assert(b@.skip(0) =~= b@);
    }
    while i < alen && i < blen
        invariant
            alen == a@.len(),
            blen == b@.len(),
            i <= alen,
            i <= blen,
            chars_le(a@, b@) == chars_le(a@.skip(i as int), b@.skip(i as int)),
        decreases alen - i,
    {
        let ca: char = a.get_char(i);
        let cb: char = b.get_char(i);
        let ua: u32 = ca as u32;
        let ub: u32 = cb as u32;
        proof {
            assert(a@.skip(i as int)[0] == a@[i as int]);
            assert(b@.skip(i as int)[0] == b@[i as int]);
        }
        if ua < ub {
            return true;
        }
        if ua > ub {
            return false;
        }
        proof {
            assert(a@[i as int] == b@[i as int]) by {
                assert(a@[i as int] as int == b@[i as int] as int);
            }
            lemma_chars_le_skip(a@, b@, i as int);
        }
        i = i + 1;
    }
    if i == alen {
        proof {
            assert(a@.skip(i as int).len() == 0);
        }
        true
    } else {
        proof {
            assert(b@.skip(i as int).len() == 0);
            assert(a@.skip(i as int).len() > 0);
        }
        false
    }
}

} // verus!
