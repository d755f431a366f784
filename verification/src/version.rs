//! The version-string comparator used to rank discovered toolchains and SDKs.
//!
//! A version string is split on `'.'` into components. Components are
//! compared positionally, left to right: the component with more characters
//! sorts first, and between components of equal length the lexicographically
//! greater one sorts first. The first unequal pair decides; when one version
//! runs out of components the unmatched tail is ignored and the versions tie.
//! This deliberately diverges from numeric version comparison (for example
//! `"10"` sorts before `"9"` because it is longer) and is preserved exactly,
//! since downstream consumers depend on the selection it produces.

use vstd::prelude::*;

verus! {

/// Outcome of comparing two version strings (or two components):
/// `Less` means the left argument sorts before the right one in the
/// ranked (latest-first) order.
#[derive(Clone, Copy, Debug, PartialEq, Eq, Structural)]
pub enum VersionOrder {
    Less,
    Equal,
    Greater,
}

/// The opposite outcome: what comparing the same pair in the other
/// direction yields.
pub open spec fn flip_order(o: VersionOrder) -> VersionOrder {
    match o {
        VersionOrder::Less => VersionOrder::Greater,
        VersionOrder::Equal => VersionOrder::Equal,
        VersionOrder::Greater => VersionOrder::Less,
    }
}

/// Plain lexicographic comparison of two character sequences by code point,
/// a shorter prefix comparing less.
pub open spec fn lex_cmp(a: Seq<char>, b: Seq<char>) -> VersionOrder
    decreases a.len(),
{
    if a.len() == 0 && b.len() == 0 {
        VersionOrder::Equal
    } else if a.len() == 0 {
        VersionOrder::Less
    } else if b.len() == 0 {
        VersionOrder::Greater
    } else if (a[0] as u32) < (b[0] as u32) {
        VersionOrder::Less
    } else if (a[0] as u32) > (b[0] as u32) {
        VersionOrder::Greater
    } else {
        lex_cmp(a.skip(1), b.skip(1))
    }
}

/// One component pair: the longer component sorts first; at equal length the
/// lexicographically greater component sorts first.
pub open spec fn component_cmp(a: Seq<char>, b: Seq<char>) -> VersionOrder {
    if a.len() > b.len() {
        VersionOrder::Less
    } else if a.len() < b.len() {
        VersionOrder::Greater
    } else {
        lex_cmp(b, a)
    }
}

/// Positional comparison of two component lists; the unmatched tail of the
/// longer list is ignored.
pub open spec fn components_cmp(a: Seq<Seq<char>>, b: Seq<Seq<char>>) -> VersionOrder
    decreases a.len(),
{
    if a.len() == 0 || b.len() == 0 {
        VersionOrder::Equal
    } else if component_cmp(a[0], b[0]) != VersionOrder::Equal {
        component_cmp(a[0], b[0])
    } else {
        components_cmp(a.skip(1), b.skip(1))
    }
}

/// Splitting a character sequence on `'.'`. The empty sequence yields one
/// empty component, and every dot separates two components, so the result
/// always has one component more than the string has dots.
pub open spec fn split_dot(s: Seq<char>) -> Seq<Seq<char>>
    decreases s.len(),
{
    if s.len() == 0 {
        seq![Seq::<char>::empty()]
    } else if s[0] == '.' {
        seq![Seq::<char>::empty()] + split_dot(s.skip(1))
    } else {
        let r = split_dot(s.skip(1));
        r.update(0, seq![s[0]] + r[0])
    }
}

/// The ranking order over whole version strings.
pub open spec fn version_cmp(a: Seq<char>, b: Seq<char>) -> VersionOrder {
    components_cmp(split_dot(a), split_dot(b))
}

pub proof fn lemma_split_dot_len(s: Seq<char>)
    ensures
        split_dot(s).len() >= 1,
    decreases s.len(),
{
    if s.len() == 0 {
    } else if s[0] == '.' {
    } else {
        lemma_split_dot_len(s.skip(1));
    }
}

/// Unfolds `split_dot` one position into the string.
proof fn lemma_split_dot_step(s: Seq<char>, i: int)
    requires
        0 <= i < s.len(),
    ensures
        s[i] == '.' ==> split_dot(s.skip(i)) == seq![Seq::<char>::empty()] + split_dot(
            s.skip(i + 1),
        ),
        s[i] != '.' ==> split_dot(s.skip(i)) == split_dot(s.skip(i + 1)).update(
            0,
            seq![s[i]] + split_dot(s.skip(i + 1))[0],
        ),
{
    assert(s.skip(i).len() > 0);
    assert(s.skip(i)[0] == s[i]);
    assert(s.skip(i).skip(1) =~= s.skip(i + 1));
}

/// Splits a version string on `'.'`, as `split_dot` describes.
pub fn split_components(s: &str) -> (r: Vec<String>)
    ensures
        r.deep_view() == split_dot(s@),
{
    let n = s.unicode_len();
    let mut parts: Vec<String> = Vec::new();
    let mut start: usize = 0;
    let mut i: usize = 0;
    proof {
        lemma_split_dot_len(s@);
        assert(s@.skip(0) =~= s@);
        assert(s@.subrange(0, 0) + split_dot(s@)[0] =~= split_dot(s@)[0]);
        assert(split_dot(s@).update(0, split_dot(s@)[0]) =~= split_dot(s@));
        assert(parts.deep_view() =~~= Seq::<Seq<char>>::empty());
        assert(parts.deep_view() + split_dot(s@) =~~= split_dot(s@));
    }
    while i < n
        invariant
            n == s@.len(),
            start <= i <= n,
            split_dot(s@) == parts.deep_view() + split_dot(s@.skip(i as int)).update(
                0,
                s@.subrange(start as int, i as int) + split_dot(s@.skip(i as int))[0],
            ),
        decreases n - i,
    {
        let c = s.get_char(i);
        proof {
            lemma_split_dot_step(s@, i as int);
            lemma_split_dot_len(s@.skip(i as int + 1));
        }
        if c == '.' {
            let comp = s.substring_char(start, i);
            let ghost old_dv = parts.deep_view();
            parts.push(String::from_str(comp));
            proof {
                assert(parts.deep_view() =~~= old_dv.push(comp@));
                let rest = split_dot(s@.skip(i as int + 1));
                assert((seq![Seq::<char>::empty()] + rest).update(
                    0,
                    s@.subrange(start as int, i as int) + (seq![Seq::<char>::empty()] + rest)[0],
                ) =~~= seq![s@.subrange(start as int, i as int)] + rest);
                assert(split_dot(s@) =~~= parts.deep_view() + rest.update(
                    0,
                    s@.subrange(i as int + 1, i as int + 1) + rest[0],
                ));
            }
            start = i + 1;
        } else {
            proof {
                let rest = split_dot(s@.skip(i as int + 1));
                let stepped = rest.update(0, seq![s@[i as int]] + rest[0]);
                assert(stepped.update(
                    0,
                    s@.subrange(start as int, i as int) + stepped[0],
                ) =~~= rest.update(0, s@.subrange(start as int, i as int + 1) + rest[0]));
            }
        }
        i += 1;
    }
    let lastc = s.substring_char(start, n);
    let ghost old_dv = parts.deep_view();
    parts.push(String::from_str(lastc));
    proof {
        assert(parts.deep_view() =~~= old_dv.push(lastc@));
        assert(s@.skip(n as int) =~= Seq::<char>::empty());
        let rest = split_dot(s@.skip(n as int));
        assert(rest =~~= seq![Seq::<char>::empty()]);
        assert(rest.update(
            0,
            s@.subrange(start as int, n as int) + rest[0],
        ) =~~= seq![s@.subrange(start as int, n as int)]);
        assert(parts.deep_view() =~~= split_dot(s@));
    }
    parts
}

proof fn lemma_lex_refl(a: Seq<char>)
    ensures
        lex_cmp(a, a) == VersionOrder::Equal,
    decreases a.len(),
{
    if a.len() > 0 {
        lemma_lex_refl(a.skip(1));
    }
}

proof fn lemma_lex_equal_implies_eq(a: Seq<char>, b: Seq<char>)
    requires
        lex_cmp(a, b) == VersionOrder::Equal,
    ensures
        a == b,
    decreases a.len(),
{
    if a.len() == 0 && b.len() == 0 {
        assert(a =~= b);
    } else if a.len() > 0 && b.len() > 0 && (a[0] as u32) == (b[0] as u32) {
        lemma_lex_equal_implies_eq(a.skip(1), b.skip(1));
        vstd::utf8::char_u32_cast(a[0], a[0] as u32);
        vstd::utf8::char_u32_cast(b[0], b[0] as u32);
        assert(a[0] == b[0]);
        assert(a =~= seq![a[0]] + a.skip(1));
        assert(b =~= seq![b[0]] + b.skip(1));
    }
}

proof fn lemma_lex_flip(a: Seq<char>, b: Seq<char>)
    ensures
        lex_cmp(a, b) == flip_order(lex_cmp(b, a)),
    decreases a.len(),
{
    if a.len() > 0 && b.len() > 0 && (a[0] as u32) == (b[0] as u32) {
        lemma_lex_flip(a.skip(1), b.skip(1));
    }
}

proof fn lemma_lex_trans(a: Seq<char>, b: Seq<char>, c: Seq<char>)
    requires
        lex_cmp(a, b) == VersionOrder::Less,
        lex_cmp(b, c) == VersionOrder::Less,
    ensures
        lex_cmp(a, c) == VersionOrder::Less,
    decreases a.len(),
{
    if a.len() == 0 {
    } else if b.len() > 0 && c.len() > 0 && (a[0] as u32) == (b[0] as u32) && (b[0] as u32) == (
    c[0] as u32) {
        lemma_lex_trans(a.skip(1), b.skip(1), c.skip(1));
    }
}

proof fn lemma_component_equal_implies_eq(a: Seq<char>, b: Seq<char>)
    requires
        component_cmp(a, b) == VersionOrder::Equal,
    ensures
        a == b,
{
    lemma_lex_equal_implies_eq(b, a);
}

proof fn lemma_component_refl(a: Seq<char>)
    ensures
        component_cmp(a, a) == VersionOrder::Equal,
{
    lemma_lex_refl(a);
}

proof fn lemma_component_flip(a: Seq<char>, b: Seq<char>)
    ensures
        component_cmp(a, b) == flip_order(component_cmp(b, a)),
{
    if a.len() == b.len() {
        lemma_lex_flip(b, a);
    }
}

proof fn lemma_component_trans(a: Seq<char>, b: Seq<char>, c: Seq<char>)
    requires
        component_cmp(a, b) == VersionOrder::Less,
        component_cmp(b, c) == VersionOrder::Less,
    ensures
        component_cmp(a, c) == VersionOrder::Less,
{
    if a.len() == b.len() && b.len() == c.len() {
        lemma_lex_trans(c, b, a);
    }
}

proof fn lemma_components_refl(a: Seq<Seq<char>>)
    ensures
        components_cmp(a, a) == VersionOrder::Equal,
    decreases a.len(),
{
    if a.len() > 0 {
        lemma_component_refl(a[0]);
        lemma_components_refl(a.skip(1));
    }
}

proof fn lemma_components_flip(a: Seq<Seq<char>>, b: Seq<Seq<char>>)
    ensures
        components_cmp(a, b) == flip_order(components_cmp(b, a)),
    decreases a.len(),
{
    if a.len() == 0 || b.len() == 0 {
    } else {
        lemma_component_flip(a[0], b[0]);
        lemma_component_flip(b[0], a[0]);
        if component_cmp(a[0], b[0]) == VersionOrder::Equal {
            lemma_components_flip(a.skip(1), b.skip(1));
        }
    }
}

proof fn lemma_components_trans(a: Seq<Seq<char>>, b: Seq<Seq<char>>, c: Seq<Seq<char>>)
    requires
        components_cmp(a, b) == VersionOrder::Less,
        components_cmp(b, c) == VersionOrder::Less,
    ensures
        components_cmp(a, c) == VersionOrder::Less,
    decreases a.len(),
{
    let c1 = component_cmp(a[0], b[0]);
    let c2 = component_cmp(b[0], c[0]);
    if c1 == VersionOrder::Less {
        if c2 == VersionOrder::Less {
            lemma_component_trans(a[0], b[0], c[0]);
        } else if c2 == VersionOrder::Equal {
            lemma_component_equal_implies_eq(b[0], c[0]);
        }
    } else if c1 == VersionOrder::Equal {
        lemma_component_equal_implies_eq(a[0], b[0]);
        if c2 == VersionOrder::Equal {
            lemma_component_equal_implies_eq(b[0], c[0]);
            lemma_component_refl(a[0]);
            lemma_components_trans(a.skip(1), b.skip(1), c.skip(1));
        }
    }
}

proof fn lemma_components_equal_trans(a: Seq<Seq<char>>, b: Seq<Seq<char>>, c: Seq<Seq<char>>)
    requires
        a.len() == b.len(),
        b.len() == c.len(),
        components_cmp(a, b) == VersionOrder::Equal,
        components_cmp(b, c) == VersionOrder::Equal,
    ensures
        components_cmp(a, c) == VersionOrder::Equal,
    decreases a.len(),
{
    if a.len() == 0 {
    } else {
        lemma_component_equal_implies_eq(a[0], b[0]);
        lemma_component_equal_implies_eq(b[0], c[0]);
        lemma_component_refl(a[0]);
        lemma_components_equal_trans(a.skip(1), b.skip(1), c.skip(1));
    }
}

/// The ranking comparator never ranks a version string strictly before or
/// after itself: comparing any version with itself yields `Equal`.
pub proof fn lemma_version_order_irreflexive(a: Seq<char>)
    ensures
        version_cmp(a, a) == VersionOrder::Equal,
{
    lemma_components_refl(split_dot(a));
}

/// The ranking comparator is asymmetric and consistent: `a` ranks before `b`
/// exactly when `b` ranks after `a`.
pub proof fn lemma_version_order_asymmetric(a: Seq<char>, b: Seq<char>)
    ensures
        version_cmp(a, b) == flip_order(version_cmp(b, a)),
{
    lemma_components_flip(split_dot(a), split_dot(b));
}

/// The strict part of the ranking comparator is transitive.
pub proof fn lemma_version_order_transitive(a: Seq<char>, b: Seq<char>, c: Seq<char>)
    requires
        version_cmp(a, b) == VersionOrder::Less,
        version_cmp(b, c) == VersionOrder::Less,
    ensures
        version_cmp(a, c) == VersionOrder::Less,
{
    lemma_components_trans(split_dot(a), split_dot(b), split_dot(c));
}

/// Ties under the ranking comparator are transitive among version strings
/// with the same number of components; together with irreflexivity,
/// asymmetry and transitivity of the strict part this makes the comparator a
/// strict weak ordering over such version strings. (Across different
/// component counts ties are not transitive, since the comparator ignores
/// the unmatched tail: `"1.2"` ties with `"1"`, and `"1"` ties with `"1.3"`,
/// yet `"1.2"` and `"1.3"` do not tie.)
pub proof fn lemma_version_order_tie_transitive(a: Seq<char>, b: Seq<char>, c: Seq<char>)
    requires
        split_dot(a).len() == split_dot(b).len(),
        split_dot(b).len() == split_dot(c).len(),
        version_cmp(a, b) == VersionOrder::Equal,
        version_cmp(b, c) == VersionOrder::Equal,
    ensures
        version_cmp(a, c) == VersionOrder::Equal,
{
    lemma_components_equal_trans(split_dot(a), split_dot(b), split_dot(c));
}

proof fn lemma_components_less_equal(a: Seq<Seq<char>>, b: Seq<Seq<char>>, c: Seq<Seq<char>>)
    requires
        components_cmp(a, b) == VersionOrder::Less,
        components_cmp(b, c) == VersionOrder::Equal,
    ensures
        components_cmp(a, c) != VersionOrder::Greater,
    decreases a.len(),
{
    if c.len() == 0 {
    } else {
        lemma_component_equal_implies_eq(b[0], c[0]);
        if component_cmp(a[0], b[0]) == VersionOrder::Equal {
            lemma_component_equal_implies_eq(a[0], b[0]);
            lemma_component_refl(a[0]);
            lemma_components_less_equal(a.skip(1), b.skip(1), c.skip(1));
        }
    }
}

proof fn lemma_components_equal_less(a: Seq<Seq<char>>, b: Seq<Seq<char>>, c: Seq<Seq<char>>)
    requires
        components_cmp(a, b) == VersionOrder::Equal,
        components_cmp(b, c) == VersionOrder::Less,
    ensures
        components_cmp(a, c) != VersionOrder::Greater,
    decreases a.len(),
{
    if a.len() == 0 {
    } else {
        lemma_component_equal_implies_eq(a[0], b[0]);
        if component_cmp(b[0], c[0]) == VersionOrder::Equal {
            lemma_component_equal_implies_eq(b[0], c[0]);
            lemma_component_refl(a[0]);
            lemma_components_equal_less(a.skip(1), b.skip(1), c.skip(1));
        }
    }
}

/// A version that ranks before a second one also ranks no later than
/// anything the second one ties with.
pub proof fn lemma_version_order_less_then_tie(a: Seq<char>, b: Seq<char>, c: Seq<char>)
    requires
        version_cmp(a, b) == VersionOrder::Less,
        version_cmp(b, c) == VersionOrder::Equal,
    ensures
        version_cmp(a, c) != VersionOrder::Greater,
{
    lemma_components_less_equal(split_dot(a), split_dot(b), split_dot(c));
}

/// A version that ties with a second one ranks no later than anything the
/// second one ranks before.
pub proof fn lemma_version_order_tie_then_less(a: Seq<char>, b: Seq<char>, c: Seq<char>)
    requires
        version_cmp(a, b) == VersionOrder::Equal,
        version_cmp(b, c) == VersionOrder::Less,
    ensures
        version_cmp(a, c) != VersionOrder::Greater,
{
    lemma_components_equal_less(split_dot(a), split_dot(b), split_dot(c));
}

/// Character-wise equality of two string slices.
pub fn str_eq(a: &str, b: &str) -> (r: bool)
    ensures
        r == (a@ == b@),
{
    let alen = a.unicode_len();
    let blen = b.unicode_len();
    if alen != blen {
        return false;
    }
    let mut i: usize = 0;
    while i < alen
        invariant
            alen == a@.len(),
            alen == b@.len(),
            i <= alen,
            forall|k: int| 0 <= k < i ==> a@[k] == b@[k],
        decreases alen - i,
    {
        if a.get_char(i) != b.get_char(i) {
            return false;
        }
        i += 1;
    }
    proof {
        assert(a@ =~= b@);
    }
    true
}

/// Compares one component pair, as `component_cmp` describes.
fn component_cmp_exec(a: &str, b: &str) -> (r: VersionOrder)
    ensures
        r == component_cmp(a@, b@),
{
    let alen = a.unicode_len();
    let blen = b.unicode_len();
    if alen > blen {
        return VersionOrder::Less;
    }
    if alen < blen {
        return VersionOrder::Greater;
    }
    let mut i: usize = 0;
    proof {
        assert(a@.skip(0) =~= a@);
        assert(b@.skip(0) =~= b@);
    }
    while i < alen
        invariant
            alen == a@.len(),
            alen == b@.len(),
            i <= alen,
            lex_cmp(b@, a@) == lex_cmp(b@.skip(i as int), a@.skip(i as int)),
        decreases alen - i,
    {
        let ca = a.get_char(i);
        let cb = b.get_char(i);
        proof {
            assert(b@.skip(i as int)[0] == b@[i as int]);
            assert(a@.skip(i as int)[0] == a@[i as int]);
            assert(b@.skip(i as int).skip(1) =~= b@.skip(i as int + 1));
            assert(a@.skip(i as int).skip(1) =~= a@.skip(i as int + 1));
        }
        if (cb as u32) < (ca as u32) {
            return VersionOrder::Less;
        }
        if (cb as u32) > (ca as u32) {
            return VersionOrder::Greater;
        }
        i += 1;
    }
    proof {
        assert(b@.skip(alen as int) =~= Seq::<char>::empty());
        assert(a@.skip(alen as int) =~= Seq::<char>::empty());
    }
    VersionOrder::Equal
}

/// Compares two version strings under the ranking order, as `version_cmp`
/// describes: `Less` means `a` ranks before (is selected over) `b`.
pub fn compare_versions(a: &str, b: &str) -> (r: VersionOrder)
    ensures
        r == version_cmp(a@, b@),
{
    let av = split_components(a);
    let bv = split_components(b);
    let alen = av.len();
    let blen = bv.len();
    let n = if alen < blen {
        alen
    } else {
        blen
    };
    let mut i: usize = 0;
    proof {
        assert(av.deep_view().skip(0) =~~= av.deep_view());
        assert(bv.deep_view().skip(0) =~~= bv.deep_view());
    }
    while i < n
        invariant
            n <= av@.len(),
            n <= bv@.len(),
            i <= n,
            av.deep_view() == split_dot(a@),
            bv.deep_view() == split_dot(b@),
            version_cmp(a@, b@) == components_cmp(
                av.deep_view().skip(i as int),
                bv.deep_view().skip(i as int),
            ),
        decreases n - i,
    {
        proof {
            assert(av.deep_view().skip(i as int)[0] == av.deep_view()[i as int]);
            assert(bv.deep_view().skip(i as int)[0] == bv.deep_view()[i as int]);
            assert(av.deep_view().skip(i as int).skip(1) =~~= av.deep_view().skip(i as int + 1));
            assert(bv.deep_view().skip(i as int).skip(1) =~~= bv.deep_view().skip(i as int + 1));
        }
        let c = component_cmp_exec(av[i].as_str(), bv[i].as_str());
        match c {
            VersionOrder::Equal => {
                i += 1;
            },
            _ => {
                return c;
            },
        }
    }
    proof {
        if alen <= blen {
            assert(av.deep_view().skip(n as int) =~~= Seq::<Seq<char>>::empty());
        } else {
            assert(bv.deep_view().skip(n as int) =~~= Seq::<Seq<char>>::empty());
        }
    }
    VersionOrder::Equal
}

} // verus!
