//! Lexicographic ordering of paths, and a verified sort.
//!
//! Discovery must hand its results back in a deterministic order whatever
//! order the traversal produced them in, so the discoverer sorts the
//! collected paths by the character-wise lexicographic order defined here.

use vstd::prelude::*;
use vstd::multiset::Multiset;
use vstd::string::StrSliceExecFns;

verus! {

/// Character-wise lexicographic order on character sequences:
/// `a` comes no later than `b`.
pub open spec fn lex_le(a: Seq<char>, b: Seq<char>) -> bool
    decreases a.len(),
{
    if a.len() == 0 {
        true
    } else if b.len() == 0 {
        false
    } else if a[0] == b[0] {
        lex_le(a.drop_first(), b.drop_first())
    } else {
        (a[0] as u32) < (b[0] as u32)
    }
}

/// The sequence of paths is sorted by `lex_le`.
pub open spec fn sorted_paths(s: Seq<Seq<char>>) -> bool {
    forall|i: int, j: int| 0 <= i <= j < s.len() ==> lex_le(#[trigger] s[i], #[trigger] s[j])
}

/// `lex_le` is total: any two sequences are comparable.
pub proof fn lemma_lex_le_total(a: Seq<char>, b: Seq<char>)
    ensures
        lex_le(a, b) || lex_le(b, a),
    decreases a.len(),
{
    if a.len() == 0 || b.len() == 0 {
    } else if a[0] == b[0] {
        lemma_lex_le_total(a.drop_first(), b.drop_first());
    } else {
        vstd::utf8::char_u32_cast(a[0], a[0] as u32);
        vstd::utf8::char_u32_cast(b[0], b[0] as u32);
    }
}

/// `lex_le` is transitive.
pub proof fn lemma_lex_le_trans(a: Seq<char>, b: Seq<char>, c: Seq<char>)
    requires
        lex_le(a, b),
        lex_le(b, c),
    ensures
        lex_le(a, c),
    decreases a.len(),
{
    if a.len() == 0 || b.len() == 0 || c.len() == 0 {
    } else if a[0] == b[0] && b[0] == c[0] {
        lemma_lex_le_trans(a.drop_first(), b.drop_first(), c.drop_first());
    }
}

/// Decides `lex_le` on two strings, character by character.
pub fn lex_le_str(a: &str, b: &str) -> (r: bool)
    ensures
        r == lex_le(a@, b@),
{
    let a_len = a.unicode_len();
    let b_len = b.unicode_len();
    let mut i: usize = 0;
    proof {
        assert(a@.skip(0) =~= a@);
        assert(b@.skip(0) =~= b@);
    }
    loop
        invariant
            i <= a_len,
            i <= b_len,
            a_len == a@.len(),
            b_len == b@.len(),
            lex_le(a@, b@) == lex_le(a@.skip(i as int), b@.skip(i as int)),
        decreases a_len - i,
    {
        if i == a_len {
            return true;
        }
        if i == b_len {
            return false;
        }
        let ca = a.get_char(i);
        let cb = b.get_char(i);
        if ca != cb {
            return (ca as u32) < (cb as u32);
        }
        proof {
            assert(a@.skip(i as int).drop_first() =~= a@.skip(i + 1));
            assert(b@.skip(i as int).drop_first() =~= b@.skip(i + 1));
        }
        i = i + 1;
    }
}

/// The views of a sequence of strings.
pub open spec fn views(v: Seq<String>) -> Seq<Seq<char>> {
    v.map_values(|s: String| s@)
}

/// Inserting an element anywhere in a sequence adds exactly that element
/// to its multiset.
proof fn lemma_insert_multiset<A>(s: Seq<A>, pos: int, x: A)
    requires
        0 <= pos <= s.len(),
    ensures
        s.insert(pos, x).to_multiset() == s.to_multiset().insert(x),
{
    broadcast use vstd::seq_lib::group_to_multiset_ensures;

    let left = s.subrange(0, pos);
    let right = s.subrange(pos, s.len() as int);
    vstd::seq_lib::lemma_multiset_commutative(left.push(x), right);
    vstd::seq_lib::lemma_multiset_commutative(left, right);
    assert(left + right =~= s);
    assert(left.push(x).to_multiset() =~= left.to_multiset().insert(x));
    assert(s.insert(pos, x).to_multiset() =~= s.to_multiset().insert(x));
}

/// Inserts `x` into the sorted vector `v`, keeping it sorted.
fn insert_sorted(v: &mut Vec<String>, x: String)
    requires
        sorted_paths(views(old(v)@)),
    ensures
        sorted_paths(views(final(v)@)),
        views(final(v)@).to_multiset() == views(old(v)@).to_multiset().insert(x@),
{
    let mut pos: usize = 0;
    while pos < v.len()
        invariant_except_break
            pos <= v.len(),
            forall|k: int| 0 <= k < pos ==> lex_le(#[trigger] views(v@)[k], x@),
        ensures
            pos <= v.len(),
            forall|k: int| 0 <= k < pos ==> lex_le(#[trigger] views(v@)[k], x@),
            pos < v.len() ==> !lex_le(views(v@)[pos as int], x@),
        decreases v.len() - pos,
    {
        if !lex_le_str(v[pos].as_str(), x.as_str()) {
            break;
        }
        pos += 1;
    }
    proof {
        if pos < v.len() {
            lemma_lex_le_total(views(v@)[pos as int], x@);
        }
        let old_views = views(v@);
        let inserted = views(v@.insert(pos as int, x));
        assert(v@.insert(pos as int, x) =~= v@.subrange(0, pos as int).push(x) + v@.subrange(
            pos as int,
            v@.len() as int,
        ));
        assert(inserted =~= old_views.insert(pos as int, x@));
        old_views.insert_ensures(pos as int, x@);
        lemma_insert_multiset(old_views, pos as int, x@);
        assert forall|i: int, j: int| 0 <= i <= j < inserted.len() implies lex_le(
            #[trigger] inserted[i],
            #[trigger] inserted[j],
        ) by {
            let p = pos as int;
            if i == j {
                lemma_lex_le_total(inserted[i], inserted[i]);
            } else if j < p {
                // two old elements below pos
            } else if j == p {
                // inserted[j] is x; inserted[i] is an old element below pos
            } else if i == p {
                // inserted[i] is x; inserted[j] is an old element at or past pos
                let oj = old_views[j - 1];
                lemma_lex_le_trans(x@, old_views[p], oj);
            } else if i < p {
                // old element below pos vs old element at or past pos
                let oj = old_views[j - 1];
                lemma_lex_le_trans(x@, old_views[p], oj);
                lemma_lex_le_trans(old_views[i], x@, oj);
            } else {
                // two old elements at or past pos
            }
        }
    }
    v.insert(pos, x);
}

/// Sorts the given paths into lexicographic order; the result holds exactly
/// the same paths, each as often as it was given.
pub fn sort_paths(v: Vec<String>) -> (r: Vec<String>)
    ensures
        sorted_paths(views(r@)),
        views(r@).to_multiset() == views(v@).to_multiset(),
{
    broadcast use vstd::seq_lib::group_to_multiset_ensures;

    let mut rest = v;
    let mut out: Vec<String> = Vec::new();
    while rest.len() > 0
        invariant
            sorted_paths(views(out@)),
            views(out@).to_multiset().add(views(rest@).to_multiset()) == views(v@).to_multiset(),
        decreases rest.len(),
    {
        let ghost prev_rest = views(rest@);
        let x = rest.remove(0);
        proof {
            assert(views(rest@) =~= prev_rest.drop_first());
            assert(prev_rest =~= views(rest@).insert(0, x@));
            lemma_insert_multiset(views(rest@), 0, x@);
        }
        insert_sorted(&mut out, x);
        proof {
            let m_out = views(out@).to_multiset();
            let m_rest = views(rest@).to_multiset();
            assert(m_out.add(m_rest) =~= views(v@).to_multiset());
        }
    }
    proof {
        assert(views(rest@) =~= Seq::<Seq<char>>::empty());
        assert(views(rest@).to_multiset() =~= Multiset::<Seq<char>>::empty());
        assert(views(out@).to_multiset() =~= views(v@).to_multiset());
    }
    out
}

} // verus!
