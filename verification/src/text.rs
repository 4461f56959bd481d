//! Verified text utilities: character-wise string equality, the lexicographic
//! order on character sequences with the laws that make it a total order, a
//! sort over string vectors, and base-name extraction from a file path.

use vstd::multiset::Multiset;
use vstd::prelude::*;

verus! {

/// Lexicographic order on character sequences, by code point. A proper
/// prefix comes before every extension of it.
pub open spec fn lex_le(a: Seq<char>, b: Seq<char>) -> bool
    decreases a.len(),
{
    if a.len() == 0 {
        true
    } else if b.len() == 0 {
        false
    } else if a[0] < b[0] {
        true
    } else if b[0] < a[0] {
        false
    } else {
        lex_le(a.drop_first(), b.drop_first())
    }
}

/// The order relates itself to itself: `lex_le` is reflexive.
pub proof fn lemma_lex_le_reflexive(a: Seq<char>)
    ensures
        lex_le(a, a),
    decreases a.len(),
{
    if a.len() > 0 {
        lemma_lex_le_reflexive(a.drop_first());
    }
}

/// Two sequences each at or before the other are equal: `lex_le` is
/// antisymmetric.
pub proof fn lemma_lex_le_antisymmetric(a: Seq<char>, b: Seq<char>)
    requires
        lex_le(a, b),
        lex_le(b, a),
    ensures
        a == b,
    decreases a.len(),
{
    if a.len() == 0 {
        assert(b.len() == 0);
        assert(a =~= b);
    } else {
        lemma_lex_le_antisymmetric(a.drop_first(), b.drop_first());
        assert(a =~= Seq::empty().push(a[0]) + a.drop_first());
        assert(b =~= Seq::empty().push(b[0]) + b.drop_first());
    }
}

/// The order chains: `lex_le` is transitive.
pub proof fn lemma_lex_le_transitive(a: Seq<char>, b: Seq<char>, c: Seq<char>)
    requires
        lex_le(a, b),
        lex_le(b, c),
    ensures
        lex_le(a, c),
    decreases a.len(),
{
    if a.len() == 0 || b.len() == 0 || c.len() == 0 {
    } else {
        if a[0] == b[0] && b[0] == c[0] {
            lemma_lex_le_transitive(a.drop_first(), b.drop_first(), c.drop_first());
        }
    }
}

/// Any two sequences are comparable: `lex_le` is strongly connected.
pub proof fn lemma_lex_le_connected(a: Seq<char>, b: Seq<char>)
    ensures
        lex_le(a, b) || lex_le(b, a),
    decreases a.len(),
{
    if a.len() > 0 && b.len() > 0 && a[0] == b[0] {
        lemma_lex_le_connected(a.drop_first(), b.drop_first());
    }
}

/// Character-wise string equality, with the views' equality as its meaning.
pub fn str_eq(a: &str, b: &str) -> (r: bool)
    ensures
        r == (a@ == b@),
{
    let alen = a.unicode_len();
    let blen = b.unicode_len();
    if alen != blen {
        return false;
    }
    let mut i: usize = 0;
    while i < alen
        invariant
            alen == a@.len(),
            blen == b@.len(),
            alen == blen,
            i <= alen,
            forall|j: int| 0 <= j < i ==> a@[j] == b@[j],
        decreases alen - i,
    {
        if a.get_char(i) != b.get_char(i) {
            return false;
        }
        i += 1;
    }
    proof {
        assert(a@ =~= b@);
    }
    true
}

/// Character-wise string comparison, with `lex_le` on the views as its
/// meaning.
pub fn str_le(a: &str, b: &str) -> (r: bool)
    ensures
        r == lex_le(a@, b@),
    decreases a@.len(),
{
    let alen = a.unicode_len();
    let blen = b.unicode_len();
    if alen == 0 {
        true
    } else if blen == 0 {
        false
    } else {
        let ca = a.get_char(0);
        let cb = b.get_char(0);
        if ca < cb {
            true
        } else if cb < ca {
            false
        } else {
            let a2 = a.substring_char(1, alen);
            let b2 = b.substring_char(1, blen);
            proof {
                assert(a2@ =~= a@.drop_first());
                assert(b2@ =~= b@.drop_first());
            }
            str_le(a2, b2)
        }
    }
}

/// The views of a vector of strings.
pub open spec fn views_of(v: Seq<String>) -> Seq<Seq<char>> {
    v.map_values(|s: String| s@)
}

/// Whether a vector of strings stands in ascending lexicographic order.
pub open spec fn strings_sorted(v: Seq<String>) -> bool {
    forall|i: int, j: int| 0 <= i < j < v.len() ==> lex_le(v[i]@, v[j]@)
}

/// Sorts strings into ascending lexicographic order, keeping exactly the
/// given strings.
pub fn sort_strings(v: Vec<String>) -> (r: Vec<String>)
    ensures
        strings_sorted(r@),
        views_of(r@).to_multiset() == views_of(v@).to_multiset(),
{
    let mut out: Vec<String> = Vec::new();
    let mut idx: usize = 0;
    proof {
        assert(views_of(out@) =~= views_of(v@.subrange(0, 0)));
    }
    while idx < v.len()
        invariant
            idx <= v@.len(),
            strings_sorted(out@),
            views_of(out@).to_multiset() == views_of(v@.subrange(0, idx as int)).to_multiset(),
        decreases v@.len() - idx,
    {
        let x = v[idx].clone();
        let ghost prev_out = out@;
        let mut j: usize = 0;
        while j < out.len() && str_le(&out[j], &x)
            invariant
                idx < v@.len(),
                j <= out@.len(),
                out@ == prev_out,
                x@ == v@[idx as int]@,
                forall|k: int| 0 <= k < j ==> lex_le(out@[k]@, x@),
            decreases out@.len() - j,
        {
            j += 1;
        }
        proof {
            if j < out@.len() {
                lemma_lex_le_connected(out@[j as int]@, x@);
            }
            assert forall|k: int| j <= k < out@.len() implies lex_le(x@, out@[k]@) by {
                lemma_lex_le_connected(out@[j as int]@, x@);
                if k > j {
                    lemma_lex_le_transitive(x@, out@[j as int]@, out@[k as int]@);
                }
            }
        }
        out.insert(j, x);
        proof {
            lemma_views_insert(prev_out, j as int, v@[idx as int]);
            lemma_to_multiset_insert(views_of(prev_out), j as int, v@[idx as int]@);
            assert(views_of(v@.subrange(0, idx as int + 1)) =~= views_of(
                v@.subrange(0, idx as int),
            ).push(v@[idx as int]@));
            broadcast use vstd::seq_lib::group_to_multiset_ensures;

        }
        idx += 1;
    }
    proof {
        assert(v@.subrange(0, v@.len() as int) =~= v@);
    }
    out
}

/// Taking views commutes with inserting an element.
proof fn lemma_views_insert(s: Seq<String>, j: int, x: String)
    requires
        0 <= j <= s.len(),
    ensures
        views_of(s.insert(j, x)) =~= views_of(s).insert(j, x@),
{
}

/// Inserting an element anywhere adds exactly that element to the multiset.
pub proof fn lemma_to_multiset_insert<A>(s: Seq<A>, j: int, x: A)
    requires
        0 <= j <= s.len(),
    ensures
        s.insert(j, x).to_multiset() == s.to_multiset().insert(x),
{
    broadcast use vstd::seq_lib::group_seq_properties;

    let left = s.subrange(0, j);
    let right = s.subrange(j, s.len() as int);
    assert(s =~= left + right);
    assert(s.insert(j, x) =~= left + (seq![x] + right));
    vstd::seq_lib::lemma_multiset_commutative(left, seq![x] + right);
    vstd::seq_lib::lemma_multiset_commutative(seq![x], right);
    vstd::seq_lib::lemma_multiset_commutative(left, right);
    assert(seq![x].to_multiset() =~= Multiset::empty().insert(x)) by {
        assert(seq![x] =~= Seq::empty().push(x));
        assert(Seq::<A>::empty().push(x).to_multiset() =~= Seq::<
            A,
        >::empty().to_multiset().insert(x)) by {
            broadcast use vstd::seq_lib::group_to_multiset_ensures;

        }
    }
    assert(s.insert(j, x).to_multiset() =~= s.to_multiset().insert(x));
}

/// What follows the last separator of a path. Empty when the path is empty
/// or ends with a separator.
pub open spec fn suffix_after_slash(s: Seq<char>) -> Seq<char>
    decreases s.len(),
{
    if s.len() == 0 {
        Seq::empty()
    } else if s.last() == '/' {
        Seq::empty()
    } else {
        suffix_after_slash(s.drop_last()).push(s.last())
    }
}

/// A suffix holding no separator, and starting right after one (or at the
/// start), is what follows the last separator.
proof fn lemma_suffix_after_slash(s: Seq<char>, j: int)
    requires
        0 <= j <= s.len(),
        forall|k: int| j <= k < s.len() ==> s[k] != '/',
        j == 0 || s[j - 1] == '/',
    ensures
        suffix_after_slash(s) =~= s.subrange(j, s.len() as int),
    decreases s.len() - j,
{
    if j == s.len() {
        if s.len() == 0 {
        } else {
            assert(s.last() == '/');
        }
    } else {
        assert(s.last() != '/');
        lemma_suffix_after_slash(s.drop_last(), j);
        assert(s.subrange(j, s.len() as int) =~= s.drop_last().subrange(
            j,
            s.len() as int - 1,
        ).push(s.last()));
    }
}

/// The base name of a path: its final component, read as the platform reads
/// one. Trailing separators are ignored, a final `.` component stands for
/// the directory itself and is skipped, and there is no name (the empty
/// sequence) when the path is empty, all separators, or ends in `..`.
pub open spec fn base_name_of(s: Seq<char>) -> Seq<char>
    decreases s.len(),
{
    if s.len() == 0 {
        Seq::empty()
    } else if s.last() == '/' {
        base_name_of(s.drop_last())
    } else if suffix_after_slash(s) == "."@ {
        base_name_of(s.drop_last())
    } else if suffix_after_slash(s) == ".."@ {
        Seq::empty()
    } else {
        suffix_after_slash(s)
    }
}

/// Extracts the base name of a path, or `None` when the path has none.
pub fn base_name(path: &str) -> (r: Option<String>)
    ensures
        match r {
            Some(name) => name@ == base_name_of(path@) && base_name_of(path@).len() > 0,
            None => base_name_of(path@).len() == 0,
        },
{
    let len = path.unicode_len();
    let mut end: usize = len;
    proof {
        assert(path@.subrange(0, len as int) =~= path@);
    }
    loop
        invariant
            end <= len,
            len == path@.len(),
            base_name_of(path@) == base_name_of(path@.subrange(0, end as int)),
        decreases end,
    {
        let ghost t = path@.subrange(0, end as int);
        if end == 0 {
            proof {
                assert(t =~= Seq::<char>::empty());
            }
            return None;
        }
        if path.get_char(end - 1) == '/' {
            proof {
                assert(t.drop_last() =~= path@.subrange(0, end - 1));
            }
            end -= 1;
        } else {
            let mut j: usize = end;
            while j > 0 && path.get_char(j - 1) != '/'
                invariant
                    j <= end <= len,
                    len == path@.len(),
                    end > 0 && path@[end - 1] != '/',
                    forall|k: int| j <= k < end ==> path@[k] != '/',
                decreases j,
            {
                j -= 1;
            }
            let name = path.substring_char(j, end);
            proof {
                assert(j < end);
                assert forall|k: int| j <= k < t.len() implies t[k] != '/' by {
                    assert(t[k] == path@[k]);
                }
                lemma_suffix_after_slash(t, j as int);
                assert(name@ =~= t.subrange(j as int, end as int));
                assert(name@ =~= suffix_after_slash(t));
                assert(t.last() != '/');
            }
            if str_eq(name, ".") {
                proof {
                    assert(suffix_after_slash(t) == "."@);
                    assert(base_name_of(t) == base_name_of(t.drop_last()));
                    assert(t.drop_last() =~= path@.subrange(0, end - 1));
                }
                end -= 1;
            } else if str_eq(name, "..") {
                proof {
                    assert(suffix_after_slash(t) == ".."@);
                    assert(base_name_of(t) =~= Seq::<char>::empty());
                }
                return None;
            } else {
                proof {
                    assert(base_name_of(t) == name@);
                    assert(name@.len() > 0);
                }
                return Some(String::from_str(name));
            }
        }
    }
}

} // verus!
