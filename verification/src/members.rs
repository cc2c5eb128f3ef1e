//! Workspace member handling: recognising wildcard entries, joining
//! directory paths, splitting a member path into its category and
//! name, and the stable sorted order the benchmark schedule follows.
//! Reading directories is the caller's business; these functions make
//! the decisions on plain byte paths.

use vstd::prelude::*;
use crate::metrics::copy_range;
use crate::report::clone_bytes;
use vstd::multiset::Multiset;

verus! {

broadcast use vstd::seq_lib::group_to_multiset_ensures;

/// Lexicographic byte order, total and transitive.
pub open spec fn lex_le(a: Seq<u8>, b: Seq<u8>) -> bool
    decreases a.len(),
{
    if a.len() == 0 {
        true
    } else if b.len() == 0 {
        false
    } else if a[0] < b[0] {
        true
    } else if a[0] > b[0] {
        false
    } else {
        lex_le(a.skip(1), b.skip(1))
    }
}

/// Any two byte strings are ordered one way or the other.
pub proof fn lemma_lex_le_total(a: Seq<u8>, b: Seq<u8>)
    ensures
        lex_le(a, b) || lex_le(b, a),
    decreases a.len(),
{
    if a.len() > 0 && b.len() > 0 && a[0] == b[0] {
        lemma_lex_le_total(a.skip(1), b.skip(1));
    }
}

/// The order is transitive.
pub proof fn lemma_lex_le_trans(a: Seq<u8>, b: Seq<u8>, c: Seq<u8>)
    requires
        lex_le(a, b),
        lex_le(b, c),
    ensures
        lex_le(a, c),
    decreases a.len(),
{
    if a.len() > 0 && b.len() > 0 && c.len() > 0 && a[0] == b[0] && b[0] == c[0] {
        lemma_lex_le_trans(a.skip(1), b.skip(1), c.skip(1));
    }
}

/// Compare two byte strings in lexicographic order.
pub fn lex_le_exec(a: &Vec<u8>, b: &Vec<u8>) -> (r: bool)
    ensures
        r == lex_le(a@, b@),
{
    proof {
        assert(a@.skip(0) =~= a@);
        assert(b@.skip(0) =~= b@);
    }
    let mut i: usize = 0;
    while i < a.len() && i < b.len()
        invariant
            i <= a@.len(),
            i <= b@.len(),
            lex_le(a@, b@) == lex_le(a@.skip(i as int), b@.skip(i as int)),
        decreases a.len() - i,
    {
        proof {
            assert(a@.skip(i as int)[0] == a@[i as int]);
            assert(b@.skip(i as int)[0] == b@[i as int]);
            assert(a@.skip(i as int).skip(1) =~= a@.skip(i + 1));
            assert(b@.skip(i as int).skip(1) =~= b@.skip(i + 1));
        }
        if a[i] < b[i] {
            return true;
        }
        if a[i] > b[i] {
            return false;
        }
        i = i + 1;
    }
    proof {
        if i == a.len() {
            assert(a@.skip(i as int).len() == 0);
        } else {
            assert(b@.skip(i as int).len() == 0);
            assert(a@.skip(i as int).len() > 0);
        }
    }
    i == a.len()
}

/// Index of a least member (in lex order) of a non-empty vector.
fn min_index(v: &Vec<Vec<u8>>) -> (mi: usize)
    requires
        v@.len() > 0,
    ensures
        mi < v@.len(),
        forall|j: int| 0 <= j < v@.len() ==> lex_le(v@[mi as int]@, (#[trigger] v@[j])@),
{
    proof {
        lemma_lex_le_total(v@[0]@, v@[0]@);
    }
    let mut mi: usize = 0;
    let mut i: usize = 1;
    while i < v.len()
        invariant
            mi < i <= v@.len(),
            forall|j: int| 0 <= j < i ==> lex_le(v@[mi as int]@, (#[trigger] v@[j])@),
        decreases v.len() - i,
    {
        if lex_le_exec(&v[i], &v[mi]) {
            proof {
                assert forall|j: int| 0 <= j < i + 1 implies lex_le(
                    v@[i as int]@,
                    (#[trigger] v@[j])@,
                ) by {
                    if j < i {
                        lemma_lex_le_trans(v@[i as int]@, v@[mi as int]@, v@[j]@);
                    } else {
                        lemma_lex_le_total(v@[i as int]@, v@[i as int]@);
                    }
                }
            }
            mi = i;
        } else {
            proof {
                lemma_lex_le_total(v@[i as int]@, v@[mi as int]@);
            }
        }
        i = i + 1;
    }
    mi
}

/// The members stand in ascending lexicographic order.
pub open spec fn sorted_lex(s: Seq<Vec<u8>>) -> bool {
    forall|i: int, j: int| 0 <= i < j < s.len() ==> lex_le((#[trigger] s[i])@, (#[trigger] s[j])@)
}

/// Sort the member list into the stable benchmark order: ascending
/// lexicographic byte order, with exactly the same members.
pub fn sort_members(input: Vec<Vec<u8>>) -> (out: Vec<Vec<u8>>)
    ensures
        sorted_lex(out@),
        out@.to_multiset() == input@.to_multiset(),
        out@.len() == input@.len(),
{
    let mut rest = input;
    let mut out: Vec<Vec<u8>> = Vec::new();
    while rest.len() > 0
        invariant
            out@.to_multiset().add(rest@.to_multiset()) =~= input@.to_multiset(),
            sorted_lex(out@),
            forall|i: int, j: int|
                0 <= i < out@.len() && 0 <= j < rest@.len() ==> lex_le(
                    (#[trigger] out@[i])@,
                    (#[trigger] rest@[j])@,
                ),
            out@.len() + rest@.len() == input@.len(),
        decreases rest.len(),
    {
        let mi = min_index(&rest);
        let ghost rest_prev = rest@;
        let x = rest.remove(mi);
        let ghost out_prev = out@;
        out.push(x);
        proof {
            assert(rest_prev.contains(rest_prev[mi as int]));
            assert(rest@.to_multiset() =~= rest_prev.to_multiset().remove(rest_prev[mi as int]));
            assert(out@.to_multiset() =~= out_prev.to_multiset().insert(rest_prev[mi as int]));
            assert(out@.to_multiset().add(rest@.to_multiset()) =~= input@.to_multiset());
            assert forall|i: int, j: int|
                0 <= i < out@.len() && 0 <= j < rest@.len() implies lex_le(
                (#[trigger] out@[i])@,
                (#[trigger] rest@[j])@,
            ) by {
                let jold = if j < mi {
                    j
                } else {
                    j + 1
                };
                assert(rest@[j] == rest_prev[jold]);
                if i < out_prev.len() {
                    assert(out@[i] == out_prev[i]);
                    assert(lex_le(out_prev[i]@, rest_prev[jold]@));
                } else {
                    assert(out@[i] == rest_prev[mi as int]);
                    assert(lex_le(rest_prev[mi as int]@, rest_prev[jold]@));
                }
            }
            assert forall|i: int, j: int| 0 <= i < j < out@.len() implies lex_le(
                (#[trigger] out@[i])@,
                (#[trigger] out@[j])@,
            ) by {
                if j < out_prev.len() {
                    assert(out@[i] == out_prev[i] && out@[j] == out_prev[j]);
                } else {
                    assert(out@[j] == rest_prev[mi as int]);
                    assert(out@[i] == out_prev[i]);
                    assert(lex_le(out_prev[i]@, rest_prev[mi as int]@));
                }
            }
        }
    }
    proof {
        assert(out@.to_multiset().add(Multiset::empty()) =~= out@.to_multiset());
        assert(out@.to_multiset() =~= input@.to_multiset());
    }
    out
}

/// A member entry whose last path component is "*" asks for expansion:
/// its parent directory, empty for the bare "*".
pub open spec fn spec_wildcard_parent(m: Seq<u8>) -> Option<Seq<u8>> {
    if m.len() == 1 && m[0] == 42 {
        Some(Seq::empty())
    } else if m.len() >= 2 && m[m.len() - 1] == 42 && m[m.len() - 2] == 47 {
        Some(m.take(m.len() - 2))
    } else {
        None
    }
}

/// Decide whether a member entry is a wildcard, and for which parent
/// directory.
pub fn wildcard_parent(m: &Vec<u8>) -> (r: Option<Vec<u8>>)
    ensures
        r matches Some(p) ==> spec_wildcard_parent(m@) == Some(p@),
        r is None ==> spec_wildcard_parent(m@) is None,
{
    let n = m.len();
    if n == 1 && m[0] == 42 {
        let v: Vec<u8> = Vec::new();
        proof {
            assert(v@ =~= Seq::<u8>::empty());
        }
        Some(v)
    } else if n >= 2 && m[n - 1] == 42 && m[n - 2] == 47 {
        let p = copy_range(m, 0, n - 2);
        proof {
            assert(p@ =~= m@.take(n - 2));
        }
        Some(p)
    } else {
        None
    }
}

/// A parent directory joined with an entry name; the empty parent
/// gives the entry alone.
pub open spec fn spec_join_path(parent: Seq<u8>, child: Seq<u8>) -> Seq<u8> {
    if parent.len() == 0 {
        child
    } else {
        parent + seq![47u8] + child
    }
}

/// Join a parent directory and an entry name with a path separator.
pub fn join_path(parent: &Vec<u8>, child: &Vec<u8>) -> (r: Vec<u8>)
    ensures
        r@ == spec_join_path(parent@, child@),
{
    if parent.len() == 0 {
        clone_bytes(child)
    } else {
        let mut r = clone_bytes(parent);
        r.push(47);
        let mut i: usize = 0;
        while i < child.len()
            invariant
                i <= child@.len(),
                r@ == parent@ + seq![47u8] + child@.take(i as int),
            decreases child.len() - i,
        {
            r.push(child[i]);
            proof {
                assert(parent@ + seq![47u8] + child@.take(i + 1) =~= (parent@ + seq![47u8]
                    + child@.take(i as int)).push(child@[i as int]));
            }
            i = i + 1;
        }
        proof {
            assert(child@.take(child@.len() as int) =~= child@);
        }
        r
    }
}

/// Last position of a path separator at or before `from`.
pub open spec fn spec_rfind_slash(m: Seq<u8>, from: int) -> Option<int>
    decreases from + 1,
{
    if from < 0 || from >= m.len() {
        None
    } else if m[from] == 47 {
        Some(from)
    } else {
        spec_rfind_slash(m, from - 1)
    }
}

fn rfind_slash(m: &Vec<u8>, from: usize) -> (r: Option<usize>)
    requires
        from < m@.len(),
    ensures
        r matches Some(k) ==> spec_rfind_slash(m@, from as int) == Some(k as int) && k <= from,
        r is None ==> spec_rfind_slash(m@, from as int) is None,
{
    let mut i: usize = from;
    loop
        invariant
            i <= from < m@.len(),
            spec_rfind_slash(m@, from as int) == spec_rfind_slash(m@, i as int),
        decreases i + 1,
    {
        if m[i] == 47 {
            return Some(i);
        }
        if i == 0 {
            proof {
                assert(spec_rfind_slash(m@, -1) is None);
            }
            return None;
        }
        i = i - 1;
    }
}

/// Category and name of a member path: the name is the last path
/// component; the category is the component just before it (the whole
/// leading part when there is only one separator, empty when there is
/// none).
pub open spec fn spec_split_member(m: Seq<u8>) -> (Seq<u8>, Seq<u8>) {
    match spec_rfind_slash(m, m.len() - 1) {
        None => (Seq::empty(), m),
        Some(k) => {
            let name = m.skip(k + 1);
            match spec_rfind_slash(m, k - 1) {
                None => (m.take(k), name),
                Some(k2) => (m.subrange(k2 + 1, k), name),
            }
        },
    }
}

/// Split a member path into its category (grouping key) and its name.
pub fn split_member(m: &Vec<u8>) -> (r: (Vec<u8>, Vec<u8>))
    ensures
        (r.0@, r.1@) == spec_split_member(m@),
{
    if m.len() == 0 {
        let a: Vec<u8> = Vec::new();
        let b: Vec<u8> = Vec::new();
        proof {
            assert(a@ =~= Seq::<u8>::empty());
            assert(b@ =~= m@);
        }
        return (a, b);
    }
    match rfind_slash(m, m.len() - 1) {
        None => {
            let a: Vec<u8> = Vec::new();
            proof {
                assert(a@ =~= Seq::<u8>::empty());
            }
            (a, clone_bytes(m))
        },
        Some(k) => {
            let name = copy_range(m, k + 1, m.len());
            proof {
                assert(name@ =~= m@.skip(k + 1));
            }
            if k == 0 {
                let cat = copy_range(m, 0, k);
                proof {
                    assert(cat@ =~= m@.take(k as int));
                }
                (cat, name)
            } else {
                match rfind_slash(m, k - 1) {
                    None => {
                        let cat = copy_range(m, 0, k);
                        proof {
                            assert(cat@ =~= m@.take(k as int));
                        }
                        (cat, name)
                    },
                    Some(k2) => {
                        let cat = copy_range(m, k2 + 1, k);
                        (cat, name)
                    },
                }
            }
        },
    }
}

} // verus!
