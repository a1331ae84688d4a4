//! Filtering and ordering the commands that match a query.
//!
//! A command matches when its lower-cased name contains the lower-cased
//! query. Matches are listed exact match first, then names that begin with
//! the query, then the rest; alphabetically within each group.
use vstd::prelude::*;
use crate::text::{
    chars_eq, contains_chars, contains_exec, has_prefix, lemma_lex_total, lemma_lex_trans, lex_le,
    lex_le_exec, starts_with_exec,
};

verus! {

/// The contents of a list of character vectors.
pub open spec fn char_views(v: Seq<Vec<char>>) -> Seq<Seq<char>> {
    v.map_values(|x: Vec<char>| x@)
}

/// The group a name falls in for a query: 0 for an exact match, 1 for a name
/// that begins with the query, 2 for any other.
pub open spec fn rank(name: Seq<char>, q: Seq<char>) -> int {
    if name == q {
        0
    } else if has_prefix(name, q) {
        1
    } else {
        2
    }
}

/// `a` may be listed before `b`: by group, then alphabetically.
pub open spec fn key_le(a: Seq<char>, b: Seq<char>, q: Seq<char>) -> bool {
    rank(a, q) < rank(b, q) || (rank(a, q) == rank(b, q) && lex_le(a, b))
}

/// The indices in `m` name entries of `names` in listing order.
pub open spec fn sorted_by_key(names: Seq<Seq<char>>, q: Seq<char>, m: Seq<usize>) -> bool {
    forall|a: int, b: int|
        0 <= a < b < m.len() ==> #[trigger] key_le(names[m[a] as int], names[m[b] as int], q)
}

/// `m` lists, without repetition and in listing order, exactly the indices of
/// the names that contain the query.
pub open spec fn is_match_list(names: Seq<Seq<char>>, q: Seq<char>, m: Seq<usize>) -> bool {
    &&& m.no_duplicates()
    &&& forall|k: int|
        0 <= k < m.len() ==> (#[trigger] m[k] as int) < names.len() && contains_chars(
            names[m[k] as int],
            q,
        )
    &&& forall|i: int|
        0 <= i < names.len() && contains_chars(#[trigger] names[i], q) ==> m.contains(
            i as usize,
        )
    &&& sorted_by_key(names, q, m)
}

/// Any two names are ordered one way or the other.
pub proof fn lemma_key_total(a: Seq<char>, b: Seq<char>, q: Seq<char>)
    ensures
        key_le(a, b, q) || key_le(b, a, q),
{
    lemma_lex_total(a, b);
}

/// The listing order is transitive.
pub proof fn lemma_key_trans(a: Seq<char>, b: Seq<char>, c: Seq<char>, q: Seq<char>)
    requires
        key_le(a, b, q),
        key_le(b, c, q),
    ensures
        key_le(a, c, q),
{
    if rank(a, q) == rank(b, q) && rank(b, q) == rank(c, q) {
        lemma_lex_trans(a, b, c);
    }
}

proof fn lemma_insert_sorted(names: Seq<Seq<char>>, q: Seq<char>, m: Seq<usize>, p: int, x: usize)
    requires
        0 <= p <= m.len(),
        sorted_by_key(names, q, m),
        forall|j: int| 0 <= j < p ==> key_le(names[m[j] as int], names[x as int], q),
        p < m.len() ==> key_le(names[x as int], names[m[p] as int], q),
    ensures
        sorted_by_key(names, q, m.insert(p, x)),
{
    let m2 = m.insert(p, x);
    assert forall|a: int, b: int| 0 <= a < b < m2.len() implies #[trigger] key_le(
        names[m2[a] as int],
        names[m2[b] as int],
        q,
    ) by {
        if a < p && b < p {
            assert(key_le(names[m[a] as int], names[m[b] as int], q));
        } else if a < p && b == p {
        } else if a < p && b > p {
            assert(key_le(names[m[a] as int], names[m[b - 1] as int], q));
        } else if a == p {
            if b - 1 > p {
                assert(key_le(names[m[p] as int], names[m[b - 1] as int], q));
                lemma_key_trans(names[x as int], names[m[p] as int], names[m[b - 1] as int], q);
            }
        } else {
            assert(key_le(names[m[a - 1] as int], names[m[b - 1] as int], q));
        }
    }
}

/// The group of `name` for the query `q`.
fn rank_exec(name: &Vec<char>, q: &Vec<char>) -> (r: u8)
    ensures
        r as int == rank(name@, q@),
{
    if chars_eq(name, q) {
        0
    } else if starts_with_exec(name, q) {
        1
    } else {
        2
    }
}

/// Whether `a` may be listed before `b` for the query `q`.
fn key_le_exec(a: &Vec<char>, b: &Vec<char>, q: &Vec<char>) -> (r: bool)
    ensures
        r == key_le(a@, b@, q@),
{
    let ra = rank_exec(a, q);
    let rb = rank_exec(b, q);
    if ra != rb {
        ra < rb
    } else {
        lex_le_exec(a, b)
    }
}

/// The first position in `m` at which `x` may be inserted keeping the order
/// and after every entry that may stay before it.
fn insert_position(names: &Vec<Vec<char>>, q: &Vec<char>, m: &Vec<usize>, x: usize) -> (p: usize)
    requires
        x < names.len(),
        forall|k: int| 0 <= k < m.len() ==> (#[trigger] m@[k] as int) < names.len(),
    ensures
        p <= m.len(),
        forall|j: int|
            0 <= j < p ==> key_le(char_views(names@)[m@[j] as int], char_views(names@)[x as int], q@),
        p < m.len() ==> !key_le(char_views(names@)[m@[p as int] as int], char_views(names@)[x as int], q@),
{
    let ghost nv = char_views(names@);
    let mut p: usize = 0;
    while p < m.len()
        invariant
            nv == char_views(names@),
            x < names.len(),
            forall|k: int| 0 <= k < m.len() ==> (#[trigger] m@[k] as int) < names.len(),
            p <= m.len(),
            forall|j: int| 0 <= j < p ==> key_le(nv[m@[j] as int], nv[x as int], q@),
        decreases m.len() - p,
    {
        let k = m[p];
        if !key_le_exec(&names[k], &names[x], q) {
            return p;
        }
        p += 1;
    }
    p
}

/// The indices of the names that contain `q`, in listing order.
pub fn sorted_matches(names: &Vec<Vec<char>>, q: &Vec<char>) -> (m: Vec<usize>)
    ensures
        is_match_list(char_views(names@), q@, m@),
{
    let ghost nv = char_views(names@);
    let mut m: Vec<usize> = Vec::new();
    let mut i: usize = 0;
    while i < names.len()
        invariant
            nv == char_views(names@),
            i <= names.len(),
            m@.no_duplicates(),
            forall|k: int|
                0 <= k < m.len() ==> (#[trigger] m@[k] as int) < i && contains_chars(
                    nv[m@[k] as int],
                    q@,
                ),
            forall|j: int| 0 <= j < i && contains_chars(#[trigger] nv[j], q@) ==> m@.contains(j as usize),
            sorted_by_key(nv, q@, m@),
        decreases names.len() - i,
    {
        if contains_exec(&names[i], q) {
            let p = insert_position(names, q, &m, i);
            proof {
                if p < m.len() {
                    lemma_key_total(nv[m@[p as int] as int], nv[i as int], q@);
                }
                lemma_insert_sorted(nv, q@, m@, p as int, i);
            }
            let ghost old_m = m@;
            m.insert(p, i);
            proof {
                assert forall|a: int, b: int| 0 <= a < b < m@.len() implies m@[a] != m@[b] by {
                    if a < p && b < p {
                    } else if b == p {
                        assert(old_m[a] < i);
                    } else if a == p {
                        assert(old_m[b - 1] < i);
                    } else if a < p {
                        assert(old_m[a] != old_m[b - 1]);
                    } else {
                        assert(old_m[a - 1] != old_m[b - 1]);
                    }
                }
                assert forall|j: int| 0 <= j < i + 1 && contains_chars(#[trigger] nv[j], q@) implies m@.contains(j as usize) by {
                    if j == i {
                        assert(m@[p as int] == i);
                    } else {
                        let k = choose|k: int| 0 <= k < old_m.len() && old_m[k] == j as usize;
                        if k < p {
                            assert(m@[k] == j as usize);
                        } else {
                            assert(m@[k + 1] == j as usize);
                        }
                    }
                }
            }
        } else {
            proof {
                assert forall|j: int| 0 <= j < i + 1 && contains_chars(#[trigger] nv[j], q@) implies m@.contains(j as usize) by {
                    if j == i {
                        assert(nv[j] == names@[j]@);
                    }
                }
            }
        }
        i += 1;
    }
    m
}

} // verus!
