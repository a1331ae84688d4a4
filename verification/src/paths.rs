//! Paths compared as the standard library's `Path` compares them on Unix: by
//! their components, so that `/usr/bin/rg`, `/usr/bin/rg/` and
//! `/usr//bin/./rg` name the same file.
use vstd::prelude::*;
use crate::text::chars_of;

verus! {

/// The pieces of a path between its slashes, empty ones included; there is
/// always at least one.
pub open spec fn split_at_slashes(s: Seq<char>) -> Seq<Seq<char>>
    decreases s.len(),
{
    if s.len() == 0 {
        seq![Seq::empty()]
    } else {
        let pieces = split_at_slashes(s.drop_last());
        if s.last() == '/' {
            pieces.push(Seq::empty())
        } else {
            pieces.update(pieces.len() - 1, pieces.last().push(s.last()))
        }
    }
}

/// A piece that names a component: neither empty nor `.`.
pub open spec fn is_named(piece: Seq<char>) -> bool {
    piece.len() > 0 && piece != seq!['.']
}

/// The pieces that name components, in order.
pub open spec fn named_pieces(pieces: Seq<Seq<char>>) -> Seq<Seq<char>>
    decreases pieces.len(),
{
    if pieces.len() == 0 {
        Seq::empty()
    } else {
        let rest = named_pieces(pieces.drop_last());
        if is_named(pieces.last()) {
            rest.push(pieces.last())
        } else {
            rest
        }
    }
}

/// What comes before the named components: `/` for an absolute path, `.`
/// for a path that starts with the current directory, nothing otherwise.
pub open spec fn path_head(s: Seq<char>) -> Seq<Seq<char>> {
    if s.len() > 0 && s[0] == '/' {
        seq![seq!['/']]
    } else if s.len() > 0 && s[0] == '.' && (s.len() == 1 || s[1] == '/') {
        seq![seq!['.']]
    } else {
        Seq::empty()
    }
}

/// The components of a path: its head, then its named pieces. Empty pieces
/// and `.` past the start are dropped, `..` is kept.
pub open spec fn path_components(s: Seq<char>) -> Seq<Seq<char>> {
    path_head(s) + named_pieces(split_at_slashes(s))
}

proof fn lemma_split_nonempty(s: Seq<char>)
    ensures
        split_at_slashes(s).len() >= 1,
    decreases s.len(),
{
    if s.len() > 0 {
        lemma_split_nonempty(s.drop_last());
    }
}

/// The characters of a vector, as a sequence of sequences.
pub open spec fn char_views(v: Seq<Vec<char>>) -> Seq<Seq<char>> {
    v.map_values(|x: Vec<char>| x@)
}

fn names_component(piece: &Vec<char>) -> (r: bool)
    ensures
        r == is_named(piece@),
{
    let r = piece.len() > 0 && !(piece.len() == 1 && piece[0] == '.');
    proof {
        if piece.len() == 1 && piece[0] == '.' {
            assert(piece@ =~= seq!['.']);
        }
        if piece@ == seq!['.'] {
            assert(piece@[0] == '.');
        }
    }
    r
}

/// The components of a path, as `path_components` gives them.
pub fn components_of(s: &str) -> (r: Vec<Vec<char>>)
    ensures
        char_views(r@) == path_components(s@),
{
    let chars = chars_of(s);
    let mut out: Vec<Vec<char>> = Vec::new();
    let ghost head = path_head(s@);
    if chars.len() > 0 && chars[0] == '/' {
        let mut root: Vec<char> = Vec::new();
        root.push('/');
        out.push(root);
        proof {
            assert(root@ =~= seq!['/']);
            assert(char_views(out@) =~= head);
        }
    } else if chars.len() > 0 && chars[0] == '.' && (chars.len() == 1 || chars[1] == '/') {
        let mut here: Vec<char> = Vec::new();
        here.push('.');
        out.push(here);
        proof {
            assert(here@ =~= seq!['.']);
            assert(char_views(out@) =~= head);
        }
    } else {
        assert(char_views(out@) =~= head);
    }
    let mut cur: Vec<char> = Vec::new();
    let mut i: usize = 0;
    proof {
        assert(chars@.take(0) =~= Seq::<char>::empty());
        lemma_split_nonempty(chars@.take(0));
        assert(split_at_slashes(chars@.take(0)).drop_last() =~= Seq::<Seq<char>>::empty());
    }
    while i < chars.len()
        invariant
            i <= chars@.len(),
            chars@ == s@,
            head == path_head(s@),
            split_at_slashes(chars@.take(i as int)).len() >= 1,
            cur@ == split_at_slashes(chars@.take(i as int)).last(),
            char_views(out@) == head + named_pieces(
                split_at_slashes(chars@.take(i as int)).drop_last(),
            ),
        decreases chars@.len() - i,
    {
        let ghost pieces = split_at_slashes(chars@.take(i as int));
        let c = chars[i];
        proof {
            assert(chars@.take(i + 1).drop_last() =~= chars@.take(i as int));
            assert(chars@.take(i + 1).last() == c);
            lemma_split_nonempty(chars@.take(i + 1));
        }
        if c == '/' {
            let named = names_component(&cur);
            proof {
                assert(split_at_slashes(chars@.take(i + 1)).drop_last() =~= pieces);
                assert(named_pieces(pieces) == if is_named(pieces.last()) {
                    named_pieces(pieces.drop_last()).push(pieces.last())
                } else {
                    named_pieces(pieces.drop_last())
                });
            }
            if named {
                let ghost before = out@;
                out.push(cur);
                proof {
                    assert(char_views(out@) =~= char_views(before).push(pieces.last()));
                }
            }
            cur = Vec::new();
            proof {
                assert(cur@ =~= split_at_slashes(chars@.take(i + 1)).last());
            }
        } else {
            cur.push(c);
            proof {
                assert(split_at_slashes(chars@.take(i + 1)).drop_last() =~= pieces.drop_last());
            }
        }
        i += 1;
    }
    proof {
        assert(chars@.take(i as int) =~= s@);
    }
    let ghost pieces = split_at_slashes(s@);
    proof {
        assert(named_pieces(pieces) == if is_named(pieces.last()) {
            named_pieces(pieces.drop_last()).push(pieces.last())
        } else {
            named_pieces(pieces.drop_last())
        });
    }
    if names_component(&cur) {
        let ghost before = out@;
        out.push(cur);
        proof {
            assert(char_views(out@) =~= char_views(before).push(pieces.last()));
        }
    }
    proof {
        assert((head + named_pieces(pieces.drop_last())).push(pieces.last()) =~= head + named_pieces(
            pieces.drop_last(),
        ).push(pieces.last()));
    }
    out
}

fn same_chars(a: &Vec<char>, b: &Vec<char>) -> (r: bool)
    ensures
        r == (a@ == b@),
{
    if a.len() != b.len() {
        return false;
    }
    let mut i: usize = 0;
    while i < a.len()
        invariant
            i <= a@.len(),
            a@.len() == b@.len(),
            forall|j: int| 0 <= j < i ==> a@[j] == b@[j],
        decreases a@.len() - i,
    {
        if a[i] != b[i] {
            return false;
        }
        i += 1;
    }
    assert(a@ =~= b@);
    true
}

/// Whether two paths have the same components.
pub fn same_path(a: &str, b: &str) -> (r: bool)
    ensures
        r == (path_components(a@) == path_components(b@)),
{
    let ca = components_of(a);
    let cb = components_of(b);
    proof {
        assert(char_views(ca@).len() == ca@.len());
        assert(char_views(cb@).len() == cb@.len());
    }
    if ca.len() != cb.len() {
        return false;
    }
    let mut i: usize = 0;
    while i < ca.len()
        invariant
            i <= ca@.len(),
            ca@.len() == cb@.len(),
            char_views(ca@) == path_components(a@),
            char_views(cb@) == path_components(b@),
            forall|j: int| 0 <= j < i ==> ca@[j]@ == cb@[j]@,
        decreases ca@.len() - i,
    {
        if !same_chars(&ca[i], &cb[i]) {
            proof {
                assert(char_views(ca@)[i as int] == ca@[i as int]@);
                assert(char_views(cb@)[i as int] == cb@[i as int]@);
            }
            return false;
        }
        i += 1;
    }
    proof {
        assert forall|j: int| 0 <= j < ca@.len() implies char_views(ca@)[j] == char_views(cb@)[j] by {
        }
        assert(char_views(ca@) =~= char_views(cb@));
    }
    true
}

} // verus!
