//! Path handling over plain strings, with `/` as the separator.
//!
//! The rules are the usual ones for POSIX-style path text: trailing
//! separators are ignored, the base name is what follows the last
//! separator (there is none for empty text, `.` or `..`), and the
//! parent is what precedes it (the empty string for a bare file name,
//! `/` at the root).  Joining appends with a separator, except that an
//! absolute right-hand side replaces the left-hand side.

use crate::text::{find_last, lemma_find_last};
use vstd::prelude::*;

verus! {

/// Trailing separators removed.
pub open spec fn strip_slashes(s: Seq<char>) -> Seq<char>
    decreases s.len(),
{
    if s.len() > 0 && s.last() == '/' {
        strip_slashes(s.drop_last())
    } else {
        s
    }
}

/// What follows the last separator (all of `s` when there is none).
pub open spec fn tail_after_last_slash(s: Seq<char>) -> Seq<char> {
    if find_last(s, '/') < 0 {
        s
    } else {
        s.skip(find_last(s, '/') + 1)
    }
}

/// The base (file) name of path text, if it has one: the text after
/// the last separator, ignoring trailing separators; empty text, `.`
/// and `..` have none.
pub open spec fn base_name_spec(s: Seq<char>) -> Option<Seq<char>> {
    let b = tail_after_last_slash(strip_slashes(s));
    if b.len() == 0 || b == seq!['.'] || b == seq!['.', '.'] {
        None
    } else {
        Some(b)
    }
}

/// The parent directory of path text, if it has one: the text before
/// the last separator with its own trailing separators removed, the
/// empty string for a bare name, `/` when the last separator is the
/// root, and nothing for empty text.
pub open spec fn parent_dir_spec(s: Seq<char>) -> Option<Seq<char>> {
    let t = strip_slashes(s);
    if t.len() == 0 {
        None
    } else if find_last(t, '/') < 0 {
        Some(Seq::<char>::empty())
    } else {
        let q = strip_slashes(t.take(find_last(t, '/')));
        if q.len() == 0 {
            Some(seq!['/'])
        } else {
            Some(q)
        }
    }
}

/// Joined path text: `dir`, a separator if `dir` does not already end
/// in one, then `file`; an absolute `file` stands alone.
pub open spec fn join_spec(dir: Seq<char>, file: Seq<char>) -> Seq<char> {
    if file.len() > 0 && file[0] == '/' {
        file
    } else if dir.len() == 0 {
        file
    } else if dir.last() == '/' {
        dir + file
    } else {
        dir + seq!['/'] + file
    }
}

/// Scan back over trailing separators: afterwards `b` bounds the text
/// [`strip_slashes`] leaves.
fn scan_strip_slashes(v: &Vec<char>) -> (b: usize)
    ensures
        b <= v@.len(),
        v@.take(b as int) == strip_slashes(v@),
        b > 0 ==> v@[b - 1] != '/',
{
    let mut b = v.len();
    proof {
        assert(v@.take(v@.len() as int) =~= v@);
    }
    while b > 0 && v[b - 1] == '/'
        invariant
            b <= v@.len(),
            strip_slashes(v@) == strip_slashes(v@.take(b as int)),
        decreases b,
    {
        proof {
            assert(v@.take(b as int).drop_last() =~= v@.take(b - 1));
        }
        b -= 1;
    }
    proof {
        assert(strip_slashes(v@.take(b as int)) == v@.take(b as int));
    }
    b
}

/// Scan back from `b` to the character after the last separator
/// before `b`.
fn scan_component_start(v: &Vec<char>, b: usize) -> (a: usize)
    requires
        b <= v@.len(),
    ensures
        a <= b,
        forall|j: int| a <= j < b ==> v@[j] != '/',
        a > 0 ==> v@[a - 1] == '/',
{
    let mut a = b;
    while a > 0 && v[a - 1] != '/'
        invariant
            a <= b <= v@.len(),
            forall|j: int| a <= j < b ==> v@[j] != '/',
        decreases a,
    {
        a -= 1;
    }
    a
}

/// `find_last` on a window with a known separator layout.
proof fn lemma_find_last_window(t: Seq<char>, a: int)
    requires
        0 <= a <= t.len(),
        forall|j: int| a <= j < t.len() ==> t[j] != '/',
        a > 0 ==> t[a - 1] == '/',
    ensures
        find_last(t, '/') == a - 1 || (a == 0 && find_last(t, '/') < 0),
{
    lemma_find_last(t, '/');
    if a == 0 {
        if find_last(t, '/') >= 0 {
            assert(t[find_last(t, '/')] == '/');
        }
    } else {
        let fl = find_last(t, '/');
        if fl < 0 {
            assert(t[a - 1] != '/');
        } else {
            if fl < a - 1 {
                assert(t[a - 1] != '/');
            }
            if fl > a - 1 {
                assert(t[fl] != '/');
            }
        }
    }
}

/// The base (file) name of a path, per [`base_name_spec`].
pub fn base_name(s: &str) -> (r: Option<String>)
    ensures
        match r {
            Some(x) => base_name_spec(s@) == Some(x@),
            None => base_name_spec(s@) is None,
        },
{
    let v = crate::text::chars_vec(s);
    let b = scan_strip_slashes(&v);
    let a = scan_component_start(&v, b);
    proof {
        let t = v@.take(b as int);
        assert forall|j: int| a <= j < t.len() implies t[j] != '/' by {
            assert(t[j] == v@[j]);
        }
        if a > 0 {
            assert(t[a - 1] == v@[a - 1]);
        }
        lemma_find_last_window(t, a as int);
        if a == 0 {
            assert(tail_after_last_slash(t) =~= t);
            assert(t =~= v@.subrange(a as int, b as int));
        } else {
            assert(t.skip(a as int) =~= v@.subrange(a as int, b as int));
        }
        assert(tail_after_last_slash(strip_slashes(s@)) =~= v@.subrange(a as int, b as int));
    }
    if b == a {
        return None;
    }
    if b - a == 1 && v[a] == '.' {
        proof {
            assert(v@.subrange(a as int, b as int) =~= seq!['.']);
        }
        return None;
    }
    if b - a == 2 && v[a] == '.' && v[a + 1] == '.' {
        proof {
            assert(v@.subrange(a as int, b as int) =~= seq!['.', '.']);
        }
        return None;
    }
    proof {
        let w = v@.subrange(a as int, b as int);
        assert(w.len() > 0);
        assert(w[0] == v@[a as int]);
        if w == seq!['.'] {
            assert(w[0] == seq!['.'][0]);
            assert(v@[a as int] == '.');
        }
        if w == seq!['.', '.'] {
            assert(w[0] == seq!['.', '.'][0]);
            assert(w[1] == seq!['.', '.'][1]);
            assert(w[1] == v@[a + 1]);
            assert(v@[a as int] == '.' && v@[a + 1] == '.');
        }
    }
    Some(s.substring_char(a, b).to_owned())
}

/// The parent directory of a path, per [`parent_dir_spec`].
pub fn parent_dir(s: &str) -> (r: Option<String>)
    ensures
        match r {
            Some(x) => parent_dir_spec(s@) == Some(x@),
            None => parent_dir_spec(s@) is None,
        },
{
    let v = crate::text::chars_vec(s);
    let b = scan_strip_slashes(&v);
    if b == 0 {
        return None;
    }
    let a = scan_component_start(&v, b);
    proof {
        let t = v@.take(b as int);
        assert forall|j: int| a <= j < t.len() implies t[j] != '/' by {
            assert(t[j] == v@[j]);
        }
        if a > 0 {
            assert(t[a - 1] == v@[a - 1]);
        }
        lemma_find_last_window(t, a as int);
    }
    if a == 0 {
        proof {
            reveal_strlit("");
        }
        return Some(String::from_str(""));
    }
    let c = scan_strip_slashes_to(&v, a - 1);
    proof {
        let t = v@.take(b as int);
        assert(t.take(find_last(t, '/')) =~= v@.take(a - 1));
        assert(v@.take(c as int) =~= v@.subrange(0, c as int));
    }
    if c == 0 {
        proof {
            reveal_strlit("/");
        }
        return Some(String::from_str("/"));
    }
    Some(s.substring_char(0, c).to_owned())
}

/// Scan back over separators from position `e`: afterwards `c` bounds
/// the text `strip_slashes` leaves of `v[..e]`.
fn scan_strip_slashes_to(v: &Vec<char>, e: usize) -> (c: usize)
    requires
        e <= v@.len(),
    ensures
        c <= e,
        v@.take(c as int) == strip_slashes(v@.take(e as int)),
{
    let mut c = e;
    while c > 0 && v[c - 1] == '/'
        invariant
            c <= e <= v@.len(),
            strip_slashes(v@.take(e as int)) == strip_slashes(v@.take(c as int)),
        decreases c,
    {
        proof {
            assert(v@.take(c as int).drop_last() =~= v@.take(c - 1));
        }
        c -= 1;
    }
    proof {
        assert(strip_slashes(v@.take(c as int)) == v@.take(c as int));
    }
    c
}

/// Join `file` onto `dir`, per [`join_spec`].
pub fn join_path(dir: &str, file: &str) -> (r: String)
    ensures
        r@ == join_spec(dir@, file@),
{
    proof {
        reveal_strlit("/");
    }
    if file.unicode_len() > 0 && file.get_char(0) == '/' {
        return file.to_owned();
    }
    let dn = dir.unicode_len();
    if dn == 0 {
        return file.to_owned();
    }
    let mut out = dir.to_owned();
    if dir.get_char(dn - 1) != '/' {
        out.append("/");
    }
    out.append(file);
    proof {
        if dir@.last() != '/' {
            assert(dir@ + "/"@ + file@ =~= dir@ + seq!['/'] + file@);
        }
    }
    out
}

} // verus!
