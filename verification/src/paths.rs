//! Paths as plain strings: splitting off the parent directory and the file
//! name at the last `'/'`, and joining a directory with a file name.

use vstd::prelude::*;
use vstd::string::*;

verus! {

/// The index just after the last `'/'` in `s`, or `0` when `s` holds none.
pub open spec fn name_start(s: Seq<char>) -> int
    decreases s.len(),
{
    if s.len() == 0 {
        0
    } else if s[s.len() - 1] == '/' {
        s.len() as int
    } else {
        name_start(s.drop_last())
    }
}

pub proof fn lemma_name_start_bounds(s: Seq<char>)
    ensures
        0 <= name_start(s) <= s.len(),
    decreases s.len(),
{
    if s.len() == 0 {
    } else if s[s.len() - 1] == '/' {
    } else {
        lemma_name_start_bounds(s.drop_last());
    }
}

/// The parent directory of a path: the text before the last `'/'`, without
/// that separator; empty when the path holds no `'/'`.
pub open spec fn parent_spec(s: Seq<char>) -> Seq<char> {
    if name_start(s) == 0 {
        Seq::empty()
    } else {
        s.take(name_start(s) - 1)
    }
}

/// The file name of a path: the text after the last `'/'`.
pub open spec fn name_spec(s: Seq<char>) -> Seq<char> {
    s.skip(name_start(s))
}

/// A directory and a file name joined with a `'/'` between them.
pub open spec fn join_spec(dir: Seq<char>, name: Seq<char>) -> Seq<char> {
    dir + seq!['/'] + name
}

/// A file name never holds a separator.
pub proof fn lemma_name_spec_no_slash(s: Seq<char>)
    ensures
        forall|i: int| 0 <= i < name_spec(s).len() ==> name_spec(s)[i] != '/',
    decreases s.len(),
{
    lemma_name_start_bounds(s);
    if s.len() == 0 {
    } else if s[s.len() - 1] == '/' {
    } else {
        lemma_name_spec_no_slash(s.drop_last());
        lemma_name_start_bounds(s.drop_last());
        assert(name_spec(s.drop_last()) =~= name_spec(s).drop_last());
        assert forall|i: int| 0 <= i < name_spec(s).len() implies name_spec(s)[i] != '/' by {
            if i < name_spec(s).len() - 1 {
                assert(name_spec(s)[i] == name_spec(s.drop_last())[i]);
            } else {
                assert(name_spec(s)[i] == s[s.len() - 1]);
            }
        }
    }
}

/// Joining a directory with a slash-free name and splitting the result
/// gives the two parts back.
pub proof fn lemma_join_parts(dir: Seq<char>, name: Seq<char>)
    requires
        forall|i: int| 0 <= i < name.len() ==> name[i] != '/',
    ensures
        parent_spec(join_spec(dir, name)) == dir,
        name_spec(join_spec(dir, name)) == name,
{
    lemma_join_name_start(dir, name);
    assert(parent_spec(join_spec(dir, name)) =~= dir);
    assert(name_spec(join_spec(dir, name)) =~= name);
}

proof fn lemma_join_name_start(dir: Seq<char>, name: Seq<char>)
    requires
        forall|i: int| 0 <= i < name.len() ==> name[i] != '/',
    ensures
        name_start(join_spec(dir, name)) == dir.len() + 1,
    decreases name.len(),
{
    let j = join_spec(dir, name);
    if name.len() == 0 {
        assert(j.len() == dir.len() + 1);
        assert(j[j.len() - 1] == '/');
    } else {
        assert(j[j.len() - 1] == name[name.len() - 1]);
        assert(j[j.len() - 1] != '/');
        assert(j.drop_last() =~= join_spec(dir, name.drop_last()));
        lemma_join_name_start(dir, name.drop_last());
    }
}

/// Character-for-character equality of two strings.
pub fn str_eq(a: &str, b: &str) -> (r: bool)
    ensures
        r == (a@ == b@),
{
    let na: usize = a.unicode_len();
    let nb: usize = b.unicode_len();
    if na != nb {
        return false;
    }
    let mut i: usize = 0;
    while i < na
        invariant
            i <= na,
            na == a@.len(),
            na == b@.len(),
            forall|j: int| 0 <= j < i ==> a@[j] == b@[j],
        decreases na - i,
    {
        if a.get_char(i) != b.get_char(i) {
            return false;
        }
        i = i + 1;
    }
    proof {
        assert(a@ =~= b@);
    }
    true
}

/// The index just after the last `'/'` of `s`, or `0` when `s` holds none.
pub fn find_name_start(s: &str) -> (r: usize)
    ensures
        r == name_start(s@),
{
    let n: usize = s.unicode_len();
    proof {
        assert(s@.take(n as int) =~= s@);
    }
    let mut i: usize = n;
    while i > 0
        invariant
            i <= n,
            n == s@.len(),
            name_start(s@.take(i as int)) == name_start(s@),
        decreases i,
    {
        let c = s.get_char(i - 1);
        if c == '/' {
            proof {
                assert(s@.take(i as int)[i - 1] == '/');
            }
            return i;
        }
        proof {
            assert(s@.take(i as int)[i - 1] != '/');
            assert(s@.take(i as int).drop_last() =~= s@.take(i as int - 1));
        }
        i = i - 1;
    }
    proof {
        assert(s@.take(0) =~= Seq::<char>::empty());
    }
    0
}

/// The parent directory of `path`: the text before the last `'/'`, or the
/// empty string when `path` holds no `'/'`.
pub fn parent_of(path: &str) -> (r: String)
    ensures
        r@ == parent_spec(path@),
{
    proof {
        lemma_name_start_bounds(path@);
    }
    let ns: usize = find_name_start(path);
    if ns == 0 {
        String::new()
    } else {
        String::from_str(path.substring_char(0, ns - 1))
    }
}

/// The file name of `path`: the text after the last `'/'`.
pub fn file_name_of(path: &str) -> (r: String)
    ensures
        r@ == name_spec(path@),
{
    proof {
        lemma_name_start_bounds(path@);
    }
    let ns: usize = find_name_start(path);
    let n: usize = path.unicode_len();
    String::from_str(path.substring_char(ns, n))
}

/// `dir` and `name` joined with a `'/'` between them.
pub fn join_path(dir: &str, name: &str) -> (r: String)
    ensures
        r@ == join_spec(dir@, name@),
{
    let mut r = String::from_str(dir);
    r.append("/");
    r.append(name);
    proof {
        reveal_strlit("/");
        assert(r@ =~= join_spec(dir@, name@));
    }
    r
}

} // verus!
