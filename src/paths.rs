//! Paths as character sequences with a platform separator: parent, join,
//! file name and the Dart-source test.

use vstd::prelude::*;

verus! {

/// The last index at which `c` stands in `p`, or -1.
pub open spec fn last_index_of(p: Seq<char>, c: char) -> int
    decreases p.len(),
{
    if p.len() == 0 {
        -1
    } else if p.last() == c {
        p.len() - 1
    } else {
        last_index_of(p.drop_last(), c)
    }
}

/// The directory part of a path: empty where there is none, the root where the
/// only separator leads the path.
pub open spec fn parent_of(p: Seq<char>, sep: char) -> Seq<char> {
    let k = last_index_of(p, sep);
    if k < 0 {
        Seq::empty()
    } else if k == 0 {
        seq![sep]
    } else {
        p.take(k)
    }
}

/// `name` placed under `dir`; a name that starts at the root stands alone.
pub open spec fn join_path(dir: Seq<char>, name: Seq<char>, sep: char) -> Seq<char> {
    if name.len() > 0 && name[0] == sep {
        name
    } else if dir.len() == 0 {
        name
    } else if dir.last() == sep {
        dir + name
    } else {
        dir + seq![sep] + name
    }
}

/// The last component of a path.
pub open spec fn file_name_of(p: Seq<char>, sep: char) -> Seq<char> {
    p.skip(last_index_of(p, sep) + 1)
}

/// The file's extension is `dart`: its name ends in `.dart` with something before the dot.
pub open spec fn is_dart_file(p: Seq<char>, sep: char) -> bool {
    let n = file_name_of(p, sep);
    n.len() > 5 && n.skip(n.len() - 5) == seq!['.', 'd', 'a', 'r', 't']
}

proof fn lemma_last_index_bounds(p: Seq<char>, c: char)
    ensures
        -1 <= last_index_of(p, c) < p.len(),
        last_index_of(p, c) >= 0 ==> p[last_index_of(p, c)] == c,
        forall|j: int| last_index_of(p, c) < j < p.len() ==> p[j] != c,
    decreases p.len(),
{
    if p.len() > 0 && p.last() != c {
        lemma_last_index_bounds(p.drop_last(), c);
        assert forall|j: int| last_index_of(p, c) < j < p.len() implies p[j] != c by {
            if j < p.len() - 1 {
                assert(p.drop_last()[j] == p[j]);
            }
        }
    }
}

/// Finds the last position of `c` in `p`.
pub fn last_index(p: &Vec<char>, c: char) -> (r: Option<usize>)
    ensures
        match r {
            Some(k) => last_index_of(p@, c) == k as int,
            None => last_index_of(p@, c) == -1,
        },
{
    let mut i: usize = p.len();
    assert(p@.take(p@.len() as int) =~= p@);
    while i > 0
        invariant
            i <= p@.len(),
            last_index_of(p@, c) == last_index_of(p@.take(i as int), c),
        decreases i,
    {
        assert(p@.take(i as int).drop_last() =~= p@.take(i - 1));
        if p[i - 1] == c {
            return Some(i - 1);
        }
        i = i - 1;
    }
    None
}

/// The directory part of `p` (see `parent_of`).
pub fn parent(p: &Vec<char>, sep: char) -> (r: Vec<char>)
    ensures
        r@ == parent_of(p@, sep),
{
    proof {
        assert(p@.take(p@.len() as int) =~= p@);
        lemma_last_index_bounds(p@, sep);
    }
    match last_index(p, sep) {
        None => Vec::new(),
        Some(k) => {
            if k == 0 {
                let mut r: Vec<char> = Vec::new();
                r.push(sep);
                assert(r@ =~= seq![sep]);
                r
            } else {
                let r = crate::text::copy_range(p, 0, k);
                assert(r@ =~= p@.take(k as int));
                r
            }
        },
    }
}

/// Places `name` under `dir` (see `join_path`).
pub fn join(dir: &Vec<char>, name: &Vec<char>, sep: char) -> (r: Vec<char>)
    ensures
        r@ == join_path(dir@, name@, sep),
{
    if name.len() > 0 && name[0] == sep {
        return crate::text::copy_range(name, 0, name.len());
    }
    let mut r = crate::text::copy_range(dir, 0, dir.len());
    if dir.len() > 0 && dir[dir.len() - 1] != sep {
        r.push(sep);
    }
    let ghost head = r@;
    let mut i: usize = 0;
    while i < name.len()
        invariant
            i <= name@.len(),
            r@ == head + name@.take(i as int),
        decreases name@.len() - i,
    {
        r.push(name[i]);
        assert(name@.take(i + 1) =~= name@.take(i as int).push(name@[i as int]));
        i = i + 1;
    }
    assert(name@.take(name@.len() as int) =~= name@);
    assert(dir@.subrange(0, dir@.len() as int) =~= dir@);
    if dir.len() == 0 {
        assert(r@ =~= name@);
    }
    r
}

/// Whether `p` names a Dart source file (see `is_dart_file`).
pub fn is_dart(p: &Vec<char>, sep: char) -> (r: bool)
    ensures
        r == is_dart_file(p@, sep),
{
    let len: usize = p.len();
    proof {
        lemma_last_index_bounds(p@, sep);
    }
    let start: usize = match last_index(p, sep) {
        Some(k) => {
            assert(k < len);
            k + 1
        },
        None => 0,
    };
    let n: usize = p.len() - start;
    if n <= 5 {
        return false;
    }
    let ghost name = file_name_of(p@, sep);
    assert(name =~= p@.skip(start as int));
    let e: usize = p.len() - 5;
    let r = p[e] == '.' && p[e + 1] == 'd' && p[e + 2] == 'a' && p[e + 3] == 'r' && p[e + 4] == 't';
    assert(name.skip(name.len() - 5) =~= p@.skip(e as int));
    if r {
        assert(p@.skip(e as int) =~= seq!['.', 'd', 'a', 'r', 't']);
    } else {
        assert((p@.skip(e as int) != seq!['.', 'd', 'a', 'r', 't'])) by {
            let t = seq!['.', 'd', 'a', 'r', 't'];
            if p@.skip(e as int) == t {
                assert(p@.skip(e as int)[0] == t[0]);
                assert(p@.skip(e as int)[1] == t[1]);
                assert(p@.skip(e as int)[2] == t[2]);
                assert(p@.skip(e as int)[3] == t[3]);
                assert(p@.skip(e as int)[4] == t[4]);
            }
        }
    }
    r
}

} // verus!
