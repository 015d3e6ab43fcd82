//! The textual clean-up of a freshly written `build.yaml`: quotes dropped,
//! the project directory stripped, separators made forward slashes.

use vstd::prelude::*;
use crate::generator::BuildYamlGenerator;
use crate::text::{contains, occurs_at};

verus! {

/// `s` without the character `c`.
pub open spec fn drop_char(s: Seq<char>, c: char) -> Seq<char>
    decreases s.len(),
{
    if s.len() == 0 {
        s
    } else if s.last() == c {
        drop_char(s.drop_last(), c)
    } else {
        drop_char(s.drop_last(), c).push(s.last())
    }
}

/// `t` with every occurrence of `p` removed, scanning left to right, as
/// `str::replace(p, "")` does.
pub open spec fn remove_all(t: Seq<char>, p: Seq<char>) -> Seq<char>
    decreases t.len(),
{
    if p.len() == 0 || t.len() == 0 {
        t
    } else if t.len() >= p.len() && t.take(p.len() as int) == p {
        remove_all(t.skip(p.len() as int), p)
    } else {
        seq![t[0]] + remove_all(t.drop_first(), p)
    }
}

/// `s` with `from` replaced by `to`.
pub open spec fn replace_char(s: Seq<char>, from: char, to: char) -> Seq<char> {
    s.map_values(|x: char| if x == from { to } else { x })
}

/// The directory prefix that is stripped: the directory and a separator.
pub open spec fn dir_prefix(dir: Seq<char>, sep: char) -> Seq<char> {
    dir.push(sep)
}

/// The normalized text of the document.
pub open spec fn normalized(text: Seq<char>, dir: Seq<char>, sep: char) -> Seq<char> {
    replace_char(remove_all(drop_char(text, '\''), dir_prefix(dir, sep)), sep, '/')
}

/// Removes every `c` from `s`.
pub fn without_char(s: &Vec<char>, c: char) -> (r: Vec<char>)
    ensures
        r@ == drop_char(s@, c),
{
    let mut r: Vec<char> = Vec::new();
    let mut i: usize = 0;
    while i < s.len()
        invariant
            i <= s@.len(),
            r@ == drop_char(s@.take(i as int), c),
        decreases s@.len() - i,
    {
        assert(s@.take(i + 1).drop_last() =~= s@.take(i as int));
        if s[i] != c {
            r.push(s[i]);
        }
        i = i + 1;
    }
    assert(s@.take(s@.len() as int) =~= s@);
    r
}

/// Removes every occurrence of `p` from `t`, left to right.
pub fn remove_occurrences(t: &Vec<char>, p: &Vec<char>) -> (r: Vec<char>)
    requires
        p@.len() > 0,
    ensures
        r@ == remove_all(t@, p@),
{
    let n: usize = t.len();
    let mut r: Vec<char> = Vec::new();
    let mut i: usize = 0;
    assert(t@.skip(0) =~= t@);
    while i < n
        invariant
            n == t@.len(),
            p@.len() > 0,
            i <= n,
            r@ + remove_all(t@.skip(i as int), p@) == remove_all(t@, p@),
        decreases n - i,
    {
        let ghost rest = t@.skip(i as int);
        if crate::text::matches_at(t, p, i) {
            assert(rest.take(p@.len() as int) =~= t@.subrange(i as int, i + p@.len()));
            assert(rest.skip(p@.len() as int) =~= t@.skip(i + p@.len()));
            i = i + p.len();
        } else {
            assert(rest.len() >= p@.len() ==> rest.take(p@.len() as int) =~= t@.subrange(i as int, i + p@.len()));
            assert(rest.drop_first() =~= t@.skip(i + 1));
            let ghost before = r@;
            r.push(t[i]);
            assert(r@ + remove_all(t@.skip(i + 1), p@) =~= before + (seq![t@[i as int]] + remove_all(t@.skip(i + 1), p@)));
            i = i + 1;
        }
    }
    assert(remove_all(t@.skip(n as int), p@) =~= Seq::<char>::empty());
    assert(r@ + Seq::<char>::empty() =~= r@);
    r
}

/// Replaces every `from` in `s` by `to`.
pub fn replace_chars(s: &Vec<char>, from: char, to: char) -> (r: Vec<char>)
    ensures
        r@ == replace_char(s@, from, to),
{
    let mut r: Vec<char> = Vec::new();
    let mut i: usize = 0;
    while i < s.len()
        invariant
            i <= s@.len(),
            r@ == replace_char(s@.take(i as int), from, to),
        decreases s@.len() - i,
    {
        if s[i] == from {
            r.push(to);
        } else {
            r.push(s[i]);
        }
        assert(r@ =~= replace_char(s@.take(i + 1), from, to));
        i = i + 1;
    }
    assert(s@.take(s@.len() as int) =~= s@);
    r
}

proof fn lemma_drop_absent(s: Seq<char>, c: char)
    requires
        forall|i: int| 0 <= i < s.len() ==> s[i] != c,
    ensures
        drop_char(s, c) == s,
    decreases s.len(),
{
    if s.len() > 0 {
        lemma_drop_absent(s.drop_last(), c);
        assert(s.drop_last().push(s.last()) =~= s);
    }
}

proof fn lemma_drop_removes(s: Seq<char>, c: char)
    ensures
        forall|i: int| 0 <= i < drop_char(s, c).len() ==> drop_char(s, c)[i] != c,
    decreases s.len(),
{
    if s.len() > 0 {
        lemma_drop_removes(s.drop_last(), c);
        let r = drop_char(s.drop_last(), c);
        if s.last() != c {
            assert forall|i: int| 0 <= i < r.push(s.last()).len() implies r.push(s.last())[i] != c by {
                if i < r.len() {
                    assert(r.push(s.last())[i] == r[i]);
                }
            }
        }
    }
}

proof fn lemma_remove_keeps_absence(t: Seq<char>, p: Seq<char>, c: char)
    requires
        forall|i: int| 0 <= i < t.len() ==> t[i] != c,
    ensures
        forall|i: int| 0 <= i < remove_all(t, p).len() ==> remove_all(t, p)[i] != c,
    decreases t.len(),
{
    if p.len() == 0 || t.len() == 0 {
    } else if t.len() >= p.len() && t.take(p.len() as int) == p {
        assert forall|i: int| 0 <= i < t.skip(p.len() as int).len() implies t.skip(p.len() as int)[i] != c by {
            assert(t.skip(p.len() as int)[i] == t[i + p.len()]);
        }
        lemma_remove_keeps_absence(t.skip(p.len() as int), p, c);
        assert(remove_all(t, p) == remove_all(t.skip(p.len() as int), p));
    } else {
        assert forall|i: int| 0 <= i < t.drop_first().len() implies t.drop_first()[i] != c by {
            assert(t.drop_first()[i] == t[i + 1]);
        }
        lemma_remove_keeps_absence(t.drop_first(), p, c);
        let r = remove_all(t.drop_first(), p);
        assert(remove_all(t, p) == seq![t[0]] + r);
        assert forall|i: int| 0 <= i < (seq![t[0]] + r).len() implies (seq![t[0]] + r)[i] != c by {
            if i > 0 {
                assert((seq![t[0]] + r)[i] == r[i - 1]);
            }
        }
    }
}

proof fn lemma_remove_absent(t: Seq<char>, p: Seq<char>)
    requires
        !contains(t, p),
    ensures
        remove_all(t, p) == t,
    decreases t.len(),
{
    if p.len() == 0 || t.len() == 0 {
    } else {
        if t.len() >= p.len() && t.take(p.len() as int) == p {
            assert(t.subrange(0, p.len() as int) =~= t.take(p.len() as int));
            assert(occurs_at(t, p, 0));
        }
        assert(!contains(t.drop_first(), p)) by {
            if contains(t.drop_first(), p) {
                let j = choose|j: int| occurs_at(t.drop_first(), p, j);
                assert(t.subrange(j + 1, j + 1 + p.len()) =~= t.drop_first().subrange(j, j + p.len()));
                assert(occurs_at(t, p, j + 1));
            }
        }
        lemma_remove_absent(t.drop_first(), p);
        assert(seq![t[0]] + t.drop_first() =~= t);
    }
}

/// Normalizing a normalized text changes nothing, wherever the normalized text
/// holds no directory prefix: the only texts on which a second pass could still
/// remove something.
pub proof fn lemma_normalize_idempotent(text: Seq<char>, dir: Seq<char>, sep: char)
    requires
        !contains(normalized(text, dir, sep), dir_prefix(dir, sep)),
    ensures
        normalized(normalized(text, dir, sep), dir, sep) == normalized(text, dir, sep),
{
    let a = drop_char(text, '\'');
    let b = remove_all(a, dir_prefix(dir, sep));
    let n = normalized(text, dir, sep);
    lemma_drop_removes(text, '\'');
    lemma_remove_keeps_absence(a, dir_prefix(dir, sep), '\'');
    assert forall|i: int| 0 <= i < n.len() implies n[i] != '\'' by {
        assert(b[i] != '\'');
    }
    lemma_drop_absent(n, '\'');
    lemma_remove_absent(n, dir_prefix(dir, sep));
    assert(replace_char(n, sep, '/') =~= n);
}

/// With a separator other than `/`, normalizing twice is normalizing once.
pub proof fn lemma_normalize_idempotent_native(text: Seq<char>, dir: Seq<char>, sep: char)
    requires
        sep != '/',
    ensures
        normalized(normalized(text, dir, sep), dir, sep) == normalized(text, dir, sep),
{
    let n = normalized(text, dir, sep);
    let p = dir_prefix(dir, sep);
    assert(!contains(n, p)) by {
        if contains(n, p) {
            let j = choose|j: int| occurs_at(n, p, j);
            assert(n.subrange(j, j + p.len())[p.len() - 1] == p[p.len() - 1]);
            assert(n[j + p.len() - 1] == sep);
        }
    }
    lemma_normalize_idempotent(text, dir, sep);
}

impl BuildYamlGenerator {
    /// The normalized form of the written document's text (see `normalized`).
    pub fn format_build_yaml(&self, content: &str) -> (r: String)
        ensures
            r@ == normalized(content@, self.working_dir@, self.separator),
    {
        let text = crate::text::chars_of(content);
        let mut prefix = crate::text::chars_of(self.working_dir.as_str());
        prefix.push(self.separator);
        let a = without_char(&text, '\'');
        let b = remove_occurrences(&a, &prefix);
        let c = replace_chars(&b, self.separator, '/');
        crate::text::string_of(&c)
    }
}

} // verus!
