//! The configuration document as a tree, and the replacement of one field
//! reached by a path of mapping keys.

use vstd::prelude::*;

verus! {

/// A node of a YAML document.
pub enum YamlNode {
    Null,
    Bool(bool),
    /// A number, as it is written.
    Number(String),
    Str(String),
    Sequence(Vec<YamlNode>),
    Mapping(Vec<(YamlNode, YamlNode)>),
    Tagged(String, Box<YamlNode>),
}

/// `k` is the string key `key`.
pub open spec fn key_is(k: YamlNode, key: Seq<char>) -> bool {
    match k {
        YamlNode::Str(s) => s@ == key,
        _ => false,
    }
}

/// The keys of a mapping's entries.
pub open spec fn entry_keys(es: Seq<(YamlNode, YamlNode)>) -> Seq<YamlNode> {
    es.map_values(|e: (YamlNode, YamlNode)| e.0)
}

/// The position of the first key that is `key`.
pub open spec fn first_key(ks: Seq<YamlNode>, key: Seq<char>) -> Option<int> {
    if exists|i: int| 0 <= i < ks.len() && key_is(ks[i], key) {
        Some(
            choose|i: int|
                0 <= i < ks.len() && key_is(ks[i], key) && forall|j: int|
                    0 <= j < i ==> !key_is(ks[j], key),
        )
    } else {
        None
    }
}

/// The position of the first entry keyed `key`.
pub open spec fn key_index(es: Seq<(YamlNode, YamlNode)>, key: Seq<char>) -> Option<int> {
    first_key(entry_keys(es), key)
}

/// The node reached from `node` by the mapping keys of `path`, looking through tags.
#[verifier::opaque]
pub open spec fn get_path(node: YamlNode, path: Seq<Seq<char>>) -> Option<YamlNode>
    decreases path.len(), node,
{
    if path.len() == 0 {
        Some(node)
    } else {
        match node {
            YamlNode::Tagged(_, inner) => get_path(*inner, path),
            YamlNode::Mapping(es) => match key_index(es@, path[0]) {
                Some(i) => if 0 <= i < es@.len() {
                    get_path(es@[i].1, path.drop_first())
                } else {
                    None
                },
                None => None,
            },
            _ => None,
        }
    }
}

fn find_key(es: &Vec<(YamlNode, YamlNode)>, key: &str) -> (r: Option<usize>)
    ensures
        match r {
            Some(i) => key_index(es@, key@) == Some(i as int) && i < es@.len(),
            None => key_index(es@, key@) is None,
        },
{
    let mut i: usize = 0;
    while i < es.len()
        invariant
            i <= es@.len(),
            forall|j: int| 0 <= j < i ==> !key_is(entry_keys(es@)[j], key@),
        decreases es@.len() - i,
    {
        let hit = match &es[i].0 {
            YamlNode::Str(s) => crate::text::same_text(s.as_str(), key),
            _ => false,
        };
        if hit {
            proof {
                let ks = entry_keys(es@);
                assert(key_is(ks[i as int], key@));
                let c = choose|c: int|
                    0 <= c < ks.len() && key_is(ks[c], key@) && forall|j: int|
                        0 <= j < c ==> !key_is(ks[j], key@);
                if c > i {
                    assert(!key_is(ks[i as int], key@));
                }
            }
            return Some(i);
        }
        i = i + 1;
    }
    proof {
        let ks = entry_keys(es@);
        assert forall|j: int| 0 <= j < ks.len() implies !key_is(ks[j], key@) by {
            assert(!key_is(entry_keys(es@)[j], key@));
        }
    }
    None
}

/// Neither path is a prefix of the other.
pub open spec fn diverge(p: Seq<Seq<char>>, q: Seq<Seq<char>>) -> bool {
    exists|w: int| 0 <= w < p.len() && w < q.len() && p[w] != q[w]
}

proof fn lemma_first_key_exists(ks: Seq<YamlNode>, key: Seq<char>, i: int)
    requires
        0 <= i < ks.len(),
        key_is(ks[i], key),
    ensures
        exists|m: int| 0 <= m < ks.len() && key_is(ks[m], key) && forall|j: int| 0 <= j < m ==> !key_is(ks[j], key),
    decreases i,
{
    if exists|j: int| 0 <= j < i && key_is(ks[j], key) {
        let j = choose|j: int| 0 <= j < i && key_is(ks[j], key);
        lemma_first_key_exists(ks, key, j);
    } else {
        assert(forall|j: int| 0 <= j < i ==> !key_is(ks[j], key));
    }
}

proof fn lemma_key_index(es: Seq<(YamlNode, YamlNode)>, key: Seq<char>)
    ensures
        key_index(es, key) matches Some(j) ==> 0 <= j < es.len() && key_is(es[j].0, key),
{
    let ks = entry_keys(es);
    assert(ks.len() == es.len());
    if exists|i: int| 0 <= i < ks.len() && key_is(ks[i], key) {
        let i = choose|i: int| 0 <= i < ks.len() && key_is(ks[i], key);
        lemma_first_key_exists(ks, key, i);
        let j = key_index(es, key)->Some_0;
        assert(ks[j] == es[j].0);
    }
}

proof fn lemma_get_mapping(node: YamlNode, q: Seq<Seq<char>>)
    requires
        node is Mapping,
        q.len() > 0,
    ensures
        get_path(node, q) == match key_index(node->Mapping_0@, q[0]) {
            Some(j) => if 0 <= j < node->Mapping_0@.len() {
                get_path(node->Mapping_0@[j].1, q.drop_first())
            } else {
                None
            },
            None => None,
        },
{
    reveal(get_path);
}

proof fn lemma_get_tagged(t: String, inner: YamlNode, q: Seq<Seq<char>>)
    ensures
        get_path(YamlNode::Tagged(t, Box::new(inner)), q) == if q.len() == 0 {
            Some(YamlNode::Tagged(t, Box::new(inner)))
        } else {
            get_path(inner, q)
        },
{
    reveal(get_path);
}

proof fn lemma_get_empty(node: YamlNode, q: Seq<Seq<char>>)
    requires
        q.len() == 0,
    ensures
        get_path(node, q) == Some(node),
{
    reveal(get_path);
}

proof fn lemma_get_other(node: YamlNode, q: Seq<Seq<char>>)
    requires
        q.len() > 0,
        !(node is Mapping),
        !(node is Tagged),
    ensures
        get_path(node, q) is None,
{
    reveal(get_path);
}

#[verifier::rlimit(100)]
proof fn lemma_sibling(
    old_node: YamlNode,
    new_node: YamlNode,
    i: int,
    p: Seq<Seq<char>>,
    q: Seq<Seq<char>>,
    child2: YamlNode,
)
    requires
        old_node is Mapping,
        new_node is Mapping,
        0 <= i < old_node->Mapping_0@.len(),
        new_node->Mapping_0@ == old_node->Mapping_0@.update(i, (old_node->Mapping_0@[i].0, child2)),
        p.len() > 0,
        key_index(old_node->Mapping_0@, p[0]) == Some(i),
        diverge(p, q),
        diverge(p.drop_first(), q.drop_first()) ==> get_path(child2, q.drop_first()) == get_path(
            old_node->Mapping_0@[i].1,
            q.drop_first(),
        ),
    ensures
        get_path(new_node, q) == get_path(old_node, q),
{
    let oes = old_node->Mapping_0@;
    let nes = new_node->Mapping_0@;
    assert(entry_keys(nes) =~= entry_keys(oes));
    let w = choose|w: int| 0 <= w < p.len() && w < q.len() && p[w] != q[w];
    lemma_get_mapping(old_node, q);
    lemma_get_mapping(new_node, q);
    lemma_key_index(oes, q[0]);
    lemma_key_index(oes, p[0]);
    if let Some(j) = key_index(oes, q[0]) {
        if j == i {
            assert(q[0] == p[0]) by {
                match oes[i].0 {
                    YamlNode::Str(s) => {},
                    _ => {},
                }
            }
            assert(w >= 1);
            assert(p.drop_first()[w - 1] != q.drop_first()[w - 1]);
        } else {
            assert(nes[j] == oes[j]);
        }
    }
}

proof fn lemma_mapping_frame(
    old_node: YamlNode,
    new_node: YamlNode,
    i: int,
    p: Seq<Seq<char>>,
    child2: YamlNode,
)
    requires
        old_node is Mapping,
        new_node is Mapping,
        0 <= i < old_node->Mapping_0@.len(),
        new_node->Mapping_0@ == old_node->Mapping_0@.update(i, (old_node->Mapping_0@[i].0, child2)),
        p.len() > 0,
        key_index(old_node->Mapping_0@, p[0]) == Some(i),
        forall|q: Seq<Seq<char>>|
            diverge(p.drop_first(), q) ==> #[trigger] get_path(child2, q) == get_path(old_node->Mapping_0@[i].1, q),
    ensures
        forall|q: Seq<Seq<char>>| diverge(p, q) ==> #[trigger] get_path(new_node, q) == get_path(old_node, q),
{
    assert forall|q: Seq<Seq<char>>| diverge(p, q) implies #[trigger] get_path(new_node, q) == get_path(old_node, q) by {
        if diverge(p.drop_first(), q.drop_first()) {
            assert(get_path(child2, q.drop_first()) == get_path(old_node->Mapping_0@[i].1, q.drop_first()));
        }
        lemma_sibling(old_node, new_node, i, p, q, child2);
    }
}

proof fn lemma_tagged_frame(t: String, old_inner: YamlNode, r: YamlNode, p: Seq<Seq<char>>)
    requires
        forall|q: Seq<Seq<char>>| diverge(p, q) ==> #[trigger] get_path(r, q) == get_path(old_inner, q),
    ensures
        forall|q: Seq<Seq<char>>|
            diverge(p, q) ==> #[trigger] get_path(YamlNode::Tagged(t, Box::new(r)), q) == get_path(
                YamlNode::Tagged(t, Box::new(old_inner)),
                q,
            ),
{
    assert forall|q: Seq<Seq<char>>| diverge(p, q) implies #[trigger] get_path(YamlNode::Tagged(t, Box::new(r)), q) == get_path(
        YamlNode::Tagged(t, Box::new(old_inner)),
        q,
    ) by {
        lemma_get_tagged(t, r, q);
        lemma_get_tagged(t, old_inner, q);
        assert(get_path(r, q) == get_path(old_inner, q));
    }
}

/// Whether a node stands at `path[depth..]` below `node`.
#[verifier::rlimit(100)]
pub fn has_path(node: &YamlNode, path: &Vec<String>, depth: usize) -> (r: bool)
    requires
        depth <= path@.len(),
    ensures
        r == get_path(*node, views(path@).skip(depth as int)) is Some,
    decreases path@.len() - depth, *node,
{
    proof {
        reveal(get_path);
    }
    if depth == path.len() {
        return true;
    }
    let ghost p = views(path@).skip(depth as int);
    assert(views(path@).skip(depth + 1) =~= p.drop_first());
    match node {
        YamlNode::Tagged(_, inner) => has_path(inner, path, depth),
        YamlNode::Mapping(es) => {
            let k = find_key(es, path[depth].as_str());
            assert(p[0] == path@[depth as int]@);
            match k {
                Some(i) => has_path(&es[i].1, path, depth + 1),
                None => false,
            }
        },
        _ => false,
    }
}

/// `node` with the node at `path` replaced by `value`, where such a node
/// exists; otherwise `node` as it was. Nodes at paths that diverge from `path`
/// keep their values.
pub fn set_path(node: YamlNode, path: &Vec<String>, value: YamlNode) -> (r: YamlNode)
    ensures
        get_path(node, views(path@)) is Some ==> get_path(r, views(path@)) == Some(value),
        get_path(node, views(path@)) is None ==> r == node,
        forall|q: Seq<Seq<char>>| diverge(views(path@), q) ==> #[trigger] get_path(r, q) == get_path(node, q),
{
    assert(views(path@).skip(0) =~= views(path@));
    if has_path(&node, path, 0) {
        replace_at(node, path, 0, value)
    } else {
        node
    }
}

/// Replaces the node at `path[depth..]` below `node`, which exists, by `value`.
#[verifier::rlimit(100)]
fn replace_at(node: YamlNode, path: &Vec<String>, depth: usize, value: YamlNode) -> (r: YamlNode)
    requires
        depth <= path@.len(),
        get_path(node, views(path@).skip(depth as int)) is Some,
    ensures
        get_path(r, views(path@).skip(depth as int)) == Some(value),
        forall|q: Seq<Seq<char>>|
            diverge(views(path@).skip(depth as int), q) ==> #[trigger] get_path(r, q) == get_path(node, q),
    decreases path@.len() - depth, node,
{
    let ghost p = views(path@).skip(depth as int);
    let ghost node0 = node;
    if depth == path.len() {
        proof {
            lemma_get_empty(value, p);
        }
        return value;
    }
    assert(p.len() > 0);
    proof {
        if node0 is Mapping {
            lemma_get_mapping(node0, p);
        } else if !(node0 is Tagged) {
            lemma_get_other(node0, p);
        }
    }
    assert(views(path@).skip(depth + 1) =~= p.drop_first());
    assert(p[0] == path@[depth as int]@);
    match node {
        YamlNode::Tagged(t, inner) => {
            let ghost old_inner = *inner;
            proof {
                lemma_get_tagged(t, old_inner, p);
            }
            let r = replace_at(*inner, path, depth, value);
            let r2 = YamlNode::Tagged(t, Box::new(r));
            proof {
                assert(node0 == YamlNode::Tagged(r2->Tagged_0, Box::new(old_inner)));
                assert(r2 == YamlNode::Tagged(r2->Tagged_0, Box::new(r)));
                lemma_get_tagged(r2->Tagged_0, r, p);
                assert(get_path(r, p) == Some(value));
                assert(get_path(r2, p) == Some(value));
                lemma_tagged_frame(r2->Tagged_0, old_inner, r, p);
            }
            r2
        },
        YamlNode::Mapping(mut es) => {
            let ghost old_es = es@;
            match find_key(&es, path[depth].as_str()) {
                Some(i) => {
                    let (k, child) = es.remove(i);
                    let child2 = replace_at(child, path, depth + 1, value);
                    es.insert(i, (k, child2));
                    let r = YamlNode::Mapping(es);
                    proof {
                        assert(r->Mapping_0@ =~= old_es.update(i as int, (old_es[i as int].0, child2)));
                        assert(entry_keys(r->Mapping_0@) =~= entry_keys(old_es));
                        lemma_key_index(old_es, p[0]);
                        lemma_mapping_frame(node0, r, i as int, p, child2);
                        lemma_get_mapping(r, p);
                    }
                    r
                },
                None => YamlNode::Mapping(es),
            }
        },
        other => other,
    }
}

/// The views of a list of strings.
pub open spec fn views(v: Seq<String>) -> Seq<Seq<char>> {
    v.map_values(|s: String| s@)
}

/// The path of a builder's `generate_for` list.
pub open spec fn generate_for_path_of(key: Seq<char>) -> Seq<Seq<char>> {
    seq!["targets"@, "$default"@, "builders"@, key, "generate_for"@]
}

/// `n` is a sequence of the strings `items`, in order.
pub open spec fn is_string_list(n: YamlNode, items: Seq<Seq<char>>) -> bool {
    match n {
        YamlNode::Sequence(v) => v@.len() == items.len() && forall|i: int|
            0 <= i < items.len() ==> (#[trigger] v@[i] matches YamlNode::Str(s) && s@ == items[i]),
        _ => false,
    }
}

/// `b` is `a` with the `generate_for` list of builder `key` set to `items`,
/// where `a` has that list; otherwise `b` is `a`. Nodes at paths that diverge
/// from that list's path are the same in both.
pub open spec fn field_set(a: YamlNode, key: Seq<char>, items: Seq<Seq<char>>, b: YamlNode) -> bool {
    &&& forall|q: Seq<Seq<char>>| diverge(generate_for_path_of(key), q) ==> #[trigger] get_path(b, q) == get_path(a, q)
    &&& get_path(a, generate_for_path_of(key)) is Some ==> (get_path(b, generate_for_path_of(key)) matches Some(n) && is_string_list(n, items))
    &&& get_path(a, generate_for_path_of(key)) is None ==> b == a
}

/// The path of builder `key`'s `generate_for` list.
pub fn generate_for_path(key: &str) -> (r: Vec<String>)
    ensures
        views(r@) == generate_for_path_of(key@),
{
    let mut r: Vec<String> = Vec::new();
    r.push(String::from_str("targets"));
    r.push(String::from_str("$default"));
    r.push(String::from_str("builders"));
    r.push(String::from_str(key));
    r.push(String::from_str("generate_for"));
    assert(views(r@) =~= generate_for_path_of(key@));
    r
}

/// A sequence node of the strings `items`.
pub fn string_list(items: Vec<String>) -> (r: YamlNode)
    ensures
        is_string_list(r, views(items@)),
{
    let mut v: Vec<YamlNode> = Vec::new();
    let mut items = items;
    let ghost all = views(items@);
    assert(all.skip(0) =~= all);
    while items.len() > 0
        invariant
            v@.len() + views(items@).len() == all.len(),
            views(items@) == all.skip(v@.len() as int),
            forall|k: int| 0 <= k < v@.len() ==> (#[trigger] v@[k] matches YamlNode::Str(s) && s@ == all[k]),
        decreases items@.len(),
    {
        let ghost old_items = items@;
        let s = items.remove(0);
        let ghost n = v@.len() as int;
        assert(views(old_items)[0] == s@);
        assert(all[n] == all.skip(n)[0]);
        assert(views(items@) =~= views(old_items).drop_first());
        assert(views(items@) =~= all.skip(n + 1));
        let ghost before = v@;
        v.push(YamlNode::Str(s));
        assert forall|k: int| 0 <= k < v@.len() implies (#[trigger] v@[k] matches YamlNode::Str(t) && t@ == all[k]) by {
            if k < n {
                assert(v@[k] == before[k]);
            }
        }
    }
    YamlNode::Sequence(v)
}

/// `doc` with the `generate_for` list of builder `builder_key` replaced by
/// `items`, where the document has that list; otherwise `doc` unchanged.
pub fn apply_generate_for(doc: YamlNode, builder_key: &str, items: Vec<String>) -> (r: YamlNode)
    ensures
        field_set(doc, builder_key@, views(items@), r),
{
    let path = generate_for_path(builder_key);
    let node = string_list(items);
    set_path(doc, &path, node)
}

/// A list written into a document that has the builder's `generate_for` field
/// reads back from it as the same strings, in the same order.
pub proof fn lemma_written_list_reads_back(
    a: YamlNode,
    key: Seq<char>,
    items: Seq<Seq<char>>,
    b: YamlNode,
)
    requires
        field_set(a, key, items, b),
        get_path(a, generate_for_path_of(key)) is Some,
    ensures
        get_path(b, generate_for_path_of(key)) matches Some(n) && is_string_list(n, items),
{
}

/// Setting one builder's `generate_for` list leaves every other builder's
/// list as it was.
pub proof fn lemma_other_builders_untouched(
    a: YamlNode,
    key: Seq<char>,
    items: Seq<Seq<char>>,
    b: YamlNode,
    other: Seq<char>,
)
    requires
        field_set(a, key, items, b),
        other != key,
    ensures
        get_path(b, generate_for_path_of(other)) == get_path(a, generate_for_path_of(other)),
{
    assert(generate_for_path_of(key)[3] != generate_for_path_of(other)[3]);
    assert(diverge(generate_for_path_of(key), generate_for_path_of(other)));
}

} // verus!
