//! Finding the files that carry an annotation, and the file that each one
//! hands its generated code to.

use vstd::prelude::*;
use crate::document::{
    apply_generate_for, field_set, generate_for_path_of, get_path, lemma_other_builders_untouched,
    views, YamlNode,
};
use crate::paths::{is_dart_file, join_path, parent_of};
use crate::registry::{
    all_kinds, builder_key_of, is_registry_pattern, is_rule_for, pattern_of, regex_is_match,
    AnnotationPattern, AnnotationType, Matcher, PatternRegistry,
};
use crate::text::{contains, first_occurrence, occurs_at, trimmed};

verus! {

/// A file met while walking the project, with its text where it could be read.
pub struct SourceFile {
    pub path: String,
    pub content: Option<String>,
}

/// Why a scan could not be made.
pub enum ScanError {
    /// The kind's pattern did not compile.
    InvalidPattern(regex::Error),
}

/// Brings a project's `build.yaml` in line with the annotations in its sources.
pub struct BuildYamlGenerator {
    pub working_dir: String,
    pub build_yaml_path: String,
    pub separator: char,
}

/// The marker of a fragment declaration.
pub open spec fn part_marker() -> Seq<char> {
    "part of "@
}

/// The file that receives the generated code of `path`: the sibling named by a
/// `part of <name>;` clause in `content`, else `path` itself.
pub open spec fn resolve_owner(path: Seq<char>, content: Seq<char>, sep: char) -> Seq<char> {
    match first_occurrence(content, part_marker()) {
        Some(i) => {
            let after = content.skip(i + part_marker().len());
            match first_occurrence(after, seq![';']) {
                Some(e) => join_path(parent_of(path, sep), trimmed(after.take(e)), sep),
                None => path,
            }
        },
        None => path,
    }
}

/// `s` between double quotes.
pub open spec fn quoted(s: Seq<char>) -> Seq<char> {
    seq!['"'] + s + seq!['"']
}

/// The file is a readable Dart source whose text the pattern matches.
pub open spec fn selects(f: SourceFile, pattern: Seq<char>, sep: char) -> bool {
    is_dart_file(f.path@, sep) && match f.content {
        Some(c) => regex_is_match(pattern, c@),
        None => false,
    }
}

/// The quoted owners of the selected files, in the order of `files`.
pub open spec fn selected(files: Seq<SourceFile>, pattern: Seq<char>, sep: char) -> Seq<Seq<char>>
    decreases files.len(),
{
    if files.len() == 0 {
        Seq::empty()
    } else {
        let f = files.last();
        let rest = selected(files.drop_last(), pattern, sep);
        if selects(f, pattern, sep) {
            rest.push(quoted(resolve_owner(f.path@, f.content.unwrap()@, sep)))
        } else {
            rest
        }
    }
}

/// `a` comes no later than `b` in lexicographic order of characters.
pub open spec fn lex_le(a: Seq<char>, b: Seq<char>) -> bool
    decreases a.len(),
{
    a.len() == 0 || (b.len() > 0 && ((a[0] as u32) < (b[0] as u32) || (a[0] == b[0] && lex_le(
        a.drop_first(),
        b.drop_first(),
    ))))
}

/// Each string comes no later than those after it.
pub open spec fn is_sorted(v: Seq<Seq<char>>) -> bool {
    forall|i: int, j: int| 0 <= i < j < v.len() ==> lex_le(v[i], v[j])
}

/// Relies on `slice::sort`: the same strings, ordered; `String`'s order is the
/// order of its UTF-8 bytes, which is the order of its characters.
#[verifier::external_body]
fn sort_strings(v: &mut Vec<String>)
    ensures
        views(final(v)@).to_multiset() == views(old(v)@).to_multiset(),
        is_sorted(views(final(v)@)),
{
    v.sort();
}

/// `s` between double quotes.
pub fn quote(s: &str) -> (r: String)
    ensures
        r@ == quoted(s@),
{
    let chars = crate::text::chars_of(s);
    let mut q: Vec<char> = Vec::new();
    q.push('"');
    let mut k: usize = 0;
    while k < chars.len()
        invariant
            k <= chars@.len(),
            q@ == seq!['"'] + chars@.take(k as int),
        decreases chars@.len() - k,
    {
        q.push(chars[k]);
        assert(chars@.take(k + 1) =~= chars@.take(k as int).push(chars@[k as int]));
        k = k + 1;
    }
    q.push('"');
    assert(chars@.take(chars@.len() as int) =~= chars@);
    assert(q@ =~= quoted(chars@));
    crate::text::string_of(&q)
}

/// `b` is `a` after the scan for `kind`: its builder's list set to the sorted
/// owners that the scan selects.
pub open spec fn scan_step(
    a: YamlNode,
    kind: AnnotationType,
    files: Seq<SourceFile>,
    sep: char,
    b: YamlNode,
) -> bool {
    exists|items: Seq<Seq<char>>|
        items.to_multiset() == selected(files, pattern_of(kind), sep).to_multiset() && is_sorted(items)
            && field_set(a, builder_key_of(kind), items, b)
}

/// A file whose text opens with `part of <name>;` hands its generated code to
/// the sibling file `<name>`, not to itself.
#[verifier::rlimit(50)]
pub proof fn lemma_part_of_names_sibling(path: Seq<char>, name: Seq<char>, rest: Seq<char>, sep: char)
    requires
        forall|i: int| 0 <= i < name.len() ==> name[i] != ';',
        trimmed(name) == name,
    ensures
        resolve_owner(path, part_marker() + name + seq![';'] + rest, sep) == join_path(
            parent_of(path, sep),
            name,
            sep,
        ),
{
    let m = part_marker();
    let c = m + name + seq![';'] + rest;
    assert(c.subrange(0, m.len() as int) =~= m);
    assert(occurs_at(c, m, 0));
    let k = choose|k: int| occurs_at(c, m, k) && forall|j: int| 0 <= j < k ==> !occurs_at(c, m, j);
    assert(k == 0);
    let after = c.skip(m.len() as int);
    assert(after =~= name + seq![';'] + rest);
    let semi = seq![';'];
    assert(after.subrange(name.len() as int, name.len() as int + 1) =~= semi);
    assert(occurs_at(after, semi, name.len() as int));
    assert forall|j: int| 0 <= j < name.len() implies !occurs_at(after, semi, j) by {
        assert(after[j] == name[j]);
        if occurs_at(after, semi, j) {
            assert(after.subrange(j, j + 1)[0] == semi[0]);
        }
    }
    let e = choose|e: int| occurs_at(after, semi, e) && forall|j: int| 0 <= j < e ==> !occurs_at(after, semi, j);
    assert(e == name.len());
    assert(after.take(e) =~= name);
}

/// A file without a fragment declaration, or whose declaration has no `;`
/// after it, hands its generated code to itself.
pub proof fn lemma_no_part_of_is_self(path: Seq<char>, content: Seq<char>, sep: char)
    requires
        match first_occurrence(content, part_marker()) {
            Some(i) => !contains(content.skip(i + part_marker().len()), seq![';']),
            None => true,
        },
    ensures
        resolve_owner(path, content, sep) == path,
{
}

proof fn lemma_step_keeps_other(
    a: YamlNode,
    kind: AnnotationType,
    files: Seq<SourceFile>,
    sep: char,
    b: YamlNode,
    other: Seq<char>,
)
    requires
        scan_step(a, kind, files, sep, b),
        other != builder_key_of(kind),
    ensures
        get_path(b, generate_for_path_of(other)) == get_path(a, generate_for_path_of(other)),
{
    let items = choose|items: Seq<Seq<char>>|
        items.to_multiset() == selected(files, pattern_of(kind), sep).to_multiset() && is_sorted(items)
            && field_set(a, builder_key_of(kind), items, b);
    lemma_other_builders_untouched(a, builder_key_of(kind), items, b, other);
}

/// In a full update, the scan of each kind leaves the lists that the scans
/// before it wrote: every builder ends with the list of its own scan.
pub proof fn lemma_later_scans_keep_earlier_lists(
    doc: YamlNode,
    d1: YamlNode,
    d2: YamlNode,
    r: YamlNode,
    files: Seq<SourceFile>,
    sep: char,
)
    requires
        scan_step(doc, all_kinds()[0], files, sep, d1),
        scan_step(d1, all_kinds()[1], files, sep, d2),
        scan_step(d2, all_kinds()[2], files, sep, r),
    ensures
        get_path(r, generate_for_path_of(builder_key_of(all_kinds()[0]))) == get_path(
            d1,
            generate_for_path_of(builder_key_of(all_kinds()[0])),
        ),
        get_path(r, generate_for_path_of(builder_key_of(all_kinds()[1]))) == get_path(
            d2,
            generate_for_path_of(builder_key_of(all_kinds()[1])),
        ),
{
    reveal_strlit("copy_with_extension_gen");
    reveal_strlit("json_serializable");
    reveal_strlit("hive_generator");
    let k0 = builder_key_of(AnnotationType::CopyWith);
    let k1 = builder_key_of(AnnotationType::JsonSerializable);
    let k2 = builder_key_of(AnnotationType::Hive);
    assert(k0.len() != k1.len() && k0.len() != k2.len());
    assert(k1[0] != k2[0]);
    lemma_step_keeps_other(d1, all_kinds()[1], files, sep, d2, k0);
    lemma_step_keeps_other(d2, all_kinds()[2], files, sep, r, k0);
    lemma_step_keeps_other(d2, all_kinds()[2], files, sep, r, k1);
}

impl BuildYamlGenerator {
    /// A generator for the project at `working_dir`, whose configuration is
    /// `build.yaml` there; `separator` is the platform's path separator.
    pub fn new(working_dir: String, separator: char) -> (r: Self)
        ensures
            r.working_dir@ == working_dir@,
            r.separator == separator,
            r.build_yaml_path@ == join_path(working_dir@, "build.yaml"@, separator),
    {
        let dir = crate::text::chars_of(working_dir.as_str());
        let name = crate::text::chars_of("build.yaml");
        let build_yaml_path = crate::text::string_of(&crate::paths::join(&dir, &name, separator));
        Self { working_dir, build_yaml_path, separator }
    }

    /// The file that receives the generated code of `file_path` (see `resolve_owner`).
    pub fn process_part_of(&self, file_path: &str, content: &str) -> (r: String)
        ensures
            r@ == resolve_owner(file_path@, content@, self.separator),
    {
        let text = crate::text::chars_of(content);
        let marker = crate::text::chars_of("part of ");
        let path = crate::text::chars_of(file_path);
        let n: usize = text.len();
        if let Some(idx) = crate::text::find(&text, &marker) {
            assert(idx + marker@.len() <= n);
            let after = crate::text::copy_range(&text, idx + marker.len(), text.len());
            assert(after@ =~= text@.skip(idx + part_marker().len()));
            let mut semi: Vec<char> = Vec::new();
            semi.push(';');
            assert(semi@ =~= seq![';']);
            if let Some(end_idx) = crate::text::find(&after, &semi) {
                let name = crate::text::trim(&crate::text::copy_range(&after, 0, end_idx));
                assert(after@.subrange(0, end_idx as int) =~= after@.take(end_idx as int));
                let dir = crate::paths::parent(&path, self.separator);
                return crate::text::string_of(&crate::paths::join(&dir, &name, self.separator));
            }
        }
        crate::text::string_of(&path)
    }

    /// Whether `path` names a Dart source file, the only files a scan reads.
    pub fn is_source_file(&self, path: &str) -> (r: bool)
        ensures
            r == is_dart_file(path@, self.separator),
    {
        crate::paths::is_dart(&crate::text::chars_of(path), self.separator)
    }

    /// The quoted owner of `f` where `matcher` selects it.
    fn entry_for(&self, matcher: &Matcher, f: &SourceFile) -> (r: Option<String>)
        ensures
            r is Some <==> selects(*f, matcher.source(), self.separator),
            r matches Some(s) ==> s@ == quoted(
                resolve_owner(f.path@, f.content.unwrap()@, self.separator),
            ),
    {
        let path = crate::text::chars_of(f.path.as_str());
        if !crate::paths::is_dart(&path, self.separator) {
            return None;
        }
        match &f.content {
            Some(c) => {
                if matcher.is_match(c.as_str()) {
                    Some(quote(self.process_part_of(f.path.as_str(), c.as_str()).as_str()))
                } else {
                    None
                }
            },
            None => None,
        }
    }

    /// The quoted owners of the files that `matcher` selects, sorted.
    pub fn select_annotated(&self, matcher: &Matcher, files: &Vec<SourceFile>) -> (r: Vec<String>)
        ensures
            views(r@).to_multiset() == selected(files@, matcher.source(), self.separator).to_multiset(),
            is_sorted(views(r@)),
    {
        let mut out: Vec<String> = Vec::new();
        let mut i: usize = 0;
        while i < files.len()
            invariant
                i <= files@.len(),
                views(out@) == selected(files@.take(i as int), matcher.source(), self.separator),
            decreases files@.len() - i,
        {
            assert(files@.take(i + 1).drop_last() =~= files@.take(i as int));
            assert(files@.take(i + 1).last() == files@[i as int]);
            match self.entry_for(matcher, &files[i]) {
                Some(s) => {
                    let ghost before = out@;
                    out.push(s);
                    assert(views(out@) =~= views(before).push(s@));
                },
                None => {},
            }
            i = i + 1;
        }
        assert(files@.take(files@.len() as int) =~= files@);
        sort_strings(&mut out);
        out
    }

    /// The sorted, quoted owners of the files carrying `annotation_type`'s
    /// annotation. Every kind's pattern compiles, so the scan always succeeds.
    pub fn find_files_with_annotation(
        &self,
        annotation_type: &AnnotationType,
        files: &Vec<SourceFile>,
    ) -> (r: Result<Vec<String>, ScanError>)
        ensures
            r is Ok,
            r matches Ok(v) ==> views(v@).to_multiset() == selected(
                files@,
                pattern_of(*annotation_type),
                self.separator,
            ).to_multiset() && is_sorted(views(v@)),
    {
        let rule = PatternRegistry::get_pattern(annotation_type).unwrap();
        assert(is_registry_pattern(rule.pattern@));
        match rule.compile() {
            Ok(m) => Ok(self.select_annotated(&m, files)),
            Err(e) => Err(ScanError::InvalidPattern(e)),
        }
    }

    /// `doc` after the scan for `kind`, whose rule is `rule`.
    fn scan_and_apply(
        &self,
        doc: YamlNode,
        kind: &AnnotationType,
        rule: &AnnotationPattern,
        files: &Vec<SourceFile>,
    ) -> (r: YamlNode)
        requires
            is_rule_for(*kind, *rule),
        ensures
            scan_step(doc, *kind, files@, self.separator, r),
    {
        match self.find_files_with_annotation(kind, files) {
            Ok(list) => {
                let ghost items = views(list@);
                let r = apply_generate_for(doc, rule.builder_key, list);
                assert(field_set(doc, builder_key_of(*kind), items, r));
                r
            },
            Err(_) => doc,
        }
    }

    /// `doc` after the scans for every kind, in the order of `all_kinds`.
    pub fn update_document(&self, doc: YamlNode, files: &Vec<SourceFile>) -> (r: YamlNode)
        ensures
            exists|d1: YamlNode, d2: YamlNode|
                scan_step(doc, all_kinds()[0], files@, self.separator, d1) && scan_step(
                    d1,
                    all_kinds()[1],
                    files@,
                    self.separator,
                    d2,
                ) && scan_step(d2, all_kinds()[2], files@, self.separator, r),
    {
        let patterns = PatternRegistry::get_patterns();
        let mut cur = doc;
        let ghost docs: Seq<YamlNode> = seq![doc];
        let mut i: usize = 0;
        while i < patterns.len()
            invariant
                patterns@.len() == all_kinds().len(),
                forall|k: int| 0 <= k < patterns@.len() ==> patterns@[k].0 == all_kinds()[k] && is_rule_for(patterns@[k].0, patterns@[k].1),
                i <= patterns@.len(),
                docs.len() == i + 1,
                docs[0] == doc,
                docs.last() == cur,
                forall|k: int| 0 <= k < i ==> scan_step(#[trigger] docs[k], all_kinds()[k], files@, self.separator, docs[k + 1]),
            decreases patterns@.len() - i,
        {
            let (kind, rule) = patterns[i];
            cur = self.scan_and_apply(cur, &kind, &rule, files);
            proof {
                let old_docs = docs;
                docs = docs.push(cur);
                assert forall|k: int| 0 <= k < i + 1 implies scan_step(#[trigger] docs[k], all_kinds()[k], files@, self.separator, docs[k + 1]) by {
                    if k < i {
                        assert(docs[k] == old_docs[k] && docs[k + 1] == old_docs[k + 1]);
                    }
                }
            }
            i = i + 1;
        }
        assert(scan_step(docs[0], all_kinds()[0], files@, self.separator, docs[1]));
        assert(scan_step(docs[1], all_kinds()[1], files@, self.separator, docs[2]));
        assert(scan_step(docs[2], all_kinds()[2], files@, self.separator, docs[3]));
        cur
    }
}

} // verus!
