//! The fixed table from annotation kind to its detection pattern and the
//! builder whose `generate_for` list it feeds.

use vstd::prelude::*;
use crate::text::is_white;

verus! {

#[verifier::external_type_specification]
#[verifier::external_body]
pub struct ExRegex(regex::Regex);

#[verifier::external_type_specification]
#[verifier::external_body]
pub struct ExRegexError(regex::Error);

/// Whether `pattern` is a regular expression that `regex::Regex::new` accepts.
pub uninterp spec fn regex_compiles(pattern: Seq<char>) -> bool;

/// Whether the regular expression `pattern` matches somewhere in `haystack`.
pub uninterp spec fn regex_is_match(pattern: Seq<char>, haystack: Seq<char>) -> bool;

/// The annotations whose presence puts a file under a builder.
#[derive(Clone, Copy, Debug, PartialEq, Eq, Structural, Hash)]
pub enum AnnotationType {
    CopyWith,
    JsonSerializable,
    Hive,
}

/// A detection pattern and the builder it feeds.
#[derive(Clone, Copy, Debug)]
pub struct AnnotationPattern {
    pub pattern: &'static str,
    pub builder_key: &'static str,
}

/// The kinds, in the order in which a run handles them.
pub open spec fn all_kinds() -> Seq<AnnotationType> {
    seq![AnnotationType::CopyWith, AnnotationType::JsonSerializable, AnnotationType::Hive]
}

/// The detection pattern of a kind: the marker, optional white space, `(`.
pub open spec fn pattern_of(kind: AnnotationType) -> Seq<char> {
    match kind {
        AnnotationType::CopyWith => "@CopyWith\\s*\\("@,
        AnnotationType::JsonSerializable => "@JsonSerializable\\s*\\("@,
        AnnotationType::Hive => "@HiveType\\s*\\("@,
    }
}

/// The builder section that a kind's files are listed under.
pub open spec fn builder_key_of(kind: AnnotationType) -> Seq<char> {
    match kind {
        AnnotationType::CopyWith => "copy_with_extension_gen"@,
        AnnotationType::JsonSerializable => "json_serializable"@,
        AnnotationType::Hive => "hive_generator"@,
    }
}

/// The marker of a kind's annotation.
pub open spec fn marker_of(kind: AnnotationType) -> Seq<char> {
    match kind {
        AnnotationType::CopyWith => "@CopyWith"@,
        AnnotationType::JsonSerializable => "@JsonSerializable"@,
        AnnotationType::Hive => "@HiveType"@,
    }
}

/// At position `i` of `text` stands `marker`, then white space, then `(`.
pub open spec fn annotation_at(text: Seq<char>, marker: Seq<char>, i: int) -> bool {
    &&& 0 <= i
    &&& i + marker.len() <= text.len()
    &&& text.subrange(i, i + marker.len()) == marker
    &&& exists|j: int|
        i + marker.len() <= j < text.len() && text[j] == '(' && forall|k: int|
            i + marker.len() <= k < j ==> is_white(#[trigger] text[k])
}

/// `marker`, white space and `(` stand somewhere in `text`.
pub open spec fn has_annotation(text: Seq<char>, marker: Seq<char>) -> bool {
    exists|i: int| annotation_at(text, marker, i)
}

/// `p` is the detection pattern of some kind.
pub open spec fn is_registry_pattern(p: Seq<char>) -> bool {
    p == pattern_of(AnnotationType::CopyWith) || p == pattern_of(AnnotationType::JsonSerializable)
        || p == pattern_of(AnnotationType::Hive)
}

/// `p` is the table's entry for `kind`.
pub open spec fn is_rule_for(kind: AnnotationType, p: AnnotationPattern) -> bool {
    p.pattern@ == pattern_of(kind) && p.builder_key@ == builder_key_of(kind)
}

/// A detection pattern compiled to a regular expression.
pub struct Matcher {
    regex: regex::Regex,
    source: &'static str,
}

impl Matcher {
    /// The pattern this matcher was compiled from.
    pub closed spec fn source(&self) -> Seq<char> {
        self.source@
    }
}

/// Relies on `regex::Regex::new`: compiles `pattern`, or says why it cannot; the
/// outcome depends on the pattern alone. The detection patterns are valid
/// syntax (a literal, the class `\s`, the repetition `*`, the escaped `\(`) and
/// far under the size limit, so they compile.
#[verifier::external_body]
fn regex_new(pattern: &str) -> (r: Result<regex::Regex, regex::Error>)
    ensures
        r is Ok <==> regex_compiles(pattern@),
        is_registry_pattern(pattern@) ==> r is Ok,
{
    regex::Regex::new(pattern)
}

/// Relies on `regex::Regex::is_match`: whether the regex matches anywhere in `text`.
/// The regex of a `Matcher` is always the one `regex::Regex::new` built from its
/// `source`, since `AnnotationPattern::compile` is the only place one is made.
/// A detection pattern is a literal marker, `\s*` (any run of Unicode
/// `White_Space`, as the regex syntax defines `\s`) and a literal `(`.
#[verifier::external_body]
fn regex_matches(m: &Matcher, text: &str) -> (r: bool)
    ensures
        r == regex_is_match(m.source(), text@),
        forall|k: AnnotationType|
            m.source() == #[trigger] pattern_of(k) ==> r == has_annotation(text@, marker_of(k)),
{
    m.regex.is_match(text)
}

impl Matcher {
    /// Whether the pattern occurs anywhere in `text`.
    pub fn is_match(&self, text: &str) -> (r: bool)
        ensures
            r == regex_is_match(self.source(), text@),
            forall|k: AnnotationType|
                self.source() == #[trigger] pattern_of(k) ==> r == has_annotation(text@, marker_of(k)),
    {
        regex_matches(self, text)
    }
}

impl AnnotationPattern {
    /// Compiles the detection pattern.
    pub fn compile(&self) -> (r: Result<Matcher, regex::Error>)
        ensures
            r is Ok <==> regex_compiles(self.pattern@),
            is_registry_pattern(self.pattern@) ==> r is Ok,
            r matches Ok(m) ==> m.source() == self.pattern@,
    {
        match regex_new(self.pattern) {
            Ok(regex) => Ok(Matcher { regex, source: self.pattern }),
            Err(e) => Err(e),
        }
    }
}

/// The registry of detection rules.
pub struct PatternRegistry;

impl PatternRegistry {
    /// Every kind with its rule, one entry per kind, in the order of `all_kinds`.
    pub fn get_patterns() -> (r: Vec<(AnnotationType, AnnotationPattern)>)
        ensures
            r@.len() == all_kinds().len(),
            forall|i: int| 0 <= i < r@.len() ==> r@[i].0 == all_kinds()[i] && is_rule_for(r@[i].0, r@[i].1),
    {
        let mut map: Vec<(AnnotationType, AnnotationPattern)> = Vec::new();
        map.push(
            (AnnotationType::CopyWith, AnnotationPattern {
                pattern: "@CopyWith\\s*\\(",
                builder_key: "copy_with_extension_gen",
            }),
        );
        map.push(
            (AnnotationType::JsonSerializable, AnnotationPattern {
                pattern: "@JsonSerializable\\s*\\(",
                builder_key: "json_serializable",
            }),
        );
        map.push(
            (AnnotationType::Hive, AnnotationPattern {
                pattern: "@HiveType\\s*\\(",
                builder_key: "hive_generator",
            }),
        );
        map
    }

    /// The rule of one kind; every kind has one.
    pub fn get_pattern(annotation_type: &AnnotationType) -> (r: Option<AnnotationPattern>)
        ensures
            r matches Some(p) && is_rule_for(*annotation_type, p),
    {
        let patterns = Self::get_patterns();
        let mut i: usize = 0;
        while i < patterns.len()
            invariant
                patterns@.len() == all_kinds().len(),
                forall|k: int| 0 <= k < patterns@.len() ==> patterns@[k].0 == all_kinds()[k] && is_rule_for(patterns@[k].0, patterns@[k].1),
                forall|k: int| 0 <= k < i ==> patterns@[k].0 != *annotation_type,
            decreases patterns@.len() - i,
        {
            if patterns[i].0 == *annotation_type {
                return Some(patterns[i].1);
            }
            i = i + 1;
        }
        assert(patterns@[0].0 != *annotation_type && patterns@[1].0 != *annotation_type && patterns@[2].0 != *annotation_type);
        None
    }
}

} // verus!
