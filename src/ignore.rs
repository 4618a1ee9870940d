//! Ignore rules: glob patterns tested against a whole path and against
//! each of its components.
use vstd::prelude::*;
use glob::{Pattern, PatternError};
use crate::paths::{components, path_components};

verus! {

#[verifier::external_type_specification]
#[verifier::external_body]
pub struct ExPattern(Pattern);

#[verifier::external_type_specification]
#[verifier::external_body]
pub struct ExPatternError(PatternError);

/// Whether a glob pattern's text compiles.
pub uninterp spec fn glob_compiles(pattern: Seq<char>) -> bool;

/// Whether the glob pattern with this text matches `text` under the default
/// match options.
pub uninterp spec fn glob_matches(pattern: Seq<char>, text: Seq<char>) -> bool;

/// One compiled ignore pattern, kept with the text it was compiled from.
/// Only `compile_glob` builds one, so `pattern` is always the compilation of
/// `source`.
pub struct IgnoreRule {
    source: String,
    pattern: Pattern,
}

/// Relies on `glob::Pattern::new`: whether compilation succeeds depends on
/// the pattern text alone. The rule keeps that text beside the compiled
/// pattern.
#[verifier::external_body]
fn compile_glob(text: &str) -> (r: Result<IgnoreRule, PatternError>)
    ensures
        r is Ok <==> glob_compiles(text@),
        r matches Ok(rule) ==> rule.source@ == text@,
{
    match Pattern::new(text) {
        Ok(pattern) => Ok(IgnoreRule { source: text.to_string(), pattern }),
        Err(e) => Err(e),
    }
}

/// Relies on `glob::Pattern::matches`: the outcome depends on the pattern,
/// which `compile_glob` built from `rule.source`, and on `text` alone.
#[verifier::external_body]
fn glob_match(rule: &IgnoreRule, text: &str) -> (r: bool)
    ensures
        r == glob_matches(rule.source@, text@),
{
    rule.pattern.matches(text)
}

impl View for IgnoreRule {
    type V = Seq<char>;

    closed spec fn view(&self) -> Seq<char> {
        self.source@
    }
}

/// A pattern that failed to compile.
pub struct InvalidPattern {
    pub pattern: String,
}

impl IgnoreRule {
    /// Compiles one pattern; fails exactly on text that is no valid glob.
    pub fn new(text: &str) -> (r: Result<IgnoreRule, InvalidPattern>)
        ensures
            r is Ok <==> glob_compiles(text@),
            r matches Ok(rule) ==> rule@ == text@,
            r matches Err(e) ==> e.pattern@ == text@,
    {
        match compile_glob(text) {
            Ok(rule) => Ok(rule),
            Err(_) => Err(InvalidPattern { pattern: String::from_str(text) }),
        }
    }

    /// The pattern's text.
    pub fn as_str(&self) -> (r: &str)
        ensures
            r@ == self@,
    {
        self.source.as_str()
    }

    /// Whether this pattern matches `text`.
    pub fn matches(&self, text: &str) -> (r: bool)
        ensures
            r == glob_matches(self@, text@),
    {
        glob_match(self, text)
    }
}

/// The texts among `patterns` that compile, in order.
pub open spec fn valid_patterns(patterns: Seq<Seq<char>>) -> Seq<Seq<char>>
    decreases patterns.len(),
{
    if patterns.len() == 0 {
        Seq::empty()
    } else if glob_compiles(patterns.last()) {
        valid_patterns(patterns.drop_last()).push(patterns.last())
    } else {
        valid_patterns(patterns.drop_last())
    }
}

/// The texts among `patterns` that do not compile, in order.
pub open spec fn invalid_patterns(patterns: Seq<Seq<char>>) -> Seq<Seq<char>>
    decreases patterns.len(),
{
    if patterns.len() == 0 {
        Seq::empty()
    } else if !glob_compiles(patterns.last()) {
        invalid_patterns(patterns.drop_last()).push(patterns.last())
    } else {
        invalid_patterns(patterns.drop_last())
    }
}

/// Whether some pattern of `rules` matches `text`.
pub open spec fn any_matches(rules: Seq<Seq<char>>, text: Seq<char>) -> bool {
    exists|k: int| 0 <= k < rules.len() && glob_matches(#[trigger] rules[k], text)
}

/// Whether `path` is excluded by `rules`: some pattern matches the whole
/// path, or some pattern matches one of its components.
pub open spec fn is_ignored(rules: Seq<Seq<char>>, path: Seq<char>) -> bool {
    any_matches(rules, path) || exists|j: int|
        0 <= j < components(path).len() && any_matches(rules, #[trigger] components(path)[j])
}

/// The ignore patterns of a run, compiled once. Order does not matter:
/// a path is excluded when any of them matches.
pub struct IgnoreRuleSet {
    rules: Vec<IgnoreRule>,
}

impl View for IgnoreRuleSet {
    type V = Seq<Seq<char>>;

    closed spec fn view(&self) -> Seq<Seq<char>> {
        self.rules@.map_values(|r: IgnoreRule| r@)
    }
}

impl IgnoreRuleSet {
    /// A set with no patterns: it excludes nothing.
    pub fn empty() -> (r: IgnoreRuleSet)
        ensures
            r@ == Seq::<Seq<char>>::empty(),
    {
        let r = IgnoreRuleSet { rules: Vec::new() };
        assert(r@ =~= Seq::<Seq<char>>::empty());
        r
    }

    /// Compiles each pattern on its own. The valid ones form the set, in
    /// order; each invalid one is handed back and takes nothing from the rest.
    pub fn compile(patterns: &Vec<String>) -> (r: (IgnoreRuleSet, Vec<InvalidPattern>))
        ensures
            r.0@ == valid_patterns(patterns@.map_values(|p: String| p@)),
            r.1@.map_values(|e: InvalidPattern| e.pattern@) == invalid_patterns(
                patterns@.map_values(|p: String| p@),
            ),
    {
        let ghost ps = patterns@.map_values(|p: String| p@);
        let mut rules: Vec<IgnoreRule> = Vec::new();
        let mut invalid: Vec<InvalidPattern> = Vec::new();
        let mut i: usize = 0;
        while i < patterns.len()
            invariant
                i <= patterns.len(),
                ps == patterns@.map_values(|p: String| p@),
                rules@.map_values(|r: IgnoreRule| r@) == valid_patterns(ps.take(i as int)),
                invalid@.map_values(|e: InvalidPattern| e.pattern@) == invalid_patterns(
                    ps.take(i as int),
                ),
            decreases patterns.len() - i,
        {
            assert(ps.take(i + 1).drop_last() =~= ps.take(i as int));
            match IgnoreRule::new(patterns[i].as_str()) {
                Ok(rule) => {
                    rules.push(rule);
                },
                Err(e) => {
                    invalid.push(e);
                },
            }
            i = i + 1;
            assert(rules@.map_values(|r: IgnoreRule| r@) =~= valid_patterns(ps.take(i as int)));
            assert(invalid@.map_values(|e: InvalidPattern| e.pattern@) =~= invalid_patterns(
                ps.take(i as int),
            ));
        }
        assert(ps.take(i as int) =~= ps);
        (IgnoreRuleSet { rules }, invalid)
    }

    /// The number of patterns.
    pub fn len(&self) -> (r: usize)
        ensures
            r == self@.len(),
    {
        self.rules.len()
    }

    /// Whether some pattern matches `text` as a whole.
    pub fn any_match(&self, text: &str) -> (r: bool)
        ensures
            r == any_matches(self@, text@),
    {
        let mut k: usize = 0;
        while k < self.rules.len()
            invariant
                k <= self.rules.len(),
                forall|m: int| 0 <= m < k ==> !glob_matches(#[trigger] self@[m], text@),
            decreases self.rules.len() - k,
        {
            if self.rules[k].matches(text) {
                assert(glob_matches(self@[k as int], text@));
                return true;
            }
            k = k + 1;
        }
        false
    }
}

/// Whether `path` is excluded by `ignore_patterns`: some pattern matches
/// the whole path, or some pattern matches one of its components.
pub fn should_ignore(path: &str, ignore_patterns: &IgnoreRuleSet) -> (r: bool)
    ensures
        r == is_ignored(ignore_patterns@, path@),
{
    if ignore_patterns.any_match(path) {
        return true;
    }
    let comps = path_components(path);
    let ghost cv = comps@.map_values(|x: String| x@);
    let mut j: usize = 0;
    while j < comps.len()
        invariant
            j <= comps.len(),
            cv == comps@.map_values(|x: String| x@),
            cv == components(path@),
            forall|m: int| 0 <= m < j ==> !any_matches(ignore_patterns@, #[trigger] cv[m]),
        decreases comps.len() - j,
    {
        if ignore_patterns.any_match(comps[j].as_str()) {
            assert(any_matches(ignore_patterns@, cv[j as int]));
            return true;
        }
        j = j + 1;
    }
    false
}

} // verus!
