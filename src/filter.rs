//! Exclusion rules: compiled byte patterns matched against raw path bytes.
use vstd::prelude::*;

verus! {

#[verifier::external_type_specification]
#[verifier::external_body]
pub struct ExRegex(regex::bytes::Regex);

#[verifier::external_type_specification]
#[verifier::external_body]
pub struct ExRegexError(regex::Error);

/// Whether the pattern text `pattern` is accepted by the regex compiler.
pub uninterp spec fn pattern_compiles(pattern: Seq<char>) -> bool;

/// Whether the regular expression `pattern` matches somewhere in `haystack`.
pub uninterp spec fn pattern_matches(pattern: Seq<char>, haystack: Seq<u8>) -> bool;

/// Relies on `regex::bytes::Regex::new`: compilation succeeds or fails
/// depending on the pattern text alone.
#[verifier::external_body]
fn compile_pattern(pattern: &str) -> (r: Result<regex::bytes::Regex, regex::Error>)
    ensures
        r is Ok <==> pattern_compiles(pattern@),
{
    regex::bytes::Regex::new(pattern)
}

/// Why a pattern could not become an exclusion rule.
#[derive(Debug, Clone, Copy, PartialEq, Eq)]
pub enum PatternError {
    /// The pattern is not a valid regular expression.
    Invalid,
}

/// One exclusion rule: the pattern text and the expression compiled from it.
/// Both fields are private and `new` is the only constructor, so `compiled`
/// is always the compilation of `pattern`.
pub struct ExclusionRule {
    pattern: String,
    compiled: regex::bytes::Regex,
}

/// Relies on `regex::bytes::Regex::is_match`: whether the expression matches
/// anywhere in the haystack. The rule's expression was compiled from its
/// pattern text by `ExclusionRule::new`.
#[verifier::external_body]
fn rule_is_match(rule: &ExclusionRule, haystack: &[u8]) -> (r: bool)
    ensures
        r == pattern_matches(rule@, haystack@),
{
    rule.compiled.is_match(haystack)
}

impl View for ExclusionRule {
    type V = Seq<char>;

    closed spec fn view(&self) -> Seq<char> {
        self.pattern@
    }
}

impl ExclusionRule {
    /// Compiles `pattern`; fails exactly when the pattern is not a valid expression.
    pub fn new(pattern: &str) -> (r: Result<ExclusionRule, PatternError>)
        ensures
            r is Ok <==> pattern_compiles(pattern@),
            r matches Ok(rule) ==> rule@ == pattern@,
            r matches Err(e) ==> e == PatternError::Invalid,
    {
        match compile_pattern(pattern) {
            Ok(compiled) => Ok(ExclusionRule { pattern: pattern.to_string(), compiled }),
            Err(_) => Err(PatternError::Invalid),
        }
    }

    /// Whether this rule matches the raw path bytes.
    pub fn is_match(&self, path: &[u8]) -> (r: bool)
        ensures
            r == pattern_matches(self@, path@),
    {
        rule_is_match(self, path)
    }
}

/// Whether some rule of `rules` matches `path`.
pub open spec fn excluded_by(rules: Seq<Seq<char>>, path: Seq<u8>) -> bool {
    exists|i: int| 0 <= i < rules.len() && pattern_matches(#[trigger] rules[i], path)
}

/// The ordered set of exclusion rules of one run.
pub struct PatternFilter {
    pub rules: Vec<ExclusionRule>,
}

impl View for PatternFilter {
    type V = Seq<Seq<char>>;

    open spec fn view(&self) -> Seq<Seq<char>> {
        self.rules@.map_values(|r: ExclusionRule| r@)
    }
}

impl PatternFilter {
    /// A filter that excludes nothing.
    pub fn new() -> (r: PatternFilter)
        ensures
            r@ == Seq::<Seq<char>>::empty(),
    {
        PatternFilter { rules: Vec::new() }
    }

    /// Appends a rule after the existing ones.
    pub fn push(&mut self, rule: ExclusionRule)
        ensures
            final(self)@ == old(self)@.push(rule@),
    {
        self.rules.push(rule);
        assert(self@ =~= old(self)@.push(rule@));
    }

    /// Whether any rule matches the path; rules are tried in declaration
    /// order and the first match decides.
    pub fn is_excluded(&self, path: &[u8]) -> (r: bool)
        ensures
            r == excluded_by(self@, path@),
    {
        let mut i: usize = 0;
        while i < self.rules.len()
            invariant
                0 <= i <= self.rules@.len(),
                forall|j: int| 0 <= j < i ==> !pattern_matches(#[trigger] self@[j], path@),
            decreases self.rules@.len() - i,
        {
            if self.rules[i].is_match(path) {
                assert(pattern_matches(self@[i as int], path@));
                return true;
            }
            i += 1;
        }
        false
    }
}

} // verus!
