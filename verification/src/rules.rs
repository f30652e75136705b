//! Pattern rules. A rule is a regular expression, compiled once by the
//! `regex` crate, together with the pattern it was compiled from; the pattern
//! is the rule's identity and the name of the bucket it fills.

use crate::text::texts;
use regex::Regex;
use vstd::prelude::*;

verus! {

/// `regex::Regex`, a compiled regular expression. Nothing inside it is
/// looked at here.
#[verifier::external_type_specification]
#[verifier::external_body]
pub struct ExRegex(Regex);

/// `regex::Error`, what `regex::Regex::new` returns for a pattern that it
/// does not compile. Nothing inside it is looked at here.
#[verifier::external_type_specification]
#[verifier::external_body]
pub struct ExRegexError(regex::Error);

/// Whether `regex::Regex::new` compiles `pattern`: whether the pattern is
/// a regular expression in the syntax of the `regex` crate whose compiled
/// form stays within the size that the crate allows.
pub uninterp spec fn regex_compiles(pattern: Seq<char>) -> bool;

/// Whether the regular expression that `regex::Regex::new` compiles from
/// `pattern` finds a match anywhere in `text`, as `regex::Regex::is_match`
/// reports it. It has a meaning only for patterns that compile.
pub uninterp spec fn regex_matches(pattern: Seq<char>, text: Seq<char>) -> bool;

/// A compiled rule. Its view is the pattern it was compiled from.
pub struct CompiledRule {
    pattern: String,
    matcher: Regex,
}

impl View for CompiledRule {
    type V = Seq<char>;

    closed spec fn view(&self) -> Seq<char> {
        self.pattern@
    }
}

/// A pattern that is no valid rule, with what the compiler said of it.
#[derive(Debug, Clone)]
pub struct ConfigurationError {
    pub pattern: String,
    pub detail: String,
}

impl ConfigurationError {
    /// The message with which a run ends before it has begun.
    pub fn message(&self) -> (message: String)
        ensures
            message@ == "Invalid tag regex: "@ + self.detail@,
    {
        let mut message = "Invalid tag regex: ".to_owned();
        message.append(self.detail.as_str());
        message
    }
}

/// The patterns of a list of rules.
pub open spec fn patterns_of(rules: Seq<CompiledRule>) -> Seq<Seq<char>> {
    Seq::new(rules.len(), |i: int| rules[i]@)
}

/// Calls `regex::Regex::new` on the pattern. Whether the call succeeds
/// depends on the pattern alone. Where it does, the rule holds the compiled
/// expression beside a copy of the pattern.
#[verifier::external_body]
fn build_rule(pattern: &str) -> (made: Result<CompiledRule, regex::Error>)
    ensures
        (made is Ok) == regex_compiles(pattern@),
        made matches Ok(rule) ==> rule@ == pattern@,
{
    match Regex::new(pattern) {
        Ok(matcher) => Ok(CompiledRule { pattern: pattern.to_string(), matcher }),
        Err(error) => Err(error),
    }
}

/// The words of a `regex::Error`, as its `Display` writes them.
#[verifier::external_body]
fn error_text(error: &regex::Error) -> String {
    error.to_string()
}

/// Calls `regex::Regex::is_match` of the rule's compiled expression on the
/// text. A rule is made by `build_rule` alone, so the expression is the one
/// compiled from the rule's pattern, and whether it matches depends on the
/// pattern and the text alone.
#[verifier::external_body]
fn rule_matches(rule: &CompiledRule, text: &str) -> (found: bool)
    ensures
        found == regex_matches(rule@, text@),
{
    rule.matcher.is_match(text)
}

impl CompiledRule {
    /// Compiles a pattern into a rule, or says why it is none.
    pub fn compile(pattern: &str) -> (made: Result<CompiledRule, ConfigurationError>)
        ensures
            (made is Ok) == regex_compiles(pattern@),
            made matches Ok(rule) ==> rule@ == pattern@,
            made matches Err(error) ==> error.pattern@ == pattern@,
    {
        match build_rule(pattern) {
            Ok(rule) => Ok(rule),
            Err(error) => Err(
                ConfigurationError { pattern: pattern.to_owned(), detail: error_text(&error) },
            ),
        }
    }

    /// The pattern that the rule was compiled from.
    pub fn pattern(&self) -> (pattern: &str)
        ensures
            pattern@ == self@,
    {
        self.pattern.as_str()
    }

    /// Whether the rule's expression finds a match anywhere in the text.
    pub fn accepts(&self, text: &str) -> (found: bool)
        ensures
            found == regex_matches(self@, text@),
    {
        rule_matches(self, text)
    }
}

/// Takes what compiling one more pattern came to: the rule joins the rules
/// at their end, and an error takes their place.
pub fn with_rule(rules: Vec<CompiledRule>, made: Result<CompiledRule, ConfigurationError>) -> (all:
    Result<Vec<CompiledRule>, ConfigurationError>)
    ensures
        match made {
            Ok(rule) => all matches Ok(longer) && longer@ == rules@.push(rule),
            Err(error) => all matches Err(same) && same == error,
        },
{
    match made {
        Ok(rule) => {
            let mut longer = rules;
            longer.push(rule);
            Ok(longer)
        },
        Err(error) => Err(error),
    }
}

/// Whether every one of the patterns compiles.
pub open spec fn all_compile(patterns: Seq<Seq<char>>) -> bool {
    forall|k: int| 0 <= k < patterns.len() ==> regex_compiles(#[trigger] patterns[k])
}

/// Whether the pattern at `place` is the first that does not compile.
pub open spec fn fails_first(patterns: Seq<Seq<char>>, place: int) -> bool {
    &&& 0 <= place < patterns.len()
    &&& !regex_compiles(patterns[place])
    &&& forall|k: int| 0 <= k < place ==> regex_compiles(#[trigger] patterns[k])
}

/// Compiles the patterns in their order. Where all of them compile, the
/// rules come back, one for each pattern in the order of the patterns. The
/// first pattern that does not compile ends the work and is reported; no
/// rule is handed out then.
pub fn compile_rules(patterns: &Vec<String>) -> (made: Result<
    Vec<CompiledRule>,
    ConfigurationError,
>)
    ensures
        (made is Ok) == all_compile(texts(patterns@)),
        made matches Ok(rules) ==> patterns_of(rules@) == texts(patterns@),
        made matches Err(error) ==> exists|place: int|
            #[trigger] fails_first(texts(patterns@), place) && error.pattern@ == patterns@[place]@,
{
    let mut rules: Vec<CompiledRule> = Vec::new();
    let ghost given = texts(patterns@);
    let mut i: usize = 0;
    while i < patterns.len()
        invariant
            i <= patterns@.len(),
            given == texts(patterns@),
            rules@.len() == i,
            forall|k: int| 0 <= k < i ==> (#[trigger] rules@[k])@ == patterns@[k]@,
            forall|k: int| 0 <= k < i ==> regex_compiles(#[trigger] given[k]),
        decreases patterns@.len() - i,
    {
        match with_rule(rules, CompiledRule::compile(patterns[i].as_str())) {
            Ok(longer) => {
                rules = longer;
            },
            Err(error) => {
                proof {
                    assert(given[i as int] == patterns@[i as int]@);
                    assert(fails_first(given, i as int));
                }
                return Err(error);
            },
        }
        proof {
            assert(given[i as int] == patterns@[i as int]@);
        }
        i = i + 1;
    }
    proof {
        assert(patterns_of(rules@) =~= texts(patterns@));
    }
    Ok(rules)
}

} // verus!
