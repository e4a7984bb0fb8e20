use vstd::prelude::*;

verus! {

#[verifier::external_type_specification]
#[verifier::external_body]
pub struct ExRegex(regex::Regex);

#[verifier::external_type_specification]
#[verifier::external_body]
pub struct ExRegexError(regex::Error);

/// Whether `regex::Regex::new` accepts `pattern`: a valid pattern whose compiled form stays
/// within the crate's default size limit.
pub uninterp spec fn regex_compiles(pattern: Seq<char>) -> bool;

/// Whether the regex that `regex::Regex::new(pattern)` builds (default settings) matches
/// anywhere in `haystack`, as `regex::Regex::is_match` reports it.
pub uninterp spec fn regex_finds(pattern: Seq<char>, haystack: Seq<char>) -> bool;

/// A regex compiled by `regex::Regex::new`, with the pattern text it was compiled from.
/// Its fields are private to this module, where only `compile` makes one, so every
/// `CompiledPattern` holds `Regex::new(source)` for its own `source`.
pub struct CompiledPattern {
    re: regex::Regex,
    source: Ghost<Seq<char>>,
}

impl View for CompiledPattern {
    type V = Seq<char>;

    /// The pattern text the regex was compiled from.
    closed spec fn view(&self) -> Seq<char> {
        self.source@
    }
}

impl CompiledPattern {
    /// `regex::Regex::new(pattern)`: `Ok` exactly when the pattern compiles; the result
    /// records `pattern` as its source.
    #[verifier::external_body]
    pub(crate) fn compile(pattern: &str) -> (r: Result<CompiledPattern, regex::Error>)
        ensures
            r is Ok <==> regex_compiles(pattern@),
            r matches Ok(p) ==> p@ == pattern@,
    {
        match regex::Regex::new(pattern) {
            Ok(re) => Ok(CompiledPattern { re, source: Ghost(pattern@) }),
            Err(e) => Err(e),
        }
    }

    /// `regex::Regex::is_match`: whether the regex compiled from this pattern's source
    /// matches anywhere in `text`.
    #[verifier::external_body]
    pub(crate) fn is_match(&self, text: &str) -> (b: bool)
        ensures
            b == regex_finds(self@, text@),
    {
        self.re.is_match(text)
    }
}

} // verus!
