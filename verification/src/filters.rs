use vstd::prelude::*;

verus! {

/// Granularity tag carried by each filter. Reserved for future use: no current
/// logic reads it.
#[derive(Debug, Clone, Copy, PartialEq, Eq, Structural)]
pub enum Rules {
    OneLine,
    Verbose,
}

/// Display classification attached to each matched line; it drives the styling
/// of the rendered entry.
#[derive(Debug, Clone, Copy, PartialEq, Eq, Structural)]
pub enum Status {
    Infos,
    Warning,
    Error,
    Custom,
    Custom2,
    Custom3,
}

#[verifier::external_type_specification]
#[verifier::external_body]
pub struct ExRegex(regex::Regex);

/// Whether a pattern string is a valid regular expression, that is, whether
/// `regex::Regex::new` accepts it.
pub uninterp spec fn regex_ok(pattern: Seq<char>) -> bool;

/// The pattern string a compiled `regex::Regex` holds (what `Regex::as_str`
/// would return).
pub uninterp spec fn pattern_of(re: regex::Regex) -> Seq<char>;

/// Whether the regular expression given by `pattern` matches somewhere in
/// `text`. The result depends on the pattern and the text alone.
pub uninterp spec fn regex_matches(pattern: Seq<char>, text: Seq<char>) -> bool;

/// Relies on regex::Regex::new: it returns `Ok` exactly on valid patterns, and
/// the compiled value holds the pattern it was built from.
#[verifier::external_body]
fn compile_regex(pattern: &str) -> (r: Option<regex::Regex>)
    ensures
        r is Some <==> regex_ok(pattern@),
        r matches Some(re) ==> pattern_of(re) == pattern@,
{
    regex::Regex::new(pattern).ok()
}

/// Relies on regex::Regex::is_match: whether the compiled pattern matches
/// anywhere in the haystack, a function of the pattern and the haystack alone.
#[verifier::external_body]
fn regex_is_match(re: &regex::Regex, text: &str) -> (r: bool)
    ensures
        r == regex_matches(pattern_of(*re), text@),
{
    re.is_match(text)
}

/// Mathematical model of a `Filter`: the compiled pattern is seen through the
/// pattern string it holds.
pub ghost struct FilterSpec {
    pub name: Seq<char>,
    pub status: Status,
    pub key_code: Seq<char>,
    pub pattern: Seq<char>,
    pub rule: Rules,
    pub is_on: bool,
}

/// One named, toggleable rule: a regular expression paired with a display
/// classification and a keyboard toggle key.
#[derive(Debug)]
pub struct Filter {
    pub name: String,
    pub status: Status,
    pub key_code: String,
    pub regex: regex::Regex,
    pub rule: Rules,
    pub is_on: bool,
}

impl View for Filter {
    type V = FilterSpec;

    open spec fn view(&self) -> FilterSpec {
        FilterSpec {
            name: self.name@,
            status: self.status,
            key_code: self.key_code@,
            pattern: pattern_of(self.regex),
            rule: self.rule,
            is_on: self.is_on,
        }
    }
}

/// Why a filter could not be built.
#[derive(Debug, Clone, Copy, PartialEq, Eq, Structural)]
pub enum FilterError {
    /// The pattern string is not a valid regular expression.
    InvalidPattern,
}

impl Filter {
    /// Builds a filter, compiling its pattern; fails exactly on an invalid
    /// pattern.
    pub fn new(
        name: String,
        status: Status,
        key_code: String,
        pattern: &str,
        rule: Rules,
        is_on: bool,
    ) -> (r: Result<Filter, FilterError>)
        ensures
            r is Ok <==> regex_ok(pattern@),
            r matches Ok(f) ==> f@ == (FilterSpec {
                name: name@,
                status: status,
                key_code: key_code@,
                pattern: pattern@,
                rule: rule,
                is_on: is_on,
            }),
            r matches Err(e) ==> e == FilterError::InvalidPattern,
    {
        match compile_regex(pattern) {
            Some(regex) => Ok(Filter { name, status, key_code, regex, rule, is_on }),
            None => Err(FilterError::InvalidPattern),
        }
    }

    /// Flips the filter's on/off state and changes nothing else.
    pub fn toggle(&mut self)
        ensures
            final(self)@ == (FilterSpec { is_on: !old(self)@.is_on, ..old(self)@ }),
    {
        self.is_on = !self.is_on;
    }

    /// Whether this filter's pattern matches the given line, evaluated on the
    /// unmodified text, control sequences included.
    pub fn match_regex(&self, text: &str) -> (r: bool)
        ensures
            r == regex_matches(self@.pattern, text@),
    {
        regex_is_match(&self.regex, text)
    }

    /// The filter's display classification.
    pub fn get_status(&self) -> (r: Status)
        ensures
            r == self@.status,
    {
        self.status
    }
}

/// The ordered filter registry as loaded from configuration; order determines
/// display precedence when several filters match one line.
#[derive(Debug)]
pub struct ListFilter {
    pub filters: Vec<Filter>,
}

} // verus!
