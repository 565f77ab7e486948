use regex::Regex;
use vstd::prelude::*;

verus! {

/// `regex::Regex`, a compiled regular expression. Nothing inside it is
/// visible to the proofs: all that is known of one is what the items below
/// assume.
#[verifier::external_type_specification]
#[verifier::external_body]
pub struct ExRegex(regex::Regex);

/// `regex::Error`, the reason why a pattern did not compile. It is only told
/// apart from success.
#[verifier::external_type_specification]
#[verifier::external_body]
pub struct ExRegexError(regex::Error);

/// What `Regex::new` makes of the pattern text `pattern`: the compiled
/// expression, or `None` where it reports an error (the text is no valid
/// pattern, or the compiled expression would exceed the size limit).
pub uninterp spec fn compiled(pattern: Seq<char>) -> Option<Regex>;

/// Whether `Regex::is_match` finds a match of `re` anywhere in `haystack`.
pub uninterp spec fn regex_matches(re: Regex, haystack: Seq<char>) -> bool;

/// What `Regex::replace` returns for `re`, `haystack` and the replacement
/// text `replacement`: `haystack` with its leftmost match replaced by
/// `replacement`, in which `$name` and `$N` stand for capture groups.
pub uninterp spec fn regex_replaced(
    re: Regex,
    haystack: Seq<char>,
    replacement: Seq<char>,
) -> Seq<char>;

/// Assumed of `Regex::new`: its outcome depends on the pattern text alone,
/// and is called `compiled` of that text.
pub assume_specification[ Regex::new ](re: &str) -> (r: Result<Regex, regex::Error>)
    ensures
        match r {
            Ok(regex) => compiled(re@) == Some(regex),
            Err(_) => compiled(re@) is None,
        },
;

/// Assumed of `Regex::is_match`: its answer depends on the expression and
/// the haystack alone, and is called `regex_matches` of the two.
pub assume_specification[ Regex::is_match ](re: &Regex, haystack: &str) -> (b: bool)
    ensures
        b == regex_matches(*re, haystack@),
;

/// Calls `Regex::replace` with a replacement text and hands the result back
/// as an owned string. Assumed: the result depends on the expression, the
/// haystack and the replacement alone, and is called `regex_replaced` of the
/// three.
#[verifier::external_body]
pub(crate) fn replace_first(re: &Regex, haystack: &str, replacement: &str) -> (r: String)
    ensures
        r@ == regex_replaced(*re, haystack@, replacement@),
{
    re.replace(haystack, replacement).into_owned()
}

} // verus!
