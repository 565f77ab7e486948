use crate::config::{ConfigError, Grouping};
use crate::pattern::{compiled, regex_matches, regex_replaced, replace_first};
use regex::Regex;
use vstd::prelude::*;
use vstd::string::StrSliceExecFns;

verus! {

/// Length of the part of `uri` that comes before its first `?`; the whole
/// length where it holds none.
pub open spec fn path_len(uri: Seq<char>) -> nat
    decreases uri.len(),
{
    if uri.len() == 0 || uri[0] == '?' {
        0
    } else {
        1 + path_len(uri.drop_first())
    }
}

/// `uri` without its query string: the text before the first `?`.
pub open spec fn path_of(uri: Seq<char>) -> Seq<char> {
    uri.take(path_len(uri) as int)
}

/// `uri` without its query string.
pub fn strip_query(uri: &str) -> (r: String)
    ensures
        r@ == path_of(uri@),
{
    let mut cut: usize = 0;
    let mut found: bool = false;
    let n: usize = uri.unicode_len();
    for c in it: uri.chars()
        invariant
            n == uri@.len(),
            it.seq() == uri@,
            cut <= it.index(),
            !found ==> cut == it.index(),
            found ==> cut < n && uri@[cut as int] == '?',
            forall|j: int| 0 <= j < cut ==> uri@[j] != '?',
    {
        if !found {
            if c == '?' {
                found = true;
            } else {
                cut = cut + 1;
            }
        }
    }
    proof {
        lemma_path_len(uri@, cut as int);
    }
    uri.substring_char(0, cut).to_owned()
}

/// `path_len(uri)` is the position of the first `?` of `uri`, and the length
/// of `uri` where it holds none.
pub proof fn lemma_path_len_is_first_query(uri: Seq<char>)
    ensures
        path_len(uri) <= uri.len(),
        path_len(uri) == uri.len() || uri[path_len(uri) as int] == '?',
        forall|j: int| 0 <= j < path_len(uri) ==> uri[j] != '?',
    decreases uri.len(),
{
    if uri.len() > 0 && uri[0] != '?' {
        let rest = uri.drop_first();
        lemma_path_len_is_first_query(rest);
        assert forall|j: int| 0 <= j < path_len(uri) implies uri[j] != '?' by {
            if j > 0 {
                assert(rest[j - 1] == uri[j]);
            }
        }
    }
}

/// A position with no `?` before it, which is the end of `uri` or holds a
/// `?`, is `path_len(uri)`.
pub proof fn lemma_path_len(uri: Seq<char>, cut: int)
    requires
        0 <= cut <= uri.len(),
        cut == uri.len() || uri[cut] == '?',
        forall|j: int| 0 <= j < cut ==> uri[j] != '?',
    ensures
        path_len(uri) == cut,
    decreases uri.len(),
{
    if uri.len() > 0 && uri[0] != '?' {
        lemma_path_len(uri.drop_first(), cut - 1);
    }
}

/// Whether `rule` applies to `uri`: it is compiled and its pattern matches
/// somewhere in `uri`.
pub open spec fn rule_applies(rule: Grouping, uri: Seq<char>) -> bool {
    rule.compiled_regexp matches Some(re) && regex_matches(re, uri)
}

/// `uri` with the leftmost match of `rule`'s pattern replaced by the rule's
/// replacement text.
pub open spec fn rule_rewrite(rule: Grouping, uri: Seq<char>) -> Seq<char> {
    regex_replaced(rule.compiled_regexp->0, uri, rule.replacement())
}

/// The group key of `uri` under `rules`: the rewrite by the first rule that
/// applies to the whole of `uri`, and `uri` without its query string where
/// none applies.
pub open spec fn normalized(uri: Seq<char>, rules: Seq<Grouping>) -> Seq<char>
    decreases rules.len(),
{
    if rules.len() == 0 {
        path_of(uri)
    } else if rule_applies(rules[0], uri) {
        rule_rewrite(rules[0], uri)
    } else {
        normalized(uri, rules.drop_first())
    }
}

/// Whether the rule at `index` is the first of `rules` that applies to `uri`.
pub open spec fn is_first_applicable(uri: Seq<char>, rules: Seq<Grouping>, index: int) -> bool {
    &&& 0 <= index < rules.len()
    &&& rule_applies(rules[index], uri)
    &&& forall|j: int| 0 <= j < index ==> !rule_applies(#[trigger] rules[j], uri)
}

/// Whether no rule of `rules` applies to `uri`.
pub open spec fn none_applies(uri: Seq<char>, rules: Seq<Grouping>) -> bool {
    forall|j: int| 0 <= j < rules.len() ==> !rule_applies(#[trigger] rules[j], uri)
}

/// The first match wins: where a rule is the first to apply, the group key
/// is its rewrite; where none applies, it is `uri` without its query string.
pub proof fn lemma_first_match_wins(uri: Seq<char>, rules: Seq<Grouping>)
    ensures
        forall|index: int| #[trigger]
            is_first_applicable(uri, rules, index) ==> normalized(uri, rules) == rule_rewrite(
                rules[index],
                uri,
            ),
        none_applies(uri, rules) ==> normalized(uri, rules) == path_of(uri),
        none_applies(uri, rules) || exists|index: int| is_first_applicable(uri, rules, index),
    decreases rules.len(),
{
    if rules.len() > 0 && rule_applies(rules[0], uri) {
        assert(is_first_applicable(uri, rules, 0));
    } else if rules.len() > 0 {
        let rest = rules.drop_first();
        lemma_first_match_wins(uri, rest);
        assert forall|index: int| #[trigger]
            is_first_applicable(uri, rules, index) implies normalized(uri, rules) == rule_rewrite(
            rules[index],
            uri,
        ) by {
            assert(is_first_applicable(uri, rest, index - 1));
        }
        if none_applies(uri, rest) {
            assert forall|j: int| 0 <= j < rules.len() implies !rule_applies(
                #[trigger] rules[j],
                uri,
            ) by {
                if j > 0 {
                    assert(rest[j - 1] == rules[j]);
                }
            }
        } else {
            let index = choose|index: int| is_first_applicable(uri, rest, index);
            assert forall|j: int| 0 <= j < index + 1 implies !rule_applies(
                #[trigger] rules[j],
                uri,
            ) by {
                if j > 0 {
                    assert(rest[j - 1] == rules[j]);
                }
            }
            assert(is_first_applicable(uri, rules, index + 1));
        }
    }
}

/// The group key of `uri` under `groupings`. The rules are tried in their
/// order on the whole of `uri`, its query string included.
pub fn normalize_uri(uri: &str, groupings: &[Grouping]) -> (r: String)
    ensures
        r@ == normalized(uri@, groupings@),
{
    let mut i: usize = 0;
    assert(groupings@.skip(0) =~= groupings@);
    while i < groupings.len()
        invariant
            i <= groupings.len(),
            normalized(uri@, groupings@) == normalized(uri@, groupings@.skip(i as int)),
        decreases groupings.len() - i,
    {
        let rule = &groupings[i];
        proof {
            assert(groupings@.skip(i as int).drop_first() == groupings@.skip(i as int + 1));
        }
        if let Some(re) = &rule.compiled_regexp {
            if re.is_match(uri) {
                return replace_first(re, uri, rule.replacement_text());
            }
        }
        i = i + 1;
    }
    strip_query(uri)
}

/// Whether `after` is `before` with its pattern compiled.
pub open spec fn is_compiled_from(after: Grouping, before: Grouping) -> bool {
    &&& after.regexp == before.regexp
    &&& after.name == before.name
    &&& after.compiled_regexp is Some
    &&& after.compiled_regexp == compiled(before.regexp@)
}

/// Compiles the pattern of each rule, in order, and stops at the first that
/// does not compile: the rules before it are then compiled, and it and the
/// rules after it are as they were.
pub fn compile_groupings(groupings: &mut [Grouping]) -> (r: Result<(), ConfigError>)
    ensures
        final(groupings)@.len() == old(groupings)@.len(),
        match r {
            Ok(()) => forall|j: int|
                0 <= j < old(groupings)@.len() ==> is_compiled_from(
                    #[trigger] final(groupings)@[j],
                    old(groupings)@[j],
                ),
            Err(ConfigError::InvalidPattern { index }) => {
                &&& index < old(groupings)@.len()
                &&& compiled(old(groupings)@[index as int].regexp@) is None
                &&& forall|j: int|
                    0 <= j < index ==> is_compiled_from(
                        #[trigger] final(groupings)@[j],
                        old(groupings)@[j],
                    )
                &&& forall|j: int|
                    index <= j < old(groupings)@.len() ==> #[trigger] final(groupings)@[j] == old(
                        groupings,
                    )@[j]
            },
        },
{
    let mut i: usize = 0;
    while i < groupings.len()
        invariant
            i <= groupings@.len(),
            groupings@.len() == old(groupings)@.len(),
            forall|j: int|
                0 <= j < i ==> is_compiled_from(#[trigger] groupings@[j], old(groupings)@[j]),
            forall|j: int|
                i <= j < groupings@.len() ==> #[trigger] groupings@[j] == old(groupings)@[j],
        decreases groupings.len() - i,
    {
        match Regex::new(groupings[i].regexp.as_str()) {
            Ok(re) => {
                groupings[i].compiled_regexp = Some(re);
            },
            Err(_) => {
                return Err(ConfigError::InvalidPattern { index: i });
            },
        }
        i = i + 1;
    }
    Ok(())
}

} // verus!
