//! The include/exclude filter engine.
//!
//! An ordered list of `+regex` / `-regex` rules is evaluated against a
//! normalized root-relative path.  The first matching rule decides; when no
//! rule matches, the decision is the negation of the first rule's polarity;
//! an empty list includes everything.  A rule matches only against the
//! entire path, never a substring.  An excluded folder prunes its subtree:
//! an entry is included only when the filter passes it and every ancestor
//! folder above it.

use vstd::prelude::*;

use crate::path::RootRelativePath;

verus! {

use crate::path::SLASH;

/// Whether a regular expression pattern is accepted by the regex engine.
pub uninterp spec fn regex_valid(pattern: Seq<char>) -> bool;

/// Whether a regular expression matches somewhere inside a byte string; it
/// depends on the pattern and the text alone.
pub uninterp spec fn regex_matches(pattern: Seq<char>, text: Seq<u8>) -> bool;

/// Relies on `regex::bytes::Regex::new`, which accepts a pattern or reports
/// a syntax error, and `regex::bytes::Regex::is_match`, whose result is a
/// function of the pattern and the haystack alone.
#[verifier::external_body]
fn regex_match_bytes(pattern: &str, text: &[u8]) -> (r: Option<bool>)
    ensures
        (r is Some) == regex_valid(pattern@),
        r matches Some(b) ==> b == regex_matches(pattern@, text@),
{
    regex::bytes::Regex::new(pattern).ok().map(|re| re.is_match(text))
}

/// The polarity of a filter rule.
#[derive(Clone, Copy, Debug, PartialEq, Eq, Structural)]
pub enum FilterKind {
    Include,
    Exclude,
}

/// One compiled filter rule: a polarity and an anchored pattern.
#[derive(Debug)]
pub struct FilterRule {
    pub kind: FilterKind,
    pub pattern: String,
}

/// Mathematical form of [`FilterRule`].
pub struct FilterRuleV {
    pub kind: FilterKind,
    pub pattern: Seq<char>,
}

impl View for FilterRule {
    type V = FilterRuleV;

    open spec fn view(&self) -> FilterRuleV {
        FilterRuleV { kind: self.kind, pattern: self.pattern@ }
    }
}

/// The anchored form of a user-supplied filter regex: it must match the
/// entire path, not a substring of it.
pub open spec fn spec_anchored(re: Seq<char>) -> Seq<char> {
    "^(?:"@ + re + ")$"@
}

/// The polarity of the first rule that matches the path, if any.
pub open spec fn spec_first_match(rules: Seq<FilterRuleV>, path: Seq<u8>) -> Option<FilterKind>
    decreases rules.len(),
{
    if rules.len() == 0 {
        None
    } else if regex_matches(rules[0].pattern, path) {
        Some(rules[0].kind)
    } else {
        spec_first_match(rules.drop_first(), path)
    }
}

/// The filter decision for one path: the first matching rule wins; with no
/// match, the opposite of the first rule's polarity; an empty list includes
/// everything.
pub open spec fn spec_filter_passes(rules: Seq<FilterRuleV>, path: Seq<u8>) -> bool {
    if rules.len() == 0 {
        true
    } else {
        match spec_first_match(rules, path) {
            Some(k) => k is Include,
            None => !(rules[0].kind is Include),
        }
    }
}

/// Whether an entry is included in a scan: the root always is; any other
/// entry must pass the filter itself, and so must every ancestor folder,
/// since an excluded folder is pruned and its contents never scanned.
pub open spec fn spec_included(rules: Seq<FilterRuleV>, path: Seq<u8>) -> bool {
    ||| path.len() == 0
    ||| (spec_filter_passes(rules, path) && forall|i: int|
        0 <= i < path.len() && #[trigger] path[i] == SLASH ==> spec_filter_passes(
            rules,
            path.take(i),
        ))
}

/// An ordered include/exclude filter list whose rules have all been
/// accepted by the regex engine.
#[derive(Debug)]
pub struct Filters {
    rules: Vec<FilterRule>,
}

impl View for Filters {
    type V = Seq<FilterRuleV>;

    closed spec fn view(&self) -> Seq<FilterRuleV> {
        self.rules@.map_values(|r: FilterRule| r@)
    }
}

impl Filters {
    #[verifier::type_invariant]
    spec fn wf(self) -> bool {
        forall|i: int|
            0 <= i < self.rules@.len() ==> regex_valid(#[trigger] self.rules@[i]@.pattern)
    }

    /// An empty filter list, which includes everything.
    pub fn none() -> (r: Self)
        ensures
            r@ == Seq::<FilterRuleV>::empty(),
    {
        let r = Filters { rules: Vec::new() };
        proof {
            assert(r@ =~= Seq::<FilterRuleV>::empty());
        }
        r
    }

    /// Compiles user-written rules: each must be a `+` or `-` followed by a
    /// regular expression, which is anchored to match entire paths.
    pub fn compile(rules: &Vec<String>) -> (r: Result<Filters, String>)
        ensures
            r matches Ok(f) ==> {
                &&& f@.len() == rules@.len()
                &&& forall|i: int|
                    0 <= i < rules@.len() ==> {
                        let text = #[trigger] rules@[i]@;
                        &&& text.len() > 0
                        &&& (text[0] == '+' || text[0] == '-')
                        &&& f@[i].kind == (if text[0] == '+' {
                            FilterKind::Include
                        } else {
                            FilterKind::Exclude
                        })
                        &&& f@[i].pattern == spec_anchored(text.skip(1))
                        &&& regex_valid(f@[i].pattern)
                    }
            },
            r is Err ==> exists|i: int|
                0 <= i < rules@.len() && {
                    let text = #[trigger] rules@[i]@;
                    ||| text.len() == 0
                    ||| (text[0] != '+' && text[0] != '-')
                    ||| !regex_valid(spec_anchored(text.skip(1)))
                },
    {
        let mut compiled: Vec<FilterRule> = Vec::new();
        let mut idx: usize = 0;
        while idx < rules.len()
            invariant
                0 <= idx <= rules@.len(),
                compiled@.len() == idx,
                forall|i: int|
                    0 <= i < idx ==> {
                        let text = #[trigger] rules@[i]@;
                        &&& text.len() > 0
                        &&& (text[0] == '+' || text[0] == '-')
                        &&& compiled@[i]@.kind == (if text[0] == '+' {
                            FilterKind::Include
                        } else {
                            FilterKind::Exclude
                        })
                        &&& compiled@[i]@.pattern == spec_anchored(text.skip(1))
                        &&& regex_valid(compiled@[i]@.pattern)
                    },
            decreases rules@.len() - idx,
        {
            let text = &rules[idx];
            let n = text.as_str().unicode_len();
            if n == 0 {
                return Err(
                    "Invalid filter: must begin with a '+' (include) or '-' (exclude)".to_owned(),
                );
            }
            let first = text.as_str().get_char(0);
            let kind = if first == '+' {
                FilterKind::Include
            } else if first == '-' {
                FilterKind::Exclude
            } else {
                return Err(
                    "Invalid filter: must begin with a '+' (include) or '-' (exclude)".to_owned(),
                );
            };
            let body = text.as_str().substring_char(1, n);
            let mut pattern = "^(?:".to_owned();
            pattern.append(body);
            pattern.append(")$");
            proof {
                assert(pattern@ =~= spec_anchored(text@.skip(1)));
            }
            let probe: [u8; 0] = [];
            match regex_match_bytes(pattern.as_str(), probe.as_slice()) {
                Some(_) => {},
                None => {
                    return Err("Invalid filter: the regular expression is not valid".to_owned());
                },
            }
            compiled.push(FilterRule { kind, pattern });
            idx += 1;
        }
        proof {
            assert forall|i: int| 0 <= i < compiled@.len() implies regex_valid(
                #[trigger] compiled@[i]@.pattern,
            ) by {
                assert(rules@[i]@.len() > 0);
            }
        }
        let r = Filters { rules: compiled };
        Ok(r)
    }

    /// The filter decision for one normalized path, without the ancestor
    /// pruning rule.
    pub fn passes(&self, path: &[u8]) -> (r: bool)
        ensures
            r == spec_filter_passes(self@, path@),
    {
        proof {
            use_type_invariant(self);
        }
        let mut idx: usize = 0;
        proof {
            assert(self@.skip(0) =~= self@);
        }
        while idx < self.rules.len()
            invariant
                0 <= idx <= self@.len(),
                self.wf(),
                self@.len() == self.rules@.len(),
                forall|i: int| 0 <= i < self@.len() ==> self@[i] == self.rules@[i]@,
                spec_first_match(self@.skip(idx as int), path@) == spec_first_match(self@, path@),
                forall|i: int| 0 <= i < idx ==> !regex_matches(#[trigger] self@[i].pattern, path@),
            decreases self@.len() - idx,
        {
            let rule = &self.rules[idx];
            let matched = match regex_match_bytes(rule.pattern.as_str(), path) {
                Some(b) => b,
                None => false,
            };
            proof {
                assert(self@.skip(idx as int)[0] == self@[idx as int]);
                assert(self@.skip(idx as int).drop_first() =~= self@.skip(idx as int + 1));
            }
            if matched {
                return matches!(rule.kind, FilterKind::Include);
            }
            idx += 1;
        }
        proof {
            assert(self@.skip(self@.len() as int).len() == 0);
        }
        if self.rules.len() == 0 {
            return true;
        }
        matches!(self.rules[0].kind, FilterKind::Exclude)
    }

    /// Whether an entry at this path is included in a scan: the path and
    /// every ancestor folder must pass the filter; the root always does.
    pub fn includes(&self, path: &RootRelativePath) -> (r: bool)
        ensures
            r == spec_included(self@, path@),
    {
        let bytes = path.as_bytes();
        if bytes.len() == 0 {
            return true;
        }
        let mut i: usize = 0;
        while i < bytes.len()
            invariant
                0 <= i <= bytes@.len(),
                bytes@ == path@,
                forall|k: int|
                    0 <= k < i && #[trigger] bytes@[k] == SLASH ==> spec_filter_passes(
                        self@,
                        bytes@.take(k),
                    ),
            decreases bytes@.len() - i,
        {
            if bytes[i] == SLASH {
                let prefix = vstd::slice::slice_subrange(bytes.as_slice(), 0, i);
                proof {
                    assert(prefix@ =~= bytes@.take(i as int));
                }
                if !self.passes(prefix) {
                    return false;
                }
            }
            i += 1;
        }
        self.passes(bytes.as_slice())
    }
}

} // verus!
