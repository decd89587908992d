//! The decision logic behind user prompts: the items a prompt offers, what
//! a chosen item means for the rest of the run, and the scripted responses
//! that tests supply through the environment so no real user is needed.

use vstd::prelude::*;

use crate::filter::regex_matches;
use crate::filter::regex_valid;

verus! {

use vstd::string::StrSliceExecFns;
use vstd::string::StringSliceAdditionalSpecFns;

/// What a prompt resolved to: the decision for this occurrence, and the
/// decision to remember for future occurrences, if one was made.
#[derive(Clone, Copy, Debug)]
pub struct ResolvePromptResult<B> {
    /// The decision that was made for this occurrence.
    pub immediate_behaviour: B,
    /// The decision to be remembered for future occurrences, if any.
    pub remembered_behaviour: Option<B>,
}

impl<B: Copy> ResolvePromptResult<B> {
    /// A decision for this occurrence alone.
    pub fn once(b: B) -> (r: Self)
        ensures
            r.immediate_behaviour == b,
            r.remembered_behaviour is None,
    {
        Self { immediate_behaviour: b, remembered_behaviour: None }
    }

    /// A decision for this and every future occurrence.
    pub fn always(b: B) -> (r: Self)
        ensures
            r.immediate_behaviour == b,
            r.remembered_behaviour == Some(b),
    {
        Self { immediate_behaviour: b, remembered_behaviour: Some(b) }
    }
}

/// The label of an option offered for this occurrence alone.
pub open spec fn spec_once_label(name: Seq<char>) -> Seq<char> {
    name + " (just this occurence)"@
}

/// The label of an option offered for all occurrences.
pub open spec fn spec_always_label(name: Seq<char>) -> Seq<char> {
    name + " (all occurences)"@
}

/// Builds the list of items a prompt offers: each option once (or, when
/// remembered decisions are offered, once for this occurrence and once for
/// all), with a final item that cancels the sync.
pub fn build_prompt_items<B: Copy>(
    options: &Vec<(String, B)>,
    include_always_versions: bool,
    cancel_behaviour: B,
) -> (r: Vec<(String, ResolvePromptResult<B>)>)
    ensures
        include_always_versions ==> {
            &&& r@.len() == 2 * options@.len() + 1
            &&& forall|k: int|
                0 <= k < options@.len() ==> {
                    &&& (#[trigger] r@[2 * k]).0@ == spec_once_label(options@[k].0@)
                    &&& r@[2 * k].1.immediate_behaviour == options@[k].1
                    &&& r@[2 * k].1.remembered_behaviour is None
                    &&& r@[2 * k + 1].0@ == spec_always_label(options@[k].0@)
                    &&& r@[2 * k + 1].1.immediate_behaviour == options@[k].1
                    &&& r@[2 * k + 1].1.remembered_behaviour == Some(options@[k].1)
                }
        },
        !include_always_versions ==> {
            &&& r@.len() == options@.len() + 1
            &&& forall|k: int|
                0 <= k < options@.len() ==> {
                    &&& (#[trigger] r@[k]).0@ == options@[k].0@
                    &&& r@[k].1.immediate_behaviour == options@[k].1
                    &&& r@[k].1.remembered_behaviour is None
                }
        },
        r@.len() > 0,
        r@.last().0@ == "Cancel sync"@,
        r@.last().1.immediate_behaviour == cancel_behaviour,
        r@.last().1.remembered_behaviour is None,
{
    let mut items: Vec<(String, ResolvePromptResult<B>)> = Vec::new();
    let mut i: usize = 0;
    while i < options.len()
        invariant
            0 <= i <= options@.len(),
            include_always_versions ==> items@.len() == 2 * i,
            !include_always_versions ==> items@.len() == i,
            include_always_versions ==> forall|k: int|
                0 <= k < i ==> {
                    &&& (#[trigger] items@[2 * k]).0@ == spec_once_label(options@[k].0@)
                    &&& items@[2 * k].1.immediate_behaviour == options@[k].1
                    &&& items@[2 * k].1.remembered_behaviour is None
                    &&& items@[2 * k + 1].0@ == spec_always_label(options@[k].0@)
                    &&& items@[2 * k + 1].1.immediate_behaviour == options@[k].1
                    &&& items@[2 * k + 1].1.remembered_behaviour == Some(options@[k].1)
                },
            !include_always_versions ==> forall|k: int|
                0 <= k < i ==> {
                    &&& (#[trigger] items@[k]).0@ == options@[k].0@
                    &&& items@[k].1.immediate_behaviour == options@[k].1
                    &&& items@[k].1.remembered_behaviour is None
                },
        decreases options@.len() - i,
    {
        let (name, b) = &options[i];
        if include_always_versions {
            let mut once_label = name.clone();
            once_label.append(" (just this occurence)");
            items.push((once_label, ResolvePromptResult::once(*b)));
            let mut always_label = name.clone();
            always_label.append(" (all occurences)");
            items.push((always_label, ResolvePromptResult::always(*b)));
        } else {
            items.push((name.clone(), ResolvePromptResult::once(*b)));
        }
        i += 1;
    }
    items.push(("Cancel sync".to_owned(), ResolvePromptResult::once(cancel_behaviour)));
    items
}

/// One scripted prompt response: how many prompts it may still answer, the
/// pattern that selects the prompts it answers, and the answer itself.
#[derive(Debug)]
pub struct PromptResponse {
    pub max_occurrences: usize,
    pub pattern: String,
    pub response: String,
}

/// Scripted responses to prompts, consumed in order of first match; each
/// entry answers at most its configured number of prompts.
#[derive(Debug)]
pub struct TestPromptResponses {
    responses: Vec<PromptResponse>,
}

/// Relies on `regex::bytes::Regex::new` and `regex::bytes::Regex::is_match`,
/// as the filter engine does, to test a scripted pattern against a prompt.
#[verifier::external_body]
fn prompt_pattern_matches(pattern: &str, text: &str) -> (r: Option<bool>)
    ensures
        (r is Some) == regex_valid(pattern@),
        r matches Some(b) ==> b == regex_matches(pattern@, text.spec_bytes()),
{
    regex::bytes::Regex::new(pattern).ok().map(|re| re.is_match(text.as_bytes()))
}

/// The index of the first scripted response whose pattern matches the
/// prompt and whose budget is not yet used up.
pub open spec fn spec_first_response(
    entries: Seq<(int, Seq<char>)>,
    text: Seq<u8>,
) -> Option<int>
    decreases entries.len(),
{
    if entries.len() == 0 {
        None
    } else if regex_matches(entries[0].1, text) && entries[0].0 > 0 {
        Some(0int)
    } else {
        match spec_first_response(entries.drop_first(), text) {
            Some(i) => Some(i + 1),
            None => None,
        }
    }
}

impl TestPromptResponses {
    #[verifier::type_invariant]
    spec fn wf(self) -> bool {
        forall|i: int|
            0 <= i < self.responses@.len() ==> regex_valid((#[trigger] self.responses@[i]).pattern@)
    }

    /// The budgets, patterns and answers stored.
    pub closed spec fn spec_responses(self) -> Seq<(int, Seq<char>, Seq<char>)> {
        self.responses@.map_values(
            |p: PromptResponse| (p.max_occurrences as int, p.pattern@, p.response@),
        )
    }

    /// No scripted responses.
    pub fn none() -> (r: Self)
        ensures
            r.spec_responses() == Seq::<(int, Seq<char>, Seq<char>)>::empty(),
    {
        let r = TestPromptResponses { responses: Vec::new() };
        proof {
            assert(r.spec_responses() =~= Seq::<(int, Seq<char>, Seq<char>)>::empty());
        }
        r
    }

    /// Adds one scripted response; a pattern the regex engine rejects is
    /// refused.
    pub fn add(&mut self, max_occurrences: usize, pattern: String, response: String) -> (r: Result<
        (),
        String,
    >)
        ensures
            r is Ok ==> final(self).spec_responses() == old(self).spec_responses().push(
                (max_occurrences as int, pattern@, response@),
            ),
            r is Err ==> final(self).spec_responses() == old(self).spec_responses(),
    {
        proof {
            use_type_invariant(&*self);
        }
        match prompt_pattern_matches(pattern.as_str(), "") {
            Some(_) => {},
            None => {
                return Err("Invalid regex".to_owned());
            },
        }
        let ghost before = self.responses@;
        let mut v: Vec<PromptResponse> = Vec::new();
        std::mem::swap(&mut self.responses, &mut v);
        v.push(PromptResponse { max_occurrences, pattern, response });
        self.responses = v;
        proof {
            assert forall|i: int| 0 <= i < self.responses@.len() implies regex_valid(
                (#[trigger] self.responses@[i]).pattern@,
            ) by {
                if i < before.len() {
                    assert(self.responses@[i] == before[i]);
                }
            }
            assert(self.spec_responses() =~= old(self).spec_responses().push(
                (max_occurrences as int, pattern@, response@),
            ));
        }
        Ok(())
    }

    /// The response to use for a prompt, if a scripted entry matches it
    /// and still has budget; using it reduces that entry's budget by one.
    pub fn get_response(&mut self, prompt: &str) -> (r: Option<String>)
        ensures
            ({
                let entries = old(self).spec_responses().map_values(
                    |e: (int, Seq<char>, Seq<char>)| (e.0, e.1),
                );
                match spec_first_response(entries, prompt.spec_bytes()) {
                    Some(k) => r matches Some(text) && text@ == old(self).spec_responses()[k].2
                        && final(self).spec_responses() == old(self).spec_responses().update(
                        k,
                        (
                            old(self).spec_responses()[k].0 - 1,
                            old(self).spec_responses()[k].1,
                            old(self).spec_responses()[k].2,
                        ),
                    ),
                    None => r is None && final(self).spec_responses() == old(
                        self,
                    ).spec_responses(),
                }
            }),
    {
        proof {
            use_type_invariant(&*self);
        }
        let ghost entries = self.spec_responses().map_values(
            |e: (int, Seq<char>, Seq<char>)| (e.0, e.1),
        );
        let mut i: usize = 0;
        proof {
            assert(entries.skip(0) =~= entries);
        }
        while i < self.responses.len()
            invariant
                0 <= i <= self.responses@.len(),
                self.wf(),

                self.responses@ == old(self).responses@,
                entries == self.spec_responses().map_values(
                    |e: (int, Seq<char>, Seq<char>)| (e.0, e.1),
                ),
                entries.len() == self.responses@.len(),
                forall|k: int|
                    0 <= k < entries.len() ==> #[trigger] entries[k] == (
                        self.responses@[k].max_occurrences as int,
                        self.responses@[k].pattern@,
                    ),
                match spec_first_response(entries.skip(i as int), prompt.spec_bytes()) {
                    Some(k) => spec_first_response(entries, prompt.spec_bytes()) == Some(
                        k + i as int,
                    ),
                    None => spec_first_response(entries, prompt.spec_bytes()) is None,
                },
            decreases self.responses@.len() - i,
        {
            proof {
                assert(entries.skip(i as int)[0] == entries[i as int]);
                assert(entries.skip(i as int).drop_first() =~= entries.skip(i as int + 1));
            }
            let entry = &self.responses[i];
            let matched = match prompt_pattern_matches(entry.pattern.as_str(), prompt) {
                Some(b) => b,
                None => false,
            };
            if matched && entry.max_occurrences > 0 {
                let ghost before = self.responses@;
                let response = entry.response.clone();
                let new_max = entry.max_occurrences - 1;
                let pattern = entry.pattern.clone();
                let answer = entry.response.clone();
                let mut v: Vec<PromptResponse> = Vec::new();
                std::mem::swap(&mut self.responses, &mut v);
                v.remove(i);
                v.insert(
                    i,
                    PromptResponse { max_occurrences: new_max, pattern, response: answer },
                );
                proof {
                    assert forall|k: int| 0 <= k < v@.len() implies regex_valid(
                        (#[trigger] v@[k]).pattern@,
                    ) by {
                        if k != i {
                            assert(v@[k] == before[k]);
                        }
                    }
                }
                self.responses = v;
                proof {
                    assert(self.spec_responses() =~= old(self).spec_responses().update(
                        i as int,
                        (
                            old(self).spec_responses()[i as int].0 - 1,
                            old(self).spec_responses()[i as int].1,
                            old(self).spec_responses()[i as int].2,
                        ),
                    ));
                }
                return Some(response);
            }
            i += 1;
        }
        proof {
            assert(entries.skip(entries.len() as int).len() == 0);
        }
        None
    }
}

} // verus!
