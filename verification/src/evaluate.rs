//! The score report: the six scores of an evaluation, and the
//! machine-readable block that ends the text a model returns.

use vstd::prelude::*;
use vstd::string::*;

use crate::text::to_chars;

verus! {

/// The lowest score a dimension can get.
pub const MIN_SCORE: u8 = 1;

/// The highest score a dimension can get.
pub const MAX_SCORE: u8 = 10;

/// Whether `score` lies in the range of scores.
pub open spec fn is_score(score: u8) -> bool {
    MIN_SCORE <= score <= MAX_SCORE
}

/// The scores of one evaluation, one for each of the six dimensions.
#[derive(Clone, Copy, Debug)]
pub struct ResumeEvaluation {
    career: u8,
    proficiency: u8,
    impact: u8,
    communication: u8,
    innovation: u8,
    high_signal: u8,
}

/// The six scores, in the order in which the report lists them.
pub struct Scores {
    pub career: u8,
    pub proficiency: u8,
    pub impact: u8,
    pub communication: u8,
    pub innovation: u8,
    pub high_signal: u8,
}

impl Scores {
    /// Every score lies in the range of scores.
    pub open spec fn in_range(self) -> bool {
        &&& is_score(self.career)
        &&& is_score(self.proficiency)
        &&& is_score(self.impact)
        &&& is_score(self.communication)
        &&& is_score(self.innovation)
        &&& is_score(self.high_signal)
    }

    /// The sum of the six scores.
    pub open spec fn sum(self) -> int {
        self.career + self.proficiency + self.impact + self.communication + self.innovation
            + self.high_signal
    }
}

impl View for ResumeEvaluation {
    type V = Scores;

    closed spec fn view(&self) -> Scores {
        Scores {
            career: self.career,
            proficiency: self.proficiency,
            impact: self.impact,
            communication: self.communication,
            innovation: self.innovation,
            high_signal: self.high_signal,
        }
    }
}

impl ResumeEvaluation {
    #[verifier::type_invariant]
    spec fn scores_in_range(self) -> bool {
        self@.in_range()
    }

    /// The evaluation with the given scores, if every one of them lies in
    /// the range of scores.
    pub fn new(
        career: u8,
        proficiency: u8,
        impact: u8,
        communication: u8,
        innovation: u8,
        high_signal: u8,
    ) -> (made: Option<ResumeEvaluation>)
        ensures
            made is Some <==> (Scores {
                career,
                proficiency,
                impact,
                communication,
                innovation,
                high_signal,
            }).in_range(),
            made matches Some(evaluation) ==> evaluation@ == (Scores {
                career,
                proficiency,
                impact,
                communication,
                innovation,
                high_signal,
            }),
    {
        if in_range(career) && in_range(proficiency) && in_range(impact) && in_range(communication)
            && in_range(innovation) && in_range(high_signal) {
            Some(
                ResumeEvaluation {
                    career,
                    proficiency,
                    impact,
                    communication,
                    innovation,
                    high_signal,
                },
            )
        } else {
            None
        }
    }

    /// The score for the career trajectory.
    pub fn career(&self) -> (score: u8)
        ensures
            score == self@.career,
            is_score(score),
    {
        proof {
            use_type_invariant(self);
        }
        self.career
    }

    /// The score for technical proficiency.
    pub fn proficiency(&self) -> (score: u8)
        ensures
            score == self@.proficiency,
            is_score(score),
    {
        proof {
            use_type_invariant(self);
        }
        self.proficiency
    }

    /// The score for quantifiable impact.
    pub fn impact(&self) -> (score: u8)
        ensures
            score == self@.impact,
            is_score(score),
    {
        proof {
            use_type_invariant(self);
        }
        self.impact
    }

    /// The score for communication.
    pub fn communication(&self) -> (score: u8)
        ensures
            score == self@.communication,
            is_score(score),
    {
        proof {
            use_type_invariant(self);
        }
        self.communication
    }

    /// The score for innovation.
    pub fn innovation(&self) -> (score: u8)
        ensures
            score == self@.innovation,
            is_score(score),
    {
        proof {
            use_type_invariant(self);
        }
        self.innovation
    }

    /// The score for high-signal traits.
    pub fn high_signal(&self) -> (score: u8)
        ensures
            score == self@.high_signal,
            is_score(score),
    {
        proof {
            use_type_invariant(self);
        }
        self.high_signal
    }

    /// The cumulative score: the sum of the six scores.
    pub fn cumulative(&self) -> (sum: u8)
        ensures
            sum == self@.sum(),
            6 * MIN_SCORE <= sum <= 6 * MAX_SCORE,
    {
        proof {
            use_type_invariant(self);
        }
        self.career + self.proficiency + self.impact + self.communication + self.innovation
            + self.high_signal
    }
}

/// Whether `score` lies in the range of scores.
pub fn in_range(score: u8) -> (yes: bool)
    ensures
        yes == is_score(score),
{
    MIN_SCORE <= score && score <= MAX_SCORE
}

/// The last position at which `c` stands in `s`, if it stands anywhere.
pub open spec fn last_index_of(s: Seq<char>, c: char) -> Option<int>
    decreases s.len(),
{
    if s.len() == 0 {
        None
    } else if s.last() == c {
        Some(s.len() - 1)
    } else {
        last_index_of(s.drop_last(), c)
    }
}

/// What stands in `s` from its last opening brace up to and with its last
/// closing brace, if it holds both and the opening brace comes first.
pub open spec fn last_json_of(s: Seq<char>) -> Option<Seq<char>> {
    match (last_index_of(s, '{'), last_index_of(s, '}')) {
        (Some(open), Some(close)) => if open < close {
            Some(s.subrange(open, close + 1))
        } else {
            None
        },
        _ => None,
    }
}

/// `last_index_of` finds `c` where it stands last: at the position it
/// names, and nowhere behind it; it finds nothing only where `c` does not
/// stand at all.
pub proof fn lemma_last_index_of(s: Seq<char>, c: char)
    ensures
        match last_index_of(s, c) {
            Some(at) => 0 <= at < s.len() && s[at] == c && forall|i: int|
                at < i < s.len() ==> s[i] != c,
            None => forall|i: int| 0 <= i < s.len() ==> s[i] != c,
        },
    decreases s.len(),
{
    if s.len() > 0 && s.last() != c {
        lemma_last_index_of(s.drop_last(), c);
        match last_index_of(s, c) {
            Some(at) => {
                assert(s.drop_last()[at] == s[at]);
                assert forall|i: int| at < i < s.len() implies s[i] != c by {
                    if i < s.len() - 1 {
                        assert(s.drop_last()[i] == s[i]);
                    }
                }
            },
            None => {
                assert forall|i: int| 0 <= i < s.len() implies s[i] != c by {
                    if i < s.len() - 1 {
                        assert(s.drop_last()[i] == s[i]);
                    }
                }
            },
        }
    }
}

/// The last position at which `c` stands in `chars`.
fn last_position(chars: &Vec<char>, c: char) -> (found: Option<usize>)
    ensures
        match found {
            Some(at) => last_index_of(chars@, c) == Some(at as int),
            None => last_index_of(chars@, c) is None,
        },
{
    let mut end = chars.len();
    proof {
        assert(chars@.take(end as int) =~= chars@);
    }
    while end > 0
        invariant
            end <= chars.len(),
            last_index_of(chars@, c) == last_index_of(chars@.take(end as int), c),
        decreases end,
    {
        proof {
            assert(chars@.take(end as int).drop_last() =~= chars@.take(end - 1));
        }
        if chars[end - 1] == c {
            return Some(end - 1);
        }
        end = end - 1;
    }
    None
}

/// The machine-readable block at the end of `text`: what stands from the
/// last opening brace up to and with the last closing brace. There is none
/// where a brace is missing or the last closing brace comes first.
pub fn extract_last_json(text: &str) -> (block: Option<&str>)
    ensures
        match block {
            Some(found) => last_json_of(text@) == Some(found@),
            None => last_json_of(text@) is None,
        },
{
    let chars = to_chars(text);
    let last_open_brace = match last_position(&chars, '{') {
        Some(at) => at,
        None => {
            return None;
        },
    };
    let last_close_brace = match last_position(&chars, '}') {
        Some(at) => at,
        None => {
            return None;
        },
    };
    let len = chars.len();
    proof {
        lemma_last_index_of(text@, '}');
        assert(last_close_brace < len);
    }
    if last_open_brace < last_close_brace {
        Some(text.substring_char(last_open_brace, last_close_brace + 1))
    } else {
        None
    }
}

/// Where the credential of the inference service comes from.
#[derive(Debug)]
pub enum CredentialSource {
    /// The value found in the environment.
    Environment(String),
    /// The secrets provider, asked for the parameter of this name.
    Provider(String),
}

/// Decides where the credential comes from: a value set in the environment
/// takes precedence; without one, the secrets provider is asked for
/// `parameter`.
pub fn resolve_credential(overriding: Option<String>, parameter: &str) -> (source: CredentialSource)
    ensures
        match overriding {
            Some(value) => source matches CredentialSource::Environment(used) && used@ == value@,
            None => source matches CredentialSource::Provider(name) && name@ == parameter@,
        },
{
    match overriding {
        Some(value) => CredentialSource::Environment(value),
        None => CredentialSource::Provider(String::from_str(parameter)),
    }
}

} // verus!
