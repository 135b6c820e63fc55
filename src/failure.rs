//! The policy for paths that cannot be read: retry, skip this one, or skip
//! this one and every later one without asking again.
use vstd::prelude::*;

verus! {

broadcast use vstd::string::axiom_spec_iter;

/// Whether `c` has the Unicode `White_Space` property.
pub open spec fn is_white_space_spec(c: char) -> bool {
    ('\u{9}' <= c && c <= '\u{d}') || c == ' ' || c == '\u{85}' || c == '\u{a0}'
        || c == '\u{1680}' || ('\u{2000}' <= c && c <= '\u{200a}') || c == '\u{2028}'
        || c == '\u{2029}' || c == '\u{202f}' || c == '\u{205f}' || c == '\u{3000}'
}

/// Whether `c` has the Unicode `White_Space` property, as `char::is_whitespace`
/// decides it.
pub fn is_white_space(c: char) -> (r: bool)
    ensures
        r == is_white_space_spec(c),
{
    ('\u{9}' <= c && c <= '\u{d}') || c == ' ' || c == '\u{85}' || c == '\u{a0}'
        || c == '\u{1680}' || ('\u{2000}' <= c && c <= '\u{200a}') || c == '\u{2028}'
        || c == '\u{2029}' || c == '\u{202f}' || c == '\u{205f}' || c == '\u{3000}'
}

/// Whether `k` is the position of the first character of `s` that is not
/// white space.
pub open spec fn is_first_printed(s: Seq<char>, k: int) -> bool {
    &&& 0 <= k < s.len()
    &&& !is_white_space_spec(s[k])
    &&& forall|j: int| 0 <= j < k ==> is_white_space_spec(#[trigger] s[j])
}

/// The first character of an answer once leading white space is dropped.
pub open spec fn choice_of(answer: Seq<char>) -> Option<char> {
    if exists|k: int| is_first_printed(answer, k) {
        Some(answer[choose|k: int| is_first_printed(answer, k)])
    } else {
        None
    }
}

/// Whether the answer asks to skip every later unreadable path too.
pub open spec fn answers_ignore_all(answer: Seq<char>) -> bool {
    choice_of(answer) == Some('a') || choice_of(answer) == Some('A')
}

/// Whether the answer asks to skip the path; anything unrecognised retries.
pub open spec fn answers_skip(answer: Seq<char>) -> bool {
    answers_ignore_all(answer) || choice_of(answer) == Some('i') || choice_of(answer) == Some('I')
}

proof fn lemma_first_printed_unique(s: Seq<char>, k: int)
    requires
        is_first_printed(s, k),
    ensures
        choice_of(s) == Some(s[k]),
{
    let c = choose|c: int| is_first_printed(s, c);
    assert(is_first_printed(s, c));
    if c < k {
        assert(is_white_space_spec(s[c]));
    } else if k < c {
        assert(is_white_space_spec(s[k]));
    }
}

/// The first character of `answer` that is not white space.
pub fn first_choice(answer: &str) -> (r: Option<char>)
    ensures
        r == choice_of(answer@),
{
    let mut first: Option<char> = None;
    let ghost mut pos: int = 0;
    for c in it: answer.chars()
        invariant
            it.seq() == answer@,
            first is None ==> forall|j: int| 0 <= j < it.index() ==> is_white_space_spec(#[trigger] answer@[j]),
            first matches Some(f) ==> is_first_printed(answer@, pos) && answer@[pos] == f,
    {
        if first.is_none() && !is_white_space(c) {
            first = Some(c);
            proof {
                pos = it.index() as int;
            }
        }
    }
    proof {
        if first is Some {
            lemma_first_printed_unique(answer@, pos);
        } else if exists|k: int| is_first_printed(answer@, k) {
            let k = choose|k: int| is_first_printed(answer@, k);
            assert(is_white_space_spec(answer@[k]));
        }
    }
    first
}

/// The run-wide answer to unreadable paths. Once the operator has chosen to
/// ignore all of them, the flag stays set for the rest of the run.
pub struct FailurePolicy {
    ignore_all: bool,
}

impl View for FailurePolicy {
    type V = bool;

    /// Whether every later unreadable path is skipped without asking.
    closed spec fn view(&self) -> bool {
        self.ignore_all
    }
}

impl FailurePolicy {
    /// A policy that still asks.
    pub fn new() -> (r: FailurePolicy)
        ensures
            !r@,
    {
        FailurePolicy { ignore_all: false }
    }

    /// Whether an unreadable path is skipped at once, with no question asked.
    pub fn skips_silently(&self) -> (r: bool)
        ensures
            r == self@,
    {
        self.ignore_all
    }

    /// Settles one unreadable path. Returns `true` to skip it and `false` to
    /// retry the operation that failed. With the ignore-all flag set the path
    /// is skipped whatever `answer` says; otherwise `answer` is the
    /// operator's reply, of which the first character after leading white
    /// space counts: `a` or `A` skips and sets the flag, `i` or `I` skips,
    /// anything else (nothing included) retries.
    pub fn failed_access(&mut self, answer: &str) -> (r: bool)
        ensures
            r == resolves_skip(old(self)@, answer@),
            final(self)@ == next_flag(old(self)@, answer@),
    {
        if self.ignore_all {
            return true;
        }
        match first_choice(answer) {
            Some(c) => {
                if c == 'a' || c == 'A' {
                    self.ignore_all = true;
                    true
                } else {
                    c == 'i' || c == 'I'
                }
            },
            None => false,
        }
    }
}

/// The ignore-all flag after one unreadable path answered with `answer`.
pub open spec fn next_flag(flag: bool, answer: Seq<char>) -> bool {
    flag || answers_ignore_all(answer)
}

/// Whether an unreadable path is skipped, given the flag and the answer.
pub open spec fn resolves_skip(flag: bool, answer: Seq<char>) -> bool {
    flag || answers_skip(answer)
}

/// The ignore-all flag after a run of unreadable paths answered in turn.
pub open spec fn flag_after(flag: bool, answers: Seq<Seq<char>>) -> bool
    decreases answers.len(),
{
    if answers.len() == 0 {
        flag
    } else {
        flag_after(next_flag(flag, answers[0]), answers.drop_first())
    }
}

proof fn lemma_set_flag_stays(answers: Seq<Seq<char>>)
    ensures
        flag_after(true, answers),
    decreases answers.len(),
{
    if answers.len() > 0 {
        lemma_set_flag_stays(answers.drop_first());
    }
}

/// Once the ignore-all flag is set, it stays set through any later run of
/// unreadable paths, from whichever walk they come, and each of them is
/// skipped whatever is answered.
pub proof fn lemma_ignore_all_is_final(answers: Seq<Seq<char>>)
    ensures
        forall|i: int| 0 <= i <= answers.len() ==> #[trigger] flag_after(true, answers.take(i)),
        forall|i: int|
            0 <= i < answers.len() ==> resolves_skip(flag_after(true, answers.take(i)), #[trigger] answers[i]),
{
    assert forall|i: int| 0 <= i <= answers.len() implies #[trigger] flag_after(true, answers.take(i)) by {
        lemma_set_flag_stays(answers.take(i));
    }
    assert forall|i: int| 0 <= i < answers.len() implies resolves_skip(
        flag_after(true, answers.take(i)),
        #[trigger] answers[i],
    ) by {
        lemma_set_flag_stays(answers.take(i));
    }
}

} // verus!
