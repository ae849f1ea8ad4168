//! The quiz sequencer: an ordered list of questions and a cursor, with
//! loading from newline-delimited text, answer checking, and advancing.

use crate::question::{built_from, Question};
use crate::text::{
    chars_to_string, find_char, kept_lines, lemma_first_idx, quiz_lines, split_lines, str_equal,
    subvec, to_chars, trim_spec, trim_vec,
};
use vstd::prelude::*;

verus! {

/// A loaded quiz: questions in source order and a cursor that only moves
/// forward. Once the cursor passes the last question the quiz is complete
/// and there is no current question.
#[derive(Debug, Default)]
pub struct Exercise {
    /// The questions, one per non-empty line of the source text.
    pub questions: Vec<Question>,
    /// Index of the current question; starts at 0 and only grows.
    pub current_index: usize,
}

/// The sequencer after a number of `next` calls: each call moves the
/// cursor forward by exactly one.
pub open spec fn after_advances(ex: Exercise, steps: nat) -> Exercise {
    Exercise { questions: ex.questions, current_index: (ex.current_index + steps) as usize }
}

/// The newline-separated segments of `v`, each as its own vector.
fn split_segments(v: Vec<char>) -> (r: Vec<Vec<char>>)
    ensures
        r.deep_view() == split_lines(v@),
    decreases v@.len(),
{
    let ghost gv = v@;
    proof {
        lemma_first_idx(gv, '\n');
    }
    let i = find_char(&v, '\n');
    if i < v.len() {
        let head = subvec(&v, 0, i);
        let tail = subvec(&v, i + 1, v.len());
        let mut rest = split_segments(tail);
        rest.insert(0, head);
        proof {
            assert(rest.deep_view() =~~= seq![gv.subrange(0, i as int)] + split_lines(
                gv.subrange(i + 1 as int, gv.len() as int),
            ));
        }
        rest
    } else {
        let mut r: Vec<Vec<char>> = Vec::new();
        r.push(v);
        proof {
            assert(r.deep_view() =~~= seq![gv]);
        }
        r
    }
}

impl Exercise {
    /// Loads a quiz from newline-delimited text: every trimmed, non-empty
    /// line becomes one question, in source order; the cursor starts at 0.
    pub fn from_str(question_str: &str) -> (ex: Exercise)
        ensures
            ex.current_index == 0,
            ex.questions@.len() == quiz_lines(question_str@).len(),
            forall|i: int|
                0 <= i < ex.questions@.len() ==> built_from(
                    #[trigger] ex.questions@[i],
                    quiz_lines(question_str@)[i],
                ),
    {
        let chars = to_chars(question_str);
        let segs = split_segments(chars);
        let ghost sv = segs.deep_view();
        let n = segs.len();
        let mut questions: Vec<Question> = Vec::new();
        let mut k: usize = 0;
        while k < n
            invariant
                k <= n,
                n == segs@.len(),
                sv == segs.deep_view(),
                sv.len() == segs@.len(),
                questions@.len() == kept_lines(sv.subrange(0, k as int)).len(),
                forall|i: int|
                    0 <= i < questions@.len() ==> built_from(
                        #[trigger] questions@[i],
                        kept_lines(sv.subrange(0, k as int))[i],
                    ),
            decreases n - k,
        {
            let t = trim_vec(&segs[k]);
            proof {
                assert(segs@[k as int].deep_view() =~= segs@[k as int]@);
                assert(sv.subrange(0, k + 1 as int).drop_last() =~= sv.subrange(0, k as int));
                assert(sv.subrange(0, k + 1 as int).last() == sv[k as int]);
                assert(t@ == trim_spec(sv[k as int]));
            }
            if t.len() > 0 {
                let s = chars_to_string(&t);
                let q = Question::from_str(s.as_str());
                questions.push(q);
            }
            k = k + 1;
        }
        proof {
            assert(sv.subrange(0, sv.len() as int) =~= sv);
        }
        Exercise { questions, current_index: 0 }
    }

    /// Whether a current question exists: the cursor is still in range.
    pub open spec fn has_current(&self) -> bool {
        self.current_index < self.questions@.len()
    }

    /// The current question, absent once the quiz is complete.
    pub open spec fn spec_current(&self) -> Option<Question> {
        if self.has_current() {
            Some(self.questions@[self.current_index as int])
        } else {
            None
        }
    }

    /// What `check` returns: a current question exists and its stored
    /// answer equals the candidate exactly.
    pub open spec fn spec_check(&self, candidate: Seq<char>) -> bool {
        self.has_current() && self.spec_current()->0.answer@ == candidate
    }

    /// The current question, or `None` once the cursor has passed the end.
    pub fn get(&self) -> (r: Option<&Question>)
        ensures
            r is Some <==> self.has_current(),
            r matches Some(q) ==> *q == self.spec_current()->0,
    {
        if self.current_index < self.questions.len() {
            Some(&self.questions[self.current_index])
        } else {
            None
        }
    }

    /// Whether `answer` is exactly the current question's answer; `false`
    /// once the quiz is complete.
    pub fn check(&self, answer: &str) -> (r: bool)
        ensures
            r == self.spec_check(answer@),
    {
        if self.current_index < self.questions.len() {
            str_equal(self.questions[self.current_index].answer.as_str(), answer)
        } else {
            false
        }
    }

    /// All loaded questions, in source order.
    pub fn get_questions(&self) -> (r: &Vec<Question>)
        ensures
            r == &self.questions,
    {
        &self.questions
    }

    /// Moves the cursor forward by one, unconditionally; callers detect
    /// completion through `get` afterwards.
    pub fn next(&mut self)
        requires
            old(self).current_index < usize::MAX,
        ensures
            final(self).current_index == old(self).current_index + 1,
            final(self).questions == old(self).questions,
            *final(self) == after_advances(*old(self), 1),
    {
        self.current_index = self.current_index + 1;
    }
}

/// A quiz checked against its own current answer always reports success.
pub proof fn lemma_check_reflexive(ex: Exercise)
    requires
        ex.has_current(),
    ensures
        ex.spec_check(ex.spec_current()->0.answer@),
{
}

/// A candidate that differs from the current answer always fails the
/// check, as does any candidate once the quiz is complete.
pub proof fn lemma_check_exact(ex: Exercise, candidate: Seq<char>)
    requires
        !ex.has_current() || candidate != ex.spec_current()->0.answer@,
    ensures
        !ex.spec_check(candidate),
{
}

/// Advancing a freshly loaded quiz as many times as it has questions
/// exhausts it, and one step fewer leaves a current question; `next`
/// moves the cursor by exactly one, so `steps` calls land on
/// `current_index == steps`.
pub proof fn lemma_advances_exhaust(ex: Exercise, steps: nat)
    requires
        ex.current_index == 0,
        steps <= usize::MAX,
    ensures
        after_advances(ex, steps).has_current() <==> steps < ex.questions@.len(),
        steps == ex.questions@.len() ==> !after_advances(ex, steps).has_current(),
        ex.questions@.len() > 0 && steps == ex.questions@.len() - 1 ==> after_advances(
            ex,
            steps,
        ).has_current(),
{
}

/// Advancing twice is advancing by the sum of the steps.
pub proof fn lemma_advances_compose(ex: Exercise, a: nat, b: nat)
    requires
        ex.current_index + a + b <= usize::MAX,
    ensures
        after_advances(after_advances(ex, a), b) == after_advances(ex, a + b),
{
}

} // verus!
