//! The question builder: one `word:meaning` line becomes a
//! fill-in-the-blank puzzle with a randomly chosen answer letter and four
//! random decoy letters.

use crate::rng::{draw_char, pick_char, rand_below, shuffle};
use crate::text::{
    chars_to_string, find_char, first_idx, is_letter, is_lower_letter, lemma_first_idx,
    lemma_letters_of, lemma_lower_seq_no_upper, letters_of, letters_vec, lower_vec,
    meaning_of_line, subvec, to_chars, trim_spec, trim_vec, word_of_line,
};
use vstd::prelude::*;
use vstd::string::StringExecFns;

verus! {

broadcast use vstd::seq_lib::group_to_multiset_ensures;

/// The fixed-width blank put in place of the answer letter.
pub open spec fn marker() -> Seq<char> {
    seq!['[', ' ', ']']
}

/// `w` with its first occurrence of `a` replaced by the blank marker;
/// `w` unchanged when `a` does not occur.
pub open spec fn blank_first(w: Seq<char>, a: char) -> Seq<char> {
    let i = first_idx(w, a);
    if i < w.len() {
        w.subrange(0, i) + marker() + w.subrange(i + 1, w.len() as int)
    } else {
        w
    }
}

/// The fill-in-the-blank body: with a one-letter answer the letter is
/// blanked out of the word; with the degenerate empty answer the marker
/// is prepended, as replacing an empty pattern inserts at the front.
pub open spec fn prompt_body(w: Seq<char>, ans: Seq<char>) -> Seq<char> {
    if ans.len() == 1 {
        blank_first(w, ans[0])
    } else {
        marker() + w
    }
}

/// The full prompt: blanked word, a space and a colon, then the meaning.
pub open spec fn prompt_of(w: Seq<char>, ans: Seq<char>, m: Seq<char>) -> Seq<char> {
    prompt_body(w, ans) + seq![' ', ':'] + m
}

/// A decoy option: one lowercase letter other than the answer.
pub open spec fn is_decoy(o: Seq<char>, ans: Seq<char>) -> bool {
    o.len() == 1 && is_lower_letter(o[0]) && o != ans
}

/// The 26 lowercase letters decoys are drawn from.
pub open spec fn alphabet() -> Seq<char> {
    seq![
        'a', 'b', 'c', 'd', 'e', 'f', 'g', 'h', 'i', 'j', 'k', 'l', 'm', 'n', 'o', 'p', 'q',
        'r', 's', 't', 'u', 'v', 'w', 'x', 'y', 'z',
    ]
}

/// One fill-in-the-blank puzzle, immutable once built.
#[derive(Debug, Default)]
pub struct Question {
    /// The displayed prompt: the blanked word followed by the meaning.
    pub question: String,
    /// The normalized (trimmed, lowercased) source word.
    pub word: String,
    /// The answer: one lowercase letter of the word, or empty when the
    /// word holds no letter.
    pub answer: String,
    /// Five candidate answers: the answer and four distinct decoys, in
    /// random order.
    pub options: Vec<String>,
}

/// Everything `Question::from_str` guarantees about a question built from
/// `line`: the normalized word, the prompt layout, an answer drawn from
/// the word's letters, and five distinct options containing the answer.
pub open spec fn built_from(q: Question, line: Seq<char>) -> bool {
    let w = word_of_line(line);
    let m = meaning_of_line(line);
    let pool = letters_of(w);
    &&& q.word@ == w
    &&& (pool.len() == 0 ==> q.answer@.len() == 0)
    &&& (pool.len() > 0 ==> q.answer@.len() == 1 && pool.contains(q.answer@[0])
        && is_lower_letter(q.answer@[0]))
    &&& q.question@ == prompt_of(w, q.answer@, m)
    &&& q.options.deep_view().len() == 5
    &&& q.options.deep_view().contains(q.answer@)
    &&& q.options.deep_view().no_duplicates()
    &&& (forall|i: int|
        0 <= i < 5 && #[trigger] q.options.deep_view()[i] != q.answer@ ==> is_decoy(
            q.options.deep_view()[i],
            q.answer@,
        ))
}

/// Removing one position from a duplicate-free sequence keeps it
/// duplicate-free, drops that element entirely, and keeps the rest.
proof fn lemma_remove_keeps(s: Seq<char>, j: int)
    requires
        0 <= j < s.len(),
        s.no_duplicates(),
    ensures
        s.remove(j).no_duplicates(),
        !s.remove(j).contains(s[j]),
        forall|c: char| s.remove(j).contains(c) ==> s.contains(c),
{
    let r = s.remove(j);
    assert forall|p: int, q: int| 0 <= p < r.len() && 0 <= q < r.len() && p != q implies r[p]
        != r[q] by {
        let p0 = if p < j {
            p
        } else {
            p + 1
        };
        let q0 = if q < j {
            q
        } else {
            q + 1
        };
        assert(r[p] == s[p0] && r[q] == s[q0]);
    }
    assert forall|p: int| 0 <= p < r.len() implies r[p] != s[j] by {
        let p0 = if p < j {
            p
        } else {
            p + 1
        };
        assert(r[p] == s[p0] && p0 != j);
    }
    assert forall|c: char| r.contains(c) implies s.contains(c) by {
        let p = choose|p: int| 0 <= p < r.len() && r[p] == c;
        let p0 = if p < j {
            p
        } else {
            p + 1
        };
        assert(s[p0] == c);
    }
    if r.contains(s[j]) {
        let p = choose|p: int| 0 <= p < r.len() && r[p] == s[j];
        assert(r[p] != s[j]);
    }
}

/// `w` with the first occurrence of `a` blanked out, as a vector.
fn blank_vec(w: &Vec<char>, a: char) -> (r: Vec<char>)
    ensures
        r@ == blank_first(w@, a),
{
    proof {
        lemma_first_idx(w@, a);
    }
    let i = find_char(w, a);
    if i < w.len() {
        let mut r = subvec(w, 0, i);
        r.push('[');
        r.push(' ');
        r.push(']');
        let mut tail = subvec(w, i + 1, w.len());
        r.append(&mut tail);
        assert(r@ =~= blank_first(w@, a));
        r
    } else {
        let r = subvec(w, 0, w.len());
        assert(r@ =~= w@);
        r
    }
}

/// The 26 lowercase letters as a vector.
fn alphabet_vec() -> (r: Vec<char>)
    ensures
        r@ == alphabet(),
{
    let mut r: Vec<char> = Vec::new();
    r.push('a');
    r.push('b');
    r.push('c');
    r.push('d');
    r.push('e');
    r.push('f');
    r.push('g');
    r.push('h');
    r.push('i');
    r.push('j');
    r.push('k');
    r.push('l');
    r.push('m');
    r.push('n');
    r.push('o');
    r.push('p');
    r.push('q');
    r.push('r');
    r.push('s');
    r.push('t');
    r.push('u');
    r.push('v');
    r.push('w');
    r.push('x');
    r.push('y');
    r.push('z');
    assert(r@ =~= alphabet());
    r
}

impl Question {
    /// Builds a puzzle from one `word:meaning` line. The part before the
    /// first colon, trimmed and lowercased, is the word; the trimmed rest
    /// is the meaning; without a colon the whole line is the word. One
    /// letter of the word, chosen at random, becomes the answer and is
    /// blanked in the prompt; four distinct random decoy letters complete
    /// the options. A word without letters yields an empty answer.
    pub fn from_str(question_str: &str) -> (q: Question)
        ensures
            built_from(q, question_str@),
    {
        let line = to_chars(question_str);
        proof {
            lemma_first_idx(line@, ':');
        }
        let ci = find_char(&line, ':');
        let raw_word = subvec(&line, 0, ci);
        let raw_mean: Vec<char> = if ci < line.len() {
            subvec(&line, ci + 1, line.len())
        } else {
            Vec::new()
        };
        let word_chars = lower_vec(&trim_vec(&raw_word));
        let mean_chars = trim_vec(&raw_mean);
        let ghost w = word_of_line(line@);
        let ghost m = meaning_of_line(line@);
        assert(word_chars@ == w);
        assert(mean_chars@ == m);

        let pool = letters_vec(&word_chars);
        let mut answer_chars: Vec<char> = Vec::new();
        if pool.len() > 0 {
            let a = pick_char(&pool);
            answer_chars.push(a);
        }
        proof {
            lemma_letters_of(w);
            lemma_lower_seq_no_upper(trim_spec(line@.subrange(0, first_idx(line@, ':'))));
            if pool@.len() > 0 {
                let k = choose|k: int| 0 <= k < pool@.len() && pool@[k] == answer_chars@[0];
                assert(is_letter(pool@[k]));
                let j = choose|j: int| 0 <= j < w.len() && w[j] == answer_chars@[0];
                assert(is_lower_letter(w[j]));
            }
        }

        let mut prompt_chars: Vec<char>;
        if answer_chars.len() == 1 {
            prompt_chars = blank_vec(&word_chars, answer_chars[0]);
        } else {
            prompt_chars = Vec::new();
            prompt_chars.push('[');
            prompt_chars.push(' ');
            prompt_chars.push(']');
            let mut body_tail = subvec(&word_chars, 0, word_chars.len());
            prompt_chars.append(&mut body_tail);
            assert(prompt_chars@ =~= marker() + w);
        }
        assert(prompt_chars@ == prompt_body(w, answer_chars@));
        prompt_chars.push(' ');
        prompt_chars.push(':');
        let mut mean_tail = subvec(&mean_chars, 0, mean_chars.len());
        prompt_chars.append(&mut mean_tail);
        assert(prompt_chars@ =~= prompt_of(w, answer_chars@, m));

        let mut alpha = alphabet_vec();
        proof {
            assert(alpha@.no_duplicates());
            assert(forall|i: int| 0 <= i < alpha@.len() ==> is_lower_letter(#[trigger] alpha@[i]));
        }
        if answer_chars.len() == 1 {
            proof {
                lemma_first_idx(alpha@, answer_chars@[0]);
            }
            let ai = find_char(&alpha, answer_chars[0]);
            if ai < alpha.len() {
                proof {
                    lemma_remove_keeps(alpha@, ai as int);
                }
                alpha.remove(ai);
            }
        }
        let ghost ans = answer_chars@;
        assert(forall|i: int| 0 <= i < alpha@.len() ==> is_lower_letter(#[trigger] alpha@[i]));
        assert(alpha@.no_duplicates());
        assert(ans.len() == 1 ==> !alpha@.contains(ans[0]));
        assert(alpha@.len() >= 25);

        let mut opts: Vec<String> = Vec::new();
        let mut k: usize = 0;
        while k < 4
            invariant
                k <= 4,
                opts@.len() == k,
                opts.deep_view().len() == k,
                alpha@.len() + k >= 25,
                alpha@.no_duplicates(),
                forall|i: int| 0 <= i < alpha@.len() ==> is_lower_letter(#[trigger] alpha@[i]),
                ans.len() == 1 ==> !alpha@.contains(ans[0]),
                forall|i: int| 0 <= i < k ==> is_decoy(#[trigger] opts.deep_view()[i], ans),
                opts.deep_view().no_duplicates(),
                forall|i: int|
                    0 <= i < k ==> !alpha@.contains(#[trigger] opts.deep_view()[i][0]),
            decreases 4 - k,
        {
            let ghost alpha_pre = alpha@;
            let ghost opts_pre = opts.deep_view();
            let c = draw_char(&mut alpha);
            proof {
                let j = choose|j: int|
                    0 <= j < alpha_pre.len() && c == alpha_pre[j] && alpha@ == alpha_pre.remove(j);
                lemma_remove_keeps(alpha_pre, j);
            }
            let mut cv: Vec<char> = Vec::new();
            cv.push(c);
            let s = chars_to_string(&cv);
            assert(s@ =~= seq![c]);
            opts.push(s);
            proof {
                assert(opts.deep_view() =~= opts_pre.push(seq![c]));
                assert(is_decoy(seq![c], ans));
                assert forall|i: int| 0 <= i < opts.deep_view().len() implies !alpha@.contains(
                    #[trigger] opts.deep_view()[i][0],
                ) by {
                    if i < opts_pre.len() {
                        assert(opts.deep_view()[i] == opts_pre[i]);
                    }
                }
                assert forall|p: int, q: int|
                    0 <= p < opts.deep_view().len() && 0 <= q < opts.deep_view().len() && p
                        != q implies opts.deep_view()[p] != opts.deep_view()[q] by {
                    if q == opts_pre.len() && p < opts_pre.len() {
                        assert(!alpha_pre.contains(opts_pre[p][0]));
                        assert(alpha_pre.contains(c));
                        assert(opts_pre[p][0] != c);
                        assert(opts.deep_view()[q][0] == c);
                    } else if p == opts_pre.len() && q < opts_pre.len() {
                        assert(!alpha_pre.contains(opts_pre[q][0]));
                        assert(alpha_pre.contains(c));
                        assert(opts_pre[q][0] != c);
                        assert(opts.deep_view()[p][0] == c);
                    }
                }
            }
            k = k + 1;
        }

        let answer = chars_to_string(&answer_chars);
        assert(answer@ == ans);
        let ghost opts_pre_ans = opts.deep_view();
        opts.push(answer.clone());
        proof {
            assert(opts.deep_view() =~= opts_pre_ans.push(ans));
            assert(opts.deep_view()[4] == ans);
            assert forall|p: int, q: int|
                0 <= p < 5 && 0 <= q < 5 && p != q implies opts.deep_view()[p]
                != opts.deep_view()[q] by {
                if q == 4 && p < 4 {
                    assert(is_decoy(opts_pre_ans[p], ans));
                } else if p == 4 && q < 4 {
                    assert(is_decoy(opts_pre_ans[q], ans));
                }
            }
        }
        let ghost pre_shuffle = opts.deep_view();
        let options = shuffle(opts);
        proof {
            let post = options.deep_view();
            assert(pre_shuffle.contains(ans));
            assert(pre_shuffle.to_multiset().count(ans) > 0);
            assert(post.to_multiset().count(ans) > 0);
            assert(post.contains(ans));
            pre_shuffle.lemma_multiset_has_no_duplicates();
            post.lemma_multiset_has_no_duplicates_conv();
            assert forall|i: int| 0 <= i < 5 && #[trigger] post[i] != ans implies is_decoy(
                post[i],
                ans,
            ) by {
                assert(post.to_multiset().count(post[i]) > 0);
                assert(pre_shuffle.to_multiset().count(post[i]) > 0);
                assert(pre_shuffle.contains(post[i]));
                let j = choose|j: int| 0 <= j < pre_shuffle.len() && pre_shuffle[j] == post[i];
                assert(j < 4 ==> is_decoy(pre_shuffle[j], ans));
            }
        }

        let q = Question {
            question: chars_to_string(&prompt_chars),
            word: chars_to_string(&word_chars),
            answer,
            options,
        };
        q
    }

    /// The option text to show on one enemy: every fifth enemy carries
    /// the true answer, any other a randomly chosen option.
    pub fn display_option(&self, enemy_count: usize) -> (r: String)
        requires
            self.options@.len() > 0,
            enemy_count < usize::MAX,
        ensures
            (enemy_count + 1) % 5 == 0 ==> r@ == self.answer@,
            (enemy_count + 1) % 5 != 0 ==> self.options.deep_view().contains(r@),
    {
        if (enemy_count + 1) % 5 == 0 {
            self.answer.clone()
        } else {
            let j = rand_below(self.options.len());
            let s = self.options[j].clone();
            proof {
                assert(self.options.deep_view()[j as int] == s@);
            }
            s
        }
    }

    /// The pronunciation asset path for this question's word, with every
    /// space replaced by an underscore.
    pub fn audio_path(&self) -> (r: String)
        ensures
            r@ == "audios/"@ + underscored(self.word@) + "_1.mp3"@,
    {
        let wc = to_chars(self.word.as_str());
        let n = wc.len();
        let mut u: Vec<char> = Vec::new();
        let mut i: usize = 0;
        while i < n
            invariant
                i <= n,
                n == wc@.len(),
                u@ == underscored(wc@.subrange(0, i as int)),
            decreases n - i,
        {
            let c = wc[i];
            if c == ' ' {
                u.push('_');
            } else {
                u.push(c);
            }
            assert(u@ =~= underscored(wc@.subrange(0, i + 1 as int)));
            i = i + 1;
        }
        assert(wc@.subrange(0, n as int) =~= wc@);
        let mut r = String::from_str("audios/");
        let mid = chars_to_string(&u);
        r.append(mid.as_str());
        r.append("_1.mp3");
        r
    }
}

/// `s` with every space replaced by an underscore.
pub open spec fn underscored(s: Seq<char>) -> Seq<char> {
    s.map_values(
        |c: char|
            if c == ' ' {
                '_'
            } else {
                c
            },
    )
}

} // verus!
