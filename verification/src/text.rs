//! Character and string helpers shared by the question builder and the
//! quiz sequencer: lowercasing, trimming, letter extraction, first-index
//! search and line splitting, each specified over `Seq<char>`.

use vstd::prelude::*;
use vstd::string::StrSliceExecFns;

verus! {

/// An ASCII letter, either case.
pub open spec fn is_letter(c: char) -> bool {
    (97 <= c as u32 && c as u32 <= 122) || (65 <= c as u32 && c as u32 <= 90)
}

/// An ASCII lowercase letter.
pub open spec fn is_lower_letter(c: char) -> bool {
    97 <= c as u32 && c as u32 <= 122
}

/// Whether a character counts as trimmable whitespace.
pub open spec fn is_space(c: char) -> bool {
    c == ' ' || c == '\t' || c == '\r' || c == '\n'
}

/// ASCII lowercasing of a single character; anything outside `A..=Z`
/// is left unchanged.
pub open spec fn lower_char(c: char) -> char {
    match c {
        'A' => 'a',
        'B' => 'b',
        'C' => 'c',
        'D' => 'd',
        'E' => 'e',
        'F' => 'f',
        'G' => 'g',
        'H' => 'h',
        'I' => 'i',
        'J' => 'j',
        'K' => 'k',
        'L' => 'l',
        'M' => 'm',
        'N' => 'n',
        'O' => 'o',
        'P' => 'p',
        'Q' => 'q',
        'R' => 'r',
        'S' => 's',
        'T' => 't',
        'U' => 'u',
        'V' => 'v',
        'W' => 'w',
        'X' => 'x',
        'Y' => 'y',
        'Z' => 'z',
        _ => c,
    }
}

/// ASCII lowercasing of a whole sequence.
pub open spec fn lower_seq(s: Seq<char>) -> Seq<char> {
    s.map_values(|c: char| lower_char(c))
}

/// The sequence without its leading whitespace.
pub open spec fn trim_front(s: Seq<char>) -> Seq<char>
    decreases s.len(),
{
    if s.len() > 0 && is_space(s[0]) {
        trim_front(s.drop_first())
    } else {
        s
    }
}

/// The sequence without its trailing whitespace.
pub open spec fn trim_back(s: Seq<char>) -> Seq<char>
    decreases s.len(),
{
    if s.len() > 0 && is_space(s[s.len() - 1]) {
        trim_back(s.drop_last())
    } else {
        s
    }
}

/// The sequence without leading and trailing whitespace.
pub open spec fn trim_spec(s: Seq<char>) -> Seq<char> {
    trim_back(trim_front(s))
}

/// The ASCII letters of `s`, in order.
pub open spec fn letters_of(s: Seq<char>) -> Seq<char>
    decreases s.len(),
{
    if s.len() == 0 {
        Seq::empty()
    } else if is_letter(s.last()) {
        letters_of(s.drop_last()).push(s.last())
    } else {
        letters_of(s.drop_last())
    }
}

/// The index of the first occurrence of `c` in `s`, or `s.len()` if
/// `c` does not occur.
pub open spec fn first_idx(s: Seq<char>, c: char) -> int
    decreases s.len(),
{
    if s.len() == 0 {
        0
    } else if s[0] == c {
        0
    } else {
        1 + first_idx(s.drop_first(), c)
    }
}

/// `first_idx` lies in `0..=s.len()`, points at `c` when it is in range,
/// and nothing before it equals `c`.
pub proof fn lemma_first_idx(s: Seq<char>, c: char)
    ensures
        0 <= first_idx(s, c) <= s.len(),
        first_idx(s, c) < s.len() ==> s[first_idx(s, c)] == c,
        forall|j: int| 0 <= j < first_idx(s, c) ==> s[j] != c,
    decreases s.len(),
{
    if s.len() > 0 && s[0] != c {
        lemma_first_idx(s.drop_first(), c);
        assert forall|j: int| 0 <= j < first_idx(s, c) implies s[j] != c by {
            if j > 0 {
                assert(s.drop_first()[j - 1] == s[j]);
            }
        }
    }
}

/// Every letter extracted by `letters_of` occurs in the source and is an
/// ASCII letter.
pub proof fn lemma_letters_of(s: Seq<char>)
    ensures
        forall|i: int| 0 <= i < letters_of(s).len() ==> is_letter(#[trigger] letters_of(s)[i]),
        forall|i: int| 0 <= i < letters_of(s).len() ==> s.contains(#[trigger] letters_of(s)[i]),
    decreases s.len(),
{
    if s.len() > 0 {
        lemma_letters_of(s.drop_last());
        assert forall|i: int| 0 <= i < letters_of(s).len() implies s.contains(
            #[trigger] letters_of(s)[i],
        ) by {
            if i < letters_of(s.drop_last()).len() {
                let c = letters_of(s.drop_last())[i];
                let j = choose|j: int| 0 <= j < s.drop_last().len() && s.drop_last()[j] == c;
                assert(s[j] == c);
            } else {
                assert(s[s.len() - 1] == s.last());
            }
        }
    }
}

/// Lowercasing leaves no ASCII uppercase letter behind.
pub proof fn lemma_lower_seq_no_upper(s: Seq<char>)
    ensures
        forall|i: int| 0 <= i < lower_seq(s).len()
            ==> (is_letter(#[trigger] lower_seq(s)[i]) ==> is_lower_letter(lower_seq(s)[i])),
{
}

/// The segments of `s` between newline characters, in order. A trailing
/// newline yields a final empty segment; callers drop empty lines.
pub open spec fn split_lines(s: Seq<char>) -> Seq<Seq<char>>
    decreases s.len(),
{
    let i = first_idx(s, '\n');
    if 0 <= i < s.len() {
        seq![s.subrange(0, i)] + split_lines(s.subrange(i + 1, s.len() as int))
    } else {
        seq![s]
    }
}

/// The trimmed, non-empty members of a sequence of segments, in order.
pub open spec fn kept_lines(segs: Seq<Seq<char>>) -> Seq<Seq<char>>
    decreases segs.len(),
{
    if segs.len() == 0 {
        Seq::empty()
    } else if trim_spec(segs.last()).len() > 0 {
        kept_lines(segs.drop_last()).push(trim_spec(segs.last()))
    } else {
        kept_lines(segs.drop_last())
    }
}

/// The trimmed, non-empty lines of a newline-delimited text, in order.
pub open spec fn quiz_lines(s: Seq<char>) -> Seq<Seq<char>> {
    kept_lines(split_lines(s))
}

/// The word part of a `word:meaning` line: everything before the first
/// colon (the whole line when there is none), trimmed and lowercased.
pub open spec fn word_of_line(line: Seq<char>) -> Seq<char> {
    lower_seq(trim_spec(line.subrange(0, first_idx(line, ':'))))
}

/// The meaning part of a `word:meaning` line: everything after the first
/// colon, trimmed; empty when the line has no colon.
pub open spec fn meaning_of_line(line: Seq<char>) -> Seq<char> {
    let i = first_idx(line, ':');
    if i < line.len() {
        trim_spec(line.subrange(i + 1, line.len() as int))
    } else {
        Seq::empty()
    }
}

/// Executable test for [`is_letter`].
pub fn letter(c: char) -> (r: bool)
    ensures
        r == is_letter(c),
{
    (c >= 'a' && c <= 'z') || (c >= 'A' && c <= 'Z')
}

/// Executable test for [`is_space`].
pub fn space(c: char) -> (r: bool)
    ensures
        r == is_space(c),
{
    c == ' ' || c == '\t' || c == '\r' || c == '\n'
}

/// Executable form of [`lower_char`].
pub fn to_lower(c: char) -> (r: char)
    ensures
        r == lower_char(c),
{
    match c {
        'A' => 'a',
        'B' => 'b',
        'C' => 'c',
        'D' => 'd',
        'E' => 'e',
        'F' => 'f',
        'G' => 'g',
        'H' => 'h',
        'I' => 'i',
        'J' => 'j',
        'K' => 'k',
        'L' => 'l',
        'M' => 'm',
        'N' => 'n',
        'O' => 'o',
        'P' => 'p',
        'Q' => 'q',
        'R' => 'r',
        'S' => 's',
        'T' => 't',
        'U' => 'u',
        'V' => 'v',
        'W' => 'w',
        'X' => 'x',
        'Y' => 'y',
        'Z' => 'z',
        _ => c,
    }
}

/// The characters of `s` as a vector.
pub fn to_chars(s: &str) -> (v: Vec<char>)
    ensures
        v@ == s@,
{
    let n = s.unicode_len();
    let mut v: Vec<char> = Vec::new();
    let mut i: usize = 0;
    while i < n
        invariant
            i <= n,
            n == s@.len(),
            v@ == s@.subrange(0, i as int),
        decreases n - i,
    {
        let c = s.get_char(i);
        v.push(c);
        assert(v@ =~= s@.subrange(0, i + 1 as int));
        i = i + 1;
    }
    assert(v@ =~= s@);
    v
}

/// A `String` holding exactly the given characters.
///
/// Relies on `String`'s `FromIterator<char>`: collecting characters yields
/// the string of those characters in order.
#[verifier::external_body]
pub fn chars_to_string(v: &Vec<char>) -> (s: String)
    ensures
        s@ == v@,
{
    v.iter().collect()
}

/// The slice `v[from..to]` as a fresh vector.
pub fn subvec(v: &Vec<char>, from: usize, to: usize) -> (r: Vec<char>)
    requires
        from <= to <= v@.len(),
    ensures
        r@ == v@.subrange(from as int, to as int),
{
    let mut r: Vec<char> = Vec::new();
    let mut i: usize = from;
    while i < to
        invariant
            from <= i <= to <= v@.len(),
            r@ == v@.subrange(from as int, i as int),
        decreases to - i,
    {
        r.push(v[i]);
        assert(r@ =~= v@.subrange(from as int, i + 1 as int));
        i = i + 1;
    }
    r
}

/// The index of the first occurrence of `c` in `v`, or `v.len()` if `c`
/// does not occur.
pub fn find_char(v: &Vec<char>, c: char) -> (r: usize)
    ensures
        r == first_idx(v@, c),
{
    proof {
        lemma_first_idx(v@, c);
    }
    let n = v.len();
    let mut i: usize = 0;
    while i < n
        invariant
            i <= n,
            n == v@.len(),
            forall|j: int| 0 <= j < i ==> v@[j] != c,
            0 <= first_idx(v@, c) <= v@.len(),
            first_idx(v@, c) < v@.len() ==> v@[first_idx(v@, c)] == c,
            forall|j: int| 0 <= j < first_idx(v@, c) ==> v@[j] != c,
        decreases n - i,
    {
        if v[i] == c {
            return i;
        }
        i = i + 1;
    }
    i
}

/// The input without leading and trailing whitespace.
pub fn trim_vec(v: &Vec<char>) -> (r: Vec<char>)
    ensures
        r@ == trim_spec(v@),
{
    let mut r = subvec(v, 0, v.len());
    assert(r@ =~= v@);
    while r.len() > 0 && space(r[0])
        invariant
            trim_front(r@) == trim_front(v@),
        decreases r@.len(),
    {
        let ghost pre = r@;
        r.remove(0);
        assert(r@ =~= pre.drop_first());
    }
    assert(r@ == trim_front(v@));
    while r.len() > 0 && space(r[r.len() - 1])
        invariant
            trim_back(r@) == trim_back(trim_front(v@)),
        decreases r@.len(),
    {
        r.pop();
    }
    r
}

/// The ASCII letters of `v`, in order.
pub fn letters_vec(v: &Vec<char>) -> (r: Vec<char>)
    ensures
        r@ == letters_of(v@),
{
    let n = v.len();
    let mut r: Vec<char> = Vec::new();
    let mut i: usize = 0;
    while i < n
        invariant
            i <= n,
            n == v@.len(),
            r@ == letters_of(v@.subrange(0, i as int)),
        decreases n - i,
    {
        assert(v@.subrange(0, i + 1 as int).drop_last() =~= v@.subrange(0, i as int));
        assert(v@.subrange(0, i + 1 as int).last() == v@[i as int]);
        if letter(v[i]) {
            r.push(v[i]);
        }
        i = i + 1;
    }
    assert(v@.subrange(0, n as int) =~= v@);
    r
}

/// ASCII-lowercased copy of `v`.
pub fn lower_vec(v: &Vec<char>) -> (r: Vec<char>)
    ensures
        r@ == lower_seq(v@),
{
    let n = v.len();
    let mut r: Vec<char> = Vec::new();
    let mut i: usize = 0;
    while i < n
        invariant
            i <= n,
            n == v@.len(),
            r@ == lower_seq(v@.subrange(0, i as int)),
        decreases n - i,
    {
        r.push(to_lower(v[i]));
        assert(r@ =~= lower_seq(v@.subrange(0, i + 1 as int)));
        i = i + 1;
    }
    assert(v@.subrange(0, n as int) =~= v@);
    r
}

/// Whether two string slices hold the same characters.
pub fn str_equal(a: &str, b: &str) -> (r: bool)
    ensures
        r == (a@ == b@),
{
    let n = a.unicode_len();
    if n != b.unicode_len() {
        return false;
    }
    let mut i: usize = 0;
    while i < n
        invariant
            i <= n,
            n == a@.len(),
            n == b@.len(),
            forall|j: int| 0 <= j < i ==> a@[j] == b@[j],
        decreases n - i,
    {
        if a.get_char(i) != b.get_char(i) {
            return false;
        }
        i = i + 1;
    }
    assert(a@ =~= b@);
    true
}

} // verus!
