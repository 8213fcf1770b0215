//! Helpers for the host's display: padding of texts to a width, and the
//! ranking of candidates against what the user has typed.

use vstd::prelude::*;

use crate::text::alphanumeric;
use crate::text::append_chars;
use crate::text::chars_of;
use crate::text::is_alphanumeric;
use crate::text::run_end;
use crate::text::scan_run;
use crate::text::string_of;
use crate::text::texts;
use crate::text::CharClass;

verus! {

/// `n` times the character `c`.
pub open spec fn padding(n: nat, c: char) -> Seq<char> {
    Seq::new(n, |i: int| c)
}

/// `s`, with `c` in front of it up to the length `length`.
pub open spec fn left_padded(s: Seq<char>, length: nat, c: char) -> Seq<char> {
    if s.len() >= length {
        s
    } else {
        padding((length - s.len()) as nat, c) + s
    }
}

/// `s`, with `c` after it up to the length `length`.
pub open spec fn right_padded(s: Seq<char>, length: nat, c: char) -> Seq<char> {
    if s.len() >= length {
        s
    } else {
        s + padding((length - s.len()) as nat, c)
    }
}

/// How many of `pads` characters of padding go in front of a text of the
/// length `len` that is centred: they are added one at a time, in front
/// where the length so far is even, else after.
pub open spec fn pads_in_front(len: nat, pads: nat) -> nat {
    if len % 2 == 0 {
        (pads + 1) / 2
    } else {
        pads / 2
    }
}

/// `s`, with `c` around it up to the length `length`.
pub open spec fn centered(s: Seq<char>, length: nat, c: char) -> Seq<char> {
    if s.len() >= length {
        s
    } else {
        padding(pads_in_front(s.len(), (length - s.len()) as nat), c) + s + padding(
            (length - s.len() - pads_in_front(s.len(), (length - s.len()) as nat)) as nat,
            c,
        )
    }
}

/// Appends `n` times the character `c`.
fn pad(out: &mut Vec<char>, n: usize, c: char)
    ensures
        final(out)@ == old(out)@ + padding(n as nat, c),
{
    let mut i: usize = 0;
    assert(out@ =~= old(out)@ + padding(0, c));
    while i < n
        invariant
            i <= n,
            out@ == old(out)@ + padding(i as nat, c),
        decreases n - i,
    {
        out.push(c);
        i += 1;
        assert(out@ =~= old(out)@ + padding(i as nat, c));
    }
}

/// `s` cut or padded with spaces to exactly `width` characters.
pub open spec fn fitted(s: Seq<char>, width: nat) -> Seq<char> {
    if s.len() >= width {
        s.subrange(0, width as int)
    } else {
        right_padded(s, width, ' ')
    }
}

/// The text of a cell as it is shown in a column of the width `width`: cut
/// where it is longer, padded with spaces where it is shorter.
pub fn fit_to_width(text: &str, width: usize) -> (out: String)
    ensures
        out@ == fitted(text@, width as nat),
        out@.len() == width,
{
    let mut chars = chars_of(text);
    if chars.len() >= width {
        chars.truncate(width);
    } else {
        let missing = width - chars.len();
        pad(&mut chars, missing, ' ');
    }
    string_of(&chars)
}

/// Padding of a text to a width, counted in characters.
pub trait StringPadding {
    /// The text with `pad_char` in front of it, up to `length` characters.
    fn left_pad(&self, length: usize, pad_char: char) -> String;

    /// The text with `pad_char` after it, up to `length` characters.
    fn right_pad(&self, length: usize, pad_char: char) -> String;

    /// The text with `pad_char` around it, up to `length` characters.
    fn center(&self, length: usize, pad_char: char) -> String;
}

impl StringPadding for String {
    fn left_pad(&self, length: usize, pad_char: char) -> (out: String)
        ensures
            out@ == left_padded(self@, length as nat, pad_char),
    {
        let chars = chars_of(self.as_str());
        if chars.len() >= length {
            return string_of(&chars);
        }
        let mut out: Vec<char> = Vec::new();
        pad(&mut out, length - chars.len(), pad_char);
        append_chars(&mut out, &chars);
        assert(out@ =~= left_padded(self@, length as nat, pad_char));
        string_of(&out)
    }

    fn right_pad(&self, length: usize, pad_char: char) -> (out: String)
        ensures
            out@ == right_padded(self@, length as nat, pad_char),
    {
        let mut out = chars_of(self.as_str());
        if out.len() < length {
            let missing = length - out.len();
            pad(&mut out, missing, pad_char);
        }
        string_of(&out)
    }

    fn center(&self, length: usize, pad_char: char) -> (out: String)
        ensures
            out@ == centered(self@, length as nat, pad_char),
    {
        let chars = chars_of(self.as_str());
        if chars.len() >= length {
            return string_of(&chars);
        }
        let pads = length - chars.len();
        let front = if chars.len() % 2 == 0 {
            pads / 2 + pads % 2
        } else {
            pads / 2
        };
        let mut out: Vec<char> = Vec::new();
        pad(&mut out, front, pad_char);
        append_chars(&mut out, &chars);
        pad(&mut out, pads - front, pad_char);
        assert(out@ =~= centered(self@, length as nat, pad_char));
        string_of(&out)
    }
}

/// How far `candidate`, from `at` on, is from `search`, from `found` on:
/// the number of characters of the candidate that are passed over, `skipped`
/// so far, until the characters of the search have all been met in their
/// order. `None` where the candidate ends first, or the search is empty.
pub open spec fn distance_from(
    candidate: Seq<char>,
    at: int,
    search: Seq<char>,
    found: int,
    skipped: nat,
) -> Option<nat>
    decreases candidate.len() - at,
{
    if at < 0 || at >= candidate.len() || found < 0 || found >= search.len() {
        None
    } else if candidate[at] == search[found] {
        if found + 1 == search.len() {
            Some(skipped)
        } else {
            distance_from(candidate, at + 1, search, found + 1, skipped)
        }
    } else {
        distance_from(candidate, at + 1, search, found, skipped + 1)
    }
}

/// How far `candidate` is from `search`.
pub open spec fn distance(candidate: Seq<char>, search: Seq<char>) -> Option<nat> {
    distance_from(candidate, 0, search, 0, 0)
}

/// Those of the first `n` of `candidates` that are `score` away from
/// `search`, in their order.
pub open spec fn at_distance(candidates: Seq<String>, n: int, search: Seq<char>, score: nat) -> Seq<
    Seq<char>,
>
    decreases n,
{
    if n <= 0 {
        Seq::empty()
    } else if distance(candidates[n - 1]@, search) == Some(score) {
        at_distance(candidates, n - 1, search, score).push(candidates[n - 1]@)
    } else {
        at_distance(candidates, n - 1, search, score)
    }
}

/// The candidates that are less than `bound` away from `search`: the
/// nearest first, and those equally near in their order.
pub open spec fn ranked(candidates: Seq<String>, search: Seq<char>, bound: nat) -> Seq<Seq<char>>
    decreases bound,
{
    if bound == 0 {
        Seq::empty()
    } else {
        ranked(candidates, search, (bound - 1) as nat) + at_distance(
            candidates,
            candidates.len() as int,
            search,
            (bound - 1) as nat,
        )
    }
}

/// A distance is less than the length of the candidate.
pub proof fn lemma_distance_bound(
    candidate: Seq<char>,
    at: int,
    search: Seq<char>,
    found: int,
    skipped: nat,
)
    requires
        0 <= at,
        skipped <= at,
    ensures
        distance_from(candidate, at, search, found, skipped) matches Some(score) ==> score
            < candidate.len(),
    decreases candidate.len() - at,
{
    if at < candidate.len() && 0 <= found < search.len() {
        if candidate[at] == search[found] {
            if found + 1 != search.len() {
                lemma_distance_bound(candidate, at + 1, search, found + 1, skipped);
            }
        } else {
            lemma_distance_bound(candidate, at + 1, search, found, skipped + 1);
        }
    }
}

/// How far `candidate` is from `search`.
fn distance_of(candidate: &Vec<char>, search: &Vec<char>) -> (score: Option<usize>)
    ensures
        score matches Some(n) ==> distance(candidate@, search@) == Some(n as nat),
        score is None ==> distance(candidate@, search@) is None,
{
    if search.len() == 0 {
        return None;
    }
    let mut at: usize = 0;
    let mut found: usize = 0;
    let mut skipped: usize = 0;
    while at < candidate.len()
        invariant
            at <= candidate.len(),
            found < search.len(),
            skipped <= at,
            distance(candidate@, search@) == distance_from(
                candidate@,
                at as int,
                search@,
                found as int,
                skipped as nat,
            ),
        decreases candidate.len() - at,
    {
        if candidate[at] == search[found] {
            if found + 1 == search.len() {
                return Some(skipped);
            }
            found += 1;
        } else {
            skipped += 1;
        }
        at += 1;
    }
    None
}

/// The ranking of candidates against what is searched for.
pub trait FuzzySearch {
    /// The candidates that hold the characters of `search` in their order
    /// and pass over at most `max_distance` characters before they have met
    /// them all: the nearest first.
    fn fuzzy_search(self, search: &str, max_distance: usize) -> Vec<String>;
}

impl FuzzySearch for Vec<String> {
    fn fuzzy_search(self, search: &str, max_distance: usize) -> (found: Vec<String>)
        ensures
            texts(found@) == ranked(self@, search@, max_distance as nat + 1),
    {
        let wanted = chars_of(search);
        let mut scores: Vec<Option<usize>> = Vec::new();
        let mut longest: usize = 0;
        let mut i: usize = 0;
        while i < self.len()
            invariant
                i <= self.len(),
                wanted@ == search@,
                scores@.len() == i,
                forall|k: int|
                    0 <= k < i ==> match #[trigger] scores@[k] {
                        Some(n) => distance(self@[k]@, search@) == Some(n as nat),
                        None => distance(self@[k]@, search@) is None,
                    },
                forall|k: int|
                    0 <= k < i && (#[trigger] scores@[k]) is Some ==> scores@[k]->0 < longest,
            decreases self.len() - i,
        {
            let candidate = chars_of(self[i].as_str());
            let score = distance_of(&candidate, &wanted);
            proof {
                lemma_distance_bound(candidate@, 0, wanted@, 0, 0);
            }
            if let Some(n) = score {
                assert(n < candidate.len());
                if n >= longest {
                    longest = n + 1;
                }
            }
            scores.push(score);
            i += 1;
        }
        let bound: usize = if max_distance < longest {
            max_distance + 1
        } else {
            longest
        };
        let mut found: Vec<String> = Vec::new();
        let mut score: usize = 0;
        assert(texts(found@) =~= ranked(self@, search@, 0));
        while score < bound
            invariant
                score <= bound,
                scores@.len() == self@.len(),
                forall|k: int|
                    0 <= k < self@.len() ==> match #[trigger] scores@[k] {
                        Some(n) => distance(self@[k]@, search@) == Some(n as nat),
                        None => distance(self@[k]@, search@) is None,
                    },
                texts(found@) == ranked(self@, search@, score as nat),
            decreases bound - score,
        {
            let ghost before = texts(found@);
            let mut k: usize = 0;
            assert(before + at_distance(self@, 0, search@, score as nat) =~= before);
            while k < self.len()
                invariant
                    k <= self.len(),
                    scores@.len() == self@.len(),
                    forall|m: int|
                        0 <= m < self@.len() ==> match #[trigger] scores@[m] {
                            Some(n) => distance(self@[m]@, search@) == Some(n as nat),
                            None => distance(self@[m]@, search@) is None,
                        },
                    texts(found@) == before + at_distance(
                        self@,
                        k as int,
                        search@,
                        score as nat,
                    ),
                decreases self.len() - k,
            {
                let ghost sofar = found@;
                let hit = match scores[k] {
                    Some(n) => n == score,
                    None => false,
                };
                if hit {
                    let copy = self[k].clone();
                    found.push(copy);
                    assert(texts(found@) =~= texts(sofar).push(self@[k as int]@));
                    assert(before + at_distance(self@, k as int, search@, score as nat).push(
                        self@[k as int]@,
                    ) =~= (before + at_distance(self@, k as int, search@, score as nat)).push(
                        self@[k as int]@,
                    ));
                }
                k += 1;
            }
            score += 1;
        }
        proof {
            if bound == longest {
                lemma_ranked_tail(self@, scores@, search@, longest as nat, max_distance as nat + 1);
            }
        }
        found
    }
}

/// No candidate is `score` away from the search where every distance that
/// there is lies below `score`.
proof fn lemma_none_scored(
    candidates: Seq<String>,
    scores: Seq<Option<usize>>,
    n: int,
    search: Seq<char>,
    score: nat,
    longest: nat,
)
    requires
        0 <= n <= candidates.len(),
        scores.len() == candidates.len(),
        forall|k: int|
            0 <= k < candidates.len() ==> match #[trigger] scores[k] {
                Some(d) => distance(candidates[k]@, search) == Some(d as nat) && d < longest,
                None => distance(candidates[k]@, search) is None,
            },
        longest <= score,
    ensures
        at_distance(candidates, n, search, score) == Seq::<Seq<char>>::empty(),
    decreases n,
{
    if n > 0 {
        lemma_none_scored(candidates, scores, n - 1, search, score, longest);
        assert(scores[n - 1] is Some || scores[n - 1] is None);
    }
}

proof fn lemma_ranked_tail(
    candidates: Seq<String>,
    scores: Seq<Option<usize>>,
    search: Seq<char>,
    longest: nat,
    bound: nat,
)
    requires
        scores.len() == candidates.len(),
        forall|k: int|
            0 <= k < candidates.len() ==> match #[trigger] scores[k] {
                Some(d) => distance(candidates[k]@, search) == Some(d as nat) && d < longest,
                None => distance(candidates[k]@, search) is None,
            },
        longest <= bound,
    ensures
        ranked(candidates, search, bound) == ranked(candidates, search, longest),
    decreases bound,
{
    if bound > longest {
        lemma_ranked_tail(candidates, scores, search, longest, (bound - 1) as nat);
        lemma_none_scored(
            candidates,
            scores,
            candidates.len() as int,
            search,
            (bound - 1) as nat,
            longest,
        );
        assert(ranked(candidates, search, (bound - 1) as nat) + Seq::<Seq<char>>::empty()
            =~= ranked(candidates, search, (bound - 1) as nat));
    }
}


/// The least of three numbers.
pub open spec fn min3(a: int, b: int, c: int) -> int {
    if a <= b && a <= c {
        a
    } else if b <= c {
        b
    } else {
        c
    }
}

/// The least number of characters to insert, delete or replace to make the
/// first `i` characters of `a` into the first `j` characters of `b`.
pub open spec fn edit_distance(a: Seq<char>, i: int, b: Seq<char>, j: int) -> int
    decreases i + j,
{
    if i <= 0 {
        if j <= 0 {
            0
        } else {
            j
        }
    } else if j <= 0 {
        i
    } else {
        min3(
            edit_distance(a, i - 1, b, j) + 1,
            edit_distance(a, i, b, j - 1) + 1,
            edit_distance(a, i - 1, b, j - 1) + if a[i - 1] == b[j - 1] {
                0int
            } else {
                1int
            },
        )
    }
}

/// An edit distance is at most the length of the longer text, and no text is
/// nearer to another than their lengths differ.
pub proof fn lemma_edit_distance_bounds(a: Seq<char>, i: int, b: Seq<char>, j: int)
    requires
        0 <= i,
        0 <= j,
    ensures
        edit_distance(a, i, b, j) <= if i <= j {
            j
        } else {
            i
        },
        edit_distance(a, i, b, j) >= i - j,
        edit_distance(a, i, b, j) >= j - i,
    decreases i + j,
{
    if i > 0 && j > 0 {
        lemma_edit_distance_bounds(a, i - 1, b, j);
        lemma_edit_distance_bounds(a, i, b, j - 1);
        lemma_edit_distance_bounds(a, i - 1, b, j - 1);
    }
}

/// The distance between two texts.
pub trait LevenshteinDistance {
    /// The least number of characters to insert, delete or replace to make
    /// the text into `other`.
    fn levenshtein(self, other: &str) -> usize;
}

impl LevenshteinDistance for String {
    fn levenshtein(self, other: &str) -> (distance: usize)
        ensures
            distance == edit_distance(self@, self@.len() as int, other@, other@.len() as int),
    {
        let a = chars_of(self.as_str());
        let b = chars_of(other);
        let mut row: Vec<usize> = Vec::new();
        row.push(0);
        let mut i: usize = 0;
        while i < a.len()
            invariant
                i <= a.len(),
                row@.len() == i + 1,
                forall|k: int| 0 <= k <= i ==> row@[k] == edit_distance(a@, k, b@, 0),
            decreases a.len() - i,
        {
            i += 1;
            row.push(i);
        }
        let mut j: usize = 0;
        while j < b.len()
            invariant
                j <= b.len(),
                row@.len() == a@.len() + 1,
                forall|k: int| 0 <= k <= a@.len() ==> row@[k] == edit_distance(a@, k, b@, j as int),
            decreases b.len() - j,
        {
            let mut next: Vec<usize> = Vec::new();
            next.push(j + 1);
            let mut k: usize = 0;
            while k < a.len()
                invariant
                    k <= a.len(),
                    j < b.len(),
                    row@.len() == a@.len() + 1,
                    forall|m: int|
                        0 <= m <= a@.len() ==> row@[m] == edit_distance(a@, m, b@, j as int),
                    next@.len() == k + 1,
                    forall|m: int| 0 <= m <= k ==> next@[m] == edit_distance(a@, m, b@, j + 1),
                decreases a.len() - k,
            {
                proof {
                    lemma_edit_distance_bounds(a@, k + 1, b@, j + 1);
                    lemma_edit_distance_bounds(a@, k as int, b@, j + 1);
                    lemma_edit_distance_bounds(a@, k + 1, b@, j as int);
                    lemma_edit_distance_bounds(a@, k as int, b@, j as int);
                }
                let change: u128 = if a[k] == b[j] {
                    0
                } else {
                    1
                };
                let deleted: u128 = next[k] as u128 + 1;
                let inserted: u128 = row[k + 1] as u128 + 1;
                let replaced: u128 = row[k] as u128 + change;
                let least: u128 = if deleted <= inserted && deleted <= replaced {
                    deleted
                } else if inserted <= replaced {
                    inserted
                } else {
                    replaced
                };
                next.push(least as usize);
                k += 1;
            }
            row = next;
            j += 1;
        }
        row[a.len()]
    }
}


/// Where the run of letters and digits that ends at `cursor` starts.
pub open spec fn word_start(s: Seq<char>, cursor: int) -> int
    decreases cursor,
{
    if 0 < cursor <= s.len() && is_alphanumeric(s[cursor - 1]) {
        word_start(s, cursor - 1)
    } else {
        cursor
    }
}

/// The position in `s` that is nearest to `cursor`.
pub open spec fn clamped(s: Seq<char>, cursor: usize) -> int {
    if cursor <= s.len() {
        cursor as int
    } else {
        s.len() as int
    }
}

/// Where the word at the cursor starts and ends: the run of letters and
/// digits that the cursor stands in, before or after. `None` in an empty
/// text.
pub fn word_bounds(text: &str, cursor: usize) -> (bounds: Option<[usize; 2]>)
    ensures
        text@.len() == 0 ==> bounds is None,
        text@.len() > 0 ==> (bounds matches Some(found) && found[0] == word_start(
            text@,
            clamped(text@, cursor),
        ) && found[1] == run_end(text@, clamped(text@, cursor), CharClass::Alphanumeric)
            && found[0] <= clamped(text@, cursor) <= found[1] <= text@.len()),
{
    let chars = chars_of(text);
    if chars.len() == 0 {
        return None;
    }
    let at = if cursor <= chars.len() {
        cursor
    } else {
        chars.len()
    };
    let mut start: usize = at;
    while start > 0 && alphanumeric(chars[start - 1])
        invariant
            start <= at <= chars.len(),
            word_start(chars@, at as int) == word_start(chars@, start as int),
        decreases start,
    {
        start -= 1;
    }
    let end = scan_run(&chars, at, CharClass::Alphanumeric);
    Some([start, end])
}

/// `s` with `word` in place of the characters from `start` to `end`.
pub open spec fn spliced(s: Seq<char>, start: int, end: int, word: Seq<char>) -> Seq<char> {
    s.subrange(0, start) + word + s.subrange(end, s.len() as int)
}

/// The text with `word` in place of its characters from `start` to `end`;
/// positions past the end of the text count as its end, and an `end` before
/// `start` as `start`.
pub fn splice_text(text: &str, start: usize, end: usize, word: &str) -> (out: String)
    ensures
        out@ == spliced(
            text@,
            clamped(text@, start),
            if clamped(text@, end) < clamped(text@, start) {
                clamped(text@, start)
            } else {
                clamped(text@, end)
            },
            word@,
        ),
{
    let chars = chars_of(text);
    let inserted = chars_of(word);
    let from = if start <= chars.len() {
        start
    } else {
        chars.len()
    };
    let upto = if end <= chars.len() {
        end
    } else {
        chars.len()
    };
    let to = if upto < from {
        from
    } else {
        upto
    };
    let mut out: Vec<char> = Vec::new();
    let mut i: usize = 0;
    while i < from
        invariant
            i <= from <= chars.len(),
            out@ == chars@.subrange(0, i as int),
        decreases from - i,
    {
        out.push(chars[i]);
        i += 1;
        assert(out@ =~= chars@.subrange(0, i as int));
    }
    append_chars(&mut out, &inserted);
    let mut k: usize = to;
    while k < chars.len()
        invariant
            from <= to <= k <= chars.len(),
            out@ == chars@.subrange(0, from as int) + inserted@ + chars@.subrange(
                to as int,
                k as int,
            ),
        decreases chars.len() - k,
    {
        out.push(chars[k]);
        k += 1;
        assert(out@ =~= chars@.subrange(0, from as int) + inserted@ + chars@.subrange(
            to as int,
            k as int,
        ));
    }
    string_of(&out)
}

/// Puts `word` in place of the word at the cursor, or at the cursor where
/// the text is empty, and hands out the text with the cursor after the word.
pub fn replace_word(text: &str, cursor: usize, word: &str) -> (out: (String, usize))
    requires
        text@.len() + word@.len() <= usize::MAX,
    ensures
        out.0@ == spliced(
            text@,
            word_start(text@, clamped(text@, cursor)),
            run_end(text@, clamped(text@, cursor), CharClass::Alphanumeric),
            word@,
        ),
        out.1 == word_start(text@, clamped(text@, cursor)) + word@.len(),
{
    let (start, end) = match word_bounds(text, cursor) {
        Some(found) => (found[0], found[1]),
        None => (0, 0),
    };
    let length = chars_of(word).len();
    (splice_text(text, start, end, word), start + length)
}

} // verus!
