//! Scoring a label against a search text, and ranking the labels that match.

use crate::index::{is_ranking, ranks_above};
use crate::sorting::{is_stable_sort, stable_sort, Ranked};
use fuzzy_matcher::skim::SkimMatcherV2;
use fuzzy_matcher::FuzzyMatcher;
use vstd::prelude::*;
use vstd::string::StrSliceExecFns;

verus! {

/// The longest label, in characters, that is handed to the matcher. The
/// matcher keeps its scores in 32 bits and adds at most 32 for each character
/// matched; under this length no score leaves that range.
pub const MATCH_LIMIT: usize = 0x100_0000;

/// An ASCII capital letter.
pub open spec fn is_ascii_upper(c: char) -> bool {
    'A' <= c <= 'Z'
}

/// The two characters are equal when ASCII letters are taken without their
/// case.
pub open spec fn same_ignoring_ascii_case(a: char, b: char) -> bool {
    ||| a == b
    ||| is_ascii_upper(a) && b as int == a as int + 32
    ||| is_ascii_upper(b) && a as int == b as int + 32
}

/// The characters of `pattern` from `pi` on occur in `choice` from `ci` on,
/// in their order, with any characters between them. ASCII letters are taken
/// without their case.
pub open spec fn occurs_in_order(pattern: Seq<char>, choice: Seq<char>, pi: int, ci: int) -> bool
    decreases choice.len() - ci,
{
    if pi >= pattern.len() {
        true
    } else if ci >= choice.len() {
        false
    } else if same_ignoring_ascii_case(choice[ci], pattern[pi]) {
        occurs_in_order(pattern, choice, pi + 1, ci + 1)
    } else {
        occurs_in_order(pattern, choice, pi, ci + 1)
    }
}

/// `choice` matches `pattern`: the characters of the pattern occur in it in
/// their order, ASCII letters taken without their case.
pub open spec fn is_fuzzy_match(choice: Seq<char>, pattern: Seq<char>) -> bool {
    occurs_in_order(pattern, choice, 0, 0)
}

/// The score that the skim matcher gives `choice` for `pattern` when it
/// disregards case, if `choice` matches.
pub uninterp spec fn fuzzy_score(choice: Seq<char>, pattern: Seq<char>) -> Option<i64>;

/// `SkimMatcherV2::fuzzy_match` of the crate `fuzzy-matcher`, on a matcher
/// made by `default()` and set to disregard case by `ignore_case()`. A fresh
/// matcher starts from empty buffers, so the score depends on the two texts
/// alone: `fuzzy_score` is its name. There is a score exactly when the
/// characters of `pattern` occur in `choice` in order: the matcher looks for
/// them first, comparing characters without their ASCII case, and gives up if
/// one is missing; after that it always returns a score. The length asked of
/// `choice` keeps its 32-bit sums in range.
#[verifier::external_body]
fn fuzzy_match(choice: &str, pattern: &str) -> (score: Option<i64>)
    requires
        choice@.len() <= MATCH_LIMIT,
    ensures
        score == fuzzy_score(choice@, pattern@),
        score is Some <==> is_fuzzy_match(choice@, pattern@),
{
    SkimMatcherV2::default().ignore_case().fuzzy_match(choice, pattern)
}

/// A label that a search text finds: its characters hold those of the
/// search text in order, and it is not longer than `MATCH_LIMIT`.
pub open spec fn is_search_hit(label: Seq<char>, search: Seq<char>) -> bool {
    label.len() <= MATCH_LIMIT && is_fuzzy_match(label, search)
}

/// The characters of `pattern` from `pi` on that occur in order in `choice`
/// from `ci` on each occur there.
proof fn lemma_occurs_each(pattern: Seq<char>, choice: Seq<char>, pi: int, ci: int)
    requires
        0 <= pi,
        0 <= ci,
        occurs_in_order(pattern, choice, pi, ci),
    ensures
        forall|j: int|
            pi <= j < pattern.len() ==> exists|i: int|
                ci <= i < choice.len() && same_ignoring_ascii_case(
                    #[trigger] choice[i],
                    #[trigger] pattern[j],
                ),
    decreases choice.len() - ci,
{
    if pi < pattern.len() {
        if same_ignoring_ascii_case(choice[ci], pattern[pi]) {
            lemma_occurs_each(pattern, choice, pi + 1, ci + 1);
        } else {
            lemma_occurs_each(pattern, choice, pi, ci + 1);
        }
    }
}

/// A label that matches a search text holds each character of the search
/// text, ASCII case left aside. So a label that shares no character with a
/// search text of one character or more does not match it.
pub proof fn law_match_holds_each_character(choice: Seq<char>, pattern: Seq<char>)
    requires
        is_fuzzy_match(choice, pattern),
    ensures
        forall|j: int|
            0 <= j < pattern.len() ==> exists|i: int|
                0 <= i < choice.len() && same_ignoring_ascii_case(
                    #[trigger] choice[i],
                    #[trigger] pattern[j],
                ),
{
    lemma_occurs_each(pattern, choice, 0, 0);
}

/// A search text of one character or more does not find a label that shares
/// no character with it, ASCII case left aside.
pub proof fn law_nothing_shared_is_no_hit(label: Seq<char>, search: Seq<char>)
    requires
        search.len() > 0,
        forall|i: int, j: int|
            0 <= i < label.len() && 0 <= j < search.len() ==> !same_ignoring_ascii_case(
                #[trigger] label[i],
                #[trigger] search[j],
            ),
    ensures
        !is_search_hit(label, search),
{
    if is_fuzzy_match(label, search) {
        law_match_holds_each_character(label, search);
        let i = choose|i: int|
            0 <= i < label.len() && same_ignoring_ascii_case(#[trigger] label[i], search[0]);
        assert(same_ignoring_ascii_case(label[i], search[0]));
    }
}

/// The score of a label for a search text: the matcher's, and none for a
/// label of more than `MATCH_LIMIT` characters.
pub open spec fn label_score(label: Seq<char>, search: Seq<char>) -> Option<i64> {
    if label.len() <= MATCH_LIMIT {
        fuzzy_score(label, search)
    } else {
        None
    }
}

/// Scores `label` against `search`.
pub fn match_score(label: &str, search: &str) -> (score: Option<i64>)
    ensures
        score == label_score(label@, search@),
        score is Some <==> is_search_hit(label@, search@),
{
    if label.unicode_len() <= MATCH_LIMIT {
        fuzzy_match(label, search)
    } else {
        None
    }
}

/// An index with its score.
pub struct Scored {
    pub index: usize,
    pub score: i64,
}

impl Ranked for Scored {
    open spec fn may_precede(&self, other: &Self) -> bool {
        self.score >= other.score
    }

    fn ranks_before_or_with(&self, other: &Self) -> (before: bool) {
        self.score >= other.score
    }

    proof fn rank_is_total(a: &Self, b: &Self) {
    }

    proof fn rank_is_transitive(a: &Self, b: &Self, c: &Self) {
    }
}

/// Ranks the indices of `scores` that have a score: the higher score first
/// and, of equal scores, the lower index first.
pub fn rank_matches(scores: &Vec<Option<i64>>) -> (ranking: Vec<usize>)
    ensures
        is_ranking(scores@, ranking@),
{
    let n = scores.len();
    let mut matches: Vec<Scored> = Vec::new();
    let ghost mut slot: Seq<int> = Seq::empty();
    let mut i: usize = 0;
    while i < n
        invariant
            i <= n,
            n == scores@.len(),
            slot.len() == i,
            forall|j: int|
                0 <= j < matches@.len() ==> (#[trigger] matches@[j]).index < i
                    && scores@[matches@[j].index as int] == Some(matches@[j].score)
                    && slot[matches@[j].index as int] == j,
            forall|j: int, k: int|
                0 <= j < k < matches@.len() ==> (#[trigger] matches@[j]).index
                    < (#[trigger] matches@[k]).index,
            forall|x: int|
                0 <= x < i && (#[trigger] scores@[x]) is Some ==> 0 <= slot[x] < matches@.len()
                    && matches@[slot[x]].index == x,
        decreases n - i,
    {
        match scores[i] {
            Some(score) => {
                proof {
                    slot = slot.push(matches@.len() as int);
                }
                matches.push(Scored { index: i, score });
            },
            None => {
                proof {
                    slot = slot.push(0);
                }
            },
        }
        i += 1;
    }
    let ghost unsorted = matches@;
    let maps = stable_sort(&mut matches);
    let ghost from = maps@.0;
    let ghost to = maps@.1;
    let m = matches.len();
    let mut ranking: Vec<usize> = Vec::new();
    let mut k: usize = 0;
    while k < m
        invariant
            k <= m,
            m == matches@.len(),
            ranking@.len() == k,
            forall|j: int| 0 <= j < k ==> #[trigger] ranking@[j] == matches@[j].index,
        decreases m - k,
    {
        ranking.push(matches[k].index);
        k += 1;
    }
    proof {
        assert(is_stable_sort(matches@, unsorted, from, to));
        assert forall|k: int| 0 <= k < ranking@.len() implies (#[trigger] ranking@[k])
            < scores@.len() && scores@[ranking@[k] as int] is Some by {
            assert(matches@[k] == unsorted[from[k]]);
        }
        assert forall|x: int| 0 <= x < scores@.len() && (#[trigger] scores@[x]) is Some implies exists|
            k: int,
        |
            0 <= k < ranking@.len() && #[trigger] ranking@[k] == x by {
            let j = slot[x];
            let k = to[j];
            assert(from[k] == j);
            assert(matches@[k] == unsorted[from[k]]);
            assert(ranking@[k] == x);
        }
        assert forall|k: int, l: int| 0 <= k < l < ranking@.len() implies ranks_above(
            scores@,
            #[trigger] ranking@[k],
            #[trigger] ranking@[l],
        ) by {
            assert(matches@[k] == unsorted[from[k]]);
            assert(matches@[l] == unsorted[from[l]]);
            assert(matches@[k].may_precede(&matches@[l]));
            if matches@[l].may_precede(&matches@[k]) {
                assert(from[k] < from[l]);
            }
        }
    }
    ranking
}

} // verus!
