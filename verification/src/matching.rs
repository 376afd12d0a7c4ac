//! Ranking typed text against the hints of a scan.
//!
//! A hint whose label is the typed text, upper-cased, is an exact hit. Every
//! other hint is scored by a fuzzy match of the typed text against its display
//! text, and is a fuzzy hit where the score is positive. The exact hits come
//! first, in the order of the scan; the fuzzy hits follow, best score first,
//! equal scores in the order of the scan.

use fuzzy_matcher::skim::SkimMatcherV2;
use fuzzy_matcher::FuzzyMatcher;
use vstd::prelude::*;
use vstd::string::StrSliceExecFns;
use crate::hints::{hint_views, Hint, HintView};
use crate::text::unicode_uppercase;

verus! {

/// The score that the skim matcher, as it is made by default, gives to
/// `pattern` in `choice`; `None` where the pattern does not match.
pub uninterp spec fn skim_score(choice: Seq<char>, pattern: Seq<char>) -> Option<i64>;

/// The longest typed text, in characters, that is handed to the matcher. The
/// matcher keeps its scores in 32 bits and adds at most 32 to the best score
/// for each character of the typed text; up to this length the sum stays
/// below 2^31.
pub const MAX_QUERY_LEN: usize = 67108863;

/// The longest display text, in characters, that is handed to the matcher.
/// The matcher's score for a gap starts at -32768 and falls by at most 4 for
/// each character of the display text; up to this length it stays above
/// -2^31.
pub const MAX_TEXT_LEN: usize = 536862719;

/// `SkimMatcherV2::fuzzy_match`, on a matcher made by `SkimMatcherV2::default`.
/// The matcher is new for each call, so what it returns depends on the two
/// texts alone, and is taken as the meaning of [`skim_score`]. Texts within
/// the two bounds cannot overflow the 32-bit sums that it forms.
#[verifier::external_body]
fn skim_match(choice: &str, pattern: &str) -> (r: Option<i64>)
    requires
        choice@.len() <= MAX_TEXT_LEN,
        pattern@.len() <= MAX_QUERY_LEN,
    ensures
        r == skim_score(choice@, pattern@),
{
    SkimMatcherV2::default().fuzzy_match(choice, pattern)
}

/// Whether the matcher's arithmetic holds the scores of `query` against
/// `text`: it does but for texts of tens of millions of characters.
pub open spec fn matchable(text: Seq<char>, query: Seq<char>) -> bool {
    text.len() <= MAX_TEXT_LEN && query.len() <= MAX_QUERY_LEN
}

/// What a fuzzy match of `query` against `text` counts for: the matcher's
/// score, and 0 where there is no match. Texts so long that the matcher's
/// own sums could overflow count for 0 as well.
pub open spec fn fuzzy_score(text: Seq<char>, query: Seq<char>) -> int {
    if matchable(text, query) {
        match skim_score(text, query) {
            Some(s) => s as int,
            None => 0,
        }
    } else {
        0
    }
}

pub fn score(text: &str, query: &str) -> (r: i64)
    ensures
        r == fuzzy_score(text@, query@),
{
    if text.unicode_len() <= MAX_TEXT_LEN && query.unicode_len() <= MAX_QUERY_LEN {
        match skim_match(text, query) {
            Some(s) => s,
            None => 0,
        }
    } else {
        0
    }
}

/// How one hint stands to the typed text.
#[derive(Clone, Copy, Debug, PartialEq, Eq, Structural)]
pub struct Mark {
    /// The hint's label is the typed text, upper-cased.
    pub exact: bool,
    /// The fuzzy score of the hint's text; 0 for an exact hit.
    pub score: i64,
}

/// Whether a hint is a fuzzy hit.
pub open spec fn fuzzy_hit(m: Mark) -> bool {
    !m.exact && m.score > 0
}

/// The places below `n` of the exact hits, in ascending order.
pub open spec fn exact_places(marks: Seq<Mark>, n: int) -> Seq<int>
    decreases n,
{
    if n <= 0 {
        Seq::empty()
    } else if marks[n - 1].exact {
        exact_places(marks, n - 1).push(n - 1)
    } else {
        exact_places(marks, n - 1)
    }
}

/// The ranked places `ranked` with the place `i` put in: behind every place
/// that scores at least as high, before every place that scores lower.
pub open spec fn insert_ranked(marks: Seq<Mark>, ranked: Seq<int>, i: int) -> Seq<int>
    decreases ranked.len(),
{
    if ranked.len() == 0 {
        seq![i]
    } else if marks[ranked.last()].score >= marks[i].score {
        ranked.push(i)
    } else {
        insert_ranked(marks, ranked.drop_last(), i).push(ranked.last())
    }
}

/// The places below `n` of the fuzzy hits, best score first, equal scores in
/// ascending order of place.
pub open spec fn fuzzy_places(marks: Seq<Mark>, n: int) -> Seq<int>
    decreases n,
{
    if n <= 0 {
        Seq::empty()
    } else if fuzzy_hit(marks[n - 1]) {
        insert_ranked(marks, fuzzy_places(marks, n - 1), n - 1)
    } else {
        fuzzy_places(marks, n - 1)
    }
}

/// The ranking: the exact hits, then the fuzzy hits.
pub open spec fn ranking(marks: Seq<Mark>) -> Seq<int> {
    exact_places(marks, marks.len() as int) + fuzzy_places(marks, marks.len() as int)
}

/// Where `i` goes in `ranked`: behind the last place that scores at least as
/// high.
spec fn slot(marks: Seq<Mark>, ranked: Seq<int>, i: int) -> int
    decreases ranked.len(),
{
    if ranked.len() == 0 {
        0
    } else if marks[ranked.last()].score >= marks[i].score {
        ranked.len() as int
    } else {
        slot(marks, ranked.drop_last(), i)
    }
}

proof fn lemma_insert_at_slot(marks: Seq<Mark>, ranked: Seq<int>, i: int)
    ensures
        0 <= slot(marks, ranked, i) <= ranked.len(),
        insert_ranked(marks, ranked, i) == ranked.insert(slot(marks, ranked, i), i),
    decreases ranked.len(),
{
    if ranked.len() == 0 {
        assert(seq![i] =~= ranked.insert(0, i));
    } else if marks[ranked.last()].score >= marks[i].score {
        assert(ranked.push(i) =~= ranked.insert(ranked.len() as int, i));
    } else {
        let front = ranked.drop_last();
        lemma_insert_at_slot(marks, front, i);
        let p = slot(marks, front, i);
        assert(front.insert(p, i).push(ranked.last()) =~= ranked.insert(p, i));
    }
}

/// Where the scan from the back has passed only lower scores and stands at a
/// score at least as high, or at the front, it stands at the slot.
proof fn lemma_slot_found(marks: Seq<Mark>, ranked: Seq<int>, i: int, p: int)
    requires
        0 <= p <= ranked.len(),
        forall|j: int| p <= j < ranked.len() ==> marks[#[trigger] ranked[j]].score < marks[i].score,
        p > 0 ==> marks[ranked[p - 1]].score >= marks[i].score,
    ensures
        slot(marks, ranked, i) == p,
    decreases ranked.len(),
{
    if ranked.len() > 0 && p < ranked.len() {
        let front = ranked.drop_last();
        assert(marks[ranked[ranked.len() - 1]].score < marks[i].score);
        assert forall|j: int| p <= j < front.len() implies marks[#[trigger] front[j]].score
            < marks[i].score by {
            assert(front[j] == ranked[j]);
        }
        if p > 0 {
            assert(front[p - 1] == ranked[p - 1]);
        }
        lemma_slot_found(marks, front, i, p);
    }
}

/// The places of a list as mathematical integers.
pub open spec fn places(order: Seq<usize>) -> Seq<int> {
    Seq::new(order.len(), |k: int| order[k] as int)
}

/// Ranks the hints whose marks are `marks`: gives their places in the order
/// in which they are shown.
pub fn rank(marks: &Vec<Mark>) -> (order: Vec<usize>)
    ensures
        places(order@) == ranking(marks@),
        forall|k: int| 0 <= k < order@.len() ==> #[trigger] order@[k] < marks@.len(),
{
    let n: usize = marks.len();
    let mut exact: Vec<usize> = Vec::new();
    let mut fuzzy: Vec<usize> = Vec::new();
    let mut i: usize = 0;
    assert(places(exact@) =~= exact_places(marks@, 0));
    assert(places(fuzzy@) =~= fuzzy_places(marks@, 0));
    while i < n
        invariant
            i <= n,
            n == marks@.len(),
            places(exact@) == exact_places(marks@, i as int),
            places(fuzzy@) == fuzzy_places(marks@, i as int),
            forall|k: int| 0 <= k < exact@.len() ==> #[trigger] exact@[k] < i,
            forall|k: int| 0 <= k < fuzzy@.len() ==> #[trigger] fuzzy@[k] < i,
        decreases n - i,
    {
        let m = marks[i];
        if m.exact {
            let ghost before = places(exact@);
            exact.push(i);
            assert(places(exact@) =~= before.push(i as int));
        } else if m.score > 0 {
            let ghost before = places(fuzzy@);
            let mut p: usize = fuzzy.len();
            while p > 0 && marks[fuzzy[p - 1]].score < m.score
                invariant
                    p <= fuzzy@.len(),
                    i < n,
                    n == marks@.len(),
                    m == marks@[i as int],
                    before == places(fuzzy@),
                    forall|k: int| 0 <= k < fuzzy@.len() ==> #[trigger] fuzzy@[k] < i,
                    forall|j: int|
                        p <= j < before.len() ==> marks@[#[trigger] before[j]].score < m.score,
                decreases p,
            {
                assert(before[p - 1] == fuzzy@[p - 1] as int);
                p -= 1;
            }
            proof {
                if p > 0 {
                    assert(before[p - 1] == fuzzy@[p - 1] as int);
                }
                lemma_slot_found(marks@, before, i as int, p as int);
                lemma_insert_at_slot(marks@, before, i as int);
            }
            fuzzy.insert(p, i);
            assert(places(fuzzy@) =~= before.insert(p as int, i as int));
        }
        i += 1;
    }
    let ghost front = places(exact@);
    let ghost back = places(fuzzy@);
    let mut k: usize = 0;
    while k < fuzzy.len()
        invariant
            k <= fuzzy@.len(),
            n == marks@.len(),
            back == places(fuzzy@),
            places(exact@) == front + back.take(k as int),
            forall|j: int| 0 <= j < exact@.len() ==> #[trigger] exact@[j] < n,
            forall|j: int| 0 <= j < fuzzy@.len() ==> #[trigger] fuzzy@[j] < n,
        decreases fuzzy@.len() - k,
    {
        let ghost before = places(exact@);
        exact.push(fuzzy[k]);
        assert(places(exact@) =~= before.push(fuzzy@[k as int] as int));
        assert(back.take(k + 1) =~= back.take(k as int).push(back[k as int]));
        k += 1;
    }
    assert(back.take(back.len() as int) =~= back);
    exact
}

/// How the hint `h` stands to the typed text `query`.
pub open spec fn mark_of(h: HintView, query: Seq<char>) -> Mark {
    if h.hint == unicode_uppercase(query) {
        Mark { exact: true, score: 0 }
    } else {
        Mark { exact: false, score: fuzzy_score(h.text, query) as i64 }
    }
}

/// The marks of a list of hints, in order.
pub open spec fn marks_of(hints: Seq<HintView>, query: Seq<char>) -> Seq<Mark> {
    Seq::new(hints.len(), |i: int| mark_of(hints[i], query))
}

/// The places of the hints to show for the typed text `query`, in the order in
/// which they are shown: all of them, in the order of the scan, while nothing
/// has been typed; the ranking after that.
pub open spec fn match_order(hints: Seq<HintView>, query: Seq<char>) -> Seq<int> {
    if query.len() == 0 {
        Seq::new(hints.len(), |i: int| i)
    } else {
        ranking(marks_of(hints, query))
    }
}

/// The hints to show for the typed text `inp`: exact hits first, then fuzzy
/// hits.
pub fn do_matching<'a>(hints: &'a [Hint], inp: String) -> (r: Vec<&'a Hint>)
    ensures
        r@.len() == match_order(hint_views(hints@), inp@).len(),
        forall|k: int|
            0 <= k < r@.len() ==> {
                let place = #[trigger] match_order(hint_views(hints@), inp@)[k];
                0 <= place < hints@.len() && *r@[k] == hints@[place]
            },
        inp@.len() == 0 ==> r@.len() == hints@.len() && forall|k: int|
            0 <= k < r@.len() ==> *#[trigger] r@[k] == hints@[k],
{
    let n: usize = hints.len();
    let mut out: Vec<&'a Hint> = Vec::new();
    if inp.as_str().is_empty() {
        let mut i: usize = 0;
        while i < n
            invariant
                i <= n,
                n == hints@.len(),
                out@.len() == i,
                forall|k: int| 0 <= k < i ==> *#[trigger] out@[k] == hints@[k],
            decreases n - i,
        {
            out.push(&hints[i]);
            i += 1;
        }
        return out;
    }
    let upper = inp.as_str().to_uppercase();
    let mut marks: Vec<Mark> = Vec::new();
    let mut i: usize = 0;
    while i < n
        invariant
            i <= n,
            n == hints@.len(),
            upper@ == unicode_uppercase(inp@),
            marks@.len() == i,
            forall|k: int| 0 <= k < i ==> #[trigger] marks@[k] == mark_of(hints@[k]@, inp@),
        decreases n - i,
    {
        let h = &hints[i];
        let m = if h.hint == upper {
            Mark { exact: true, score: 0 }
        } else {
            Mark { exact: false, score: score(h.text.as_str(), inp.as_str()) }
        };
        marks.push(m);
        i += 1;
    }
    assert(marks@ =~= marks_of(hint_views(hints@), inp@));
    let order = rank(&marks);
    let mut k: usize = 0;
    while k < order.len()
        invariant
            k <= order@.len(),
            n == hints@.len(),
            out@.len() == k,
            forall|j: int| 0 <= j < order@.len() ==> #[trigger] order@[j] < n,
            forall|j: int| 0 <= j < k ==> *#[trigger] out@[j] == hints@[order@[j] as int],
        decreases order@.len() - k,
    {
        out.push(&hints[order[k]]);
        k += 1;
    }
    assert forall|k: int| 0 <= k < out@.len() implies {
        let place = #[trigger] match_order(hint_views(hints@), inp@)[k];
        0 <= place < hints@.len() && *out@[k] == hints@[place]
    } by {
        assert(places(order@)[k] == order@[k] as int);
    }
    out
}

/// Whether the fuzzy hit at place `a` is shown before the one at place `b`: it
/// scores higher, or the same and was scanned earlier.
pub open spec fn outranks(marks: Seq<Mark>, a: int, b: int) -> bool {
    marks[a].score > marks[b].score || (marks[a].score == marks[b].score && a < b)
}

proof fn lemma_slot(marks: Seq<Mark>, ranked: Seq<int>, i: int)
    ensures
        0 <= slot(marks, ranked, i) <= ranked.len(),
        forall|j: int|
            slot(marks, ranked, i) <= j < ranked.len() ==> marks[#[trigger] ranked[j]].score
                < marks[i].score,
        slot(marks, ranked, i) > 0 ==> marks[ranked[slot(marks, ranked, i) - 1]].score
            >= marks[i].score,
    decreases ranked.len(),
{
    if ranked.len() > 0 && marks[ranked.last()].score < marks[i].score {
        let front = ranked.drop_last();
        lemma_slot(marks, front, i);
        let p = slot(marks, front, i);
        assert forall|j: int| p <= j < ranked.len() implies marks[#[trigger] ranked[j]].score
            < marks[i].score by {
            if j < front.len() {
                assert(front[j] == ranked[j]);
            }
        }
        if p > 0 {
            assert(front[p - 1] == ranked[p - 1]);
        }
    }
}

/// The exact hits below `n`: each of them once, in the order of the scan.
pub proof fn lemma_exact_places(marks: Seq<Mark>, n: int)
    requires
        0 <= n <= marks.len(),
    ensures
        forall|k: int|
            0 <= k < exact_places(marks, n).len() ==> 0 <= #[trigger] exact_places(marks, n)[k] < n
                && marks[exact_places(marks, n)[k]].exact,
        forall|a: int, b: int|
            0 <= a < b < exact_places(marks, n).len() ==> exact_places(marks, n)[a] < exact_places(
                marks,
                n,
            )[b],
        forall|i: int| 0 <= i < n && marks[i].exact ==> exact_places(marks, n).contains(i),
    decreases n,
{
    if n > 0 {
        lemma_exact_places(marks, n - 1);
        let before = exact_places(marks, n - 1);
        let now = exact_places(marks, n);
        assert forall|i: int| 0 <= i < n && marks[i].exact implies now.contains(i) by {
            if i < n - 1 {
                assert(before.contains(i));
                let k = choose|k: int| 0 <= k < before.len() && before[k] == i;
                assert(now[k] == i);
            } else {
                assert(now[now.len() - 1] == i);
            }
        }
    }
}

/// The fuzzy hits below `n`: each of them once, best score first, equal
/// scores in the order of the scan.
pub proof fn lemma_fuzzy_places(marks: Seq<Mark>, n: int)
    requires
        0 <= n <= marks.len(),
    ensures
        forall|k: int|
            0 <= k < fuzzy_places(marks, n).len() ==> 0 <= #[trigger] fuzzy_places(marks, n)[k] < n
                && fuzzy_hit(marks[fuzzy_places(marks, n)[k]]),
        forall|a: int, b: int|
            0 <= a < b < fuzzy_places(marks, n).len() ==> outranks(
                marks,
                fuzzy_places(marks, n)[a],
                fuzzy_places(marks, n)[b],
            ),
        forall|i: int| 0 <= i < n && fuzzy_hit(marks[i]) ==> fuzzy_places(marks, n).contains(i),
    decreases n,
{
    if n > 0 {
        lemma_fuzzy_places(marks, n - 1);
        let before = fuzzy_places(marks, n - 1);
        let now = fuzzy_places(marks, n);
        if fuzzy_hit(marks[n - 1]) {
            let p = slot(marks, before, n - 1);
            lemma_slot(marks, before, n - 1);
            lemma_insert_at_slot(marks, before, n - 1);
            assert(now == before.insert(p, n - 1));
            assert forall|a: int, b: int| 0 <= a < b < now.len() implies outranks(
                marks,
                now[a],
                now[b],
            ) by {
                if b < p {
                    assert(now[a] == before[a] && now[b] == before[b]);
                } else if b == p {
                    assert(now[a] == before[a]);
                    if a < p - 1 {
                        assert(outranks(marks, before[a], before[p - 1]));
                    }
                } else if a < p {
                    assert(now[a] == before[a] && now[b] == before[b - 1]);
                } else if a == p {
                    assert(now[b] == before[b - 1]);
                } else {
                    assert(now[a] == before[a - 1] && now[b] == before[b - 1]);
                }
            }
            assert forall|i: int| 0 <= i < n && fuzzy_hit(marks[i]) implies now.contains(i) by {
                if i < n - 1 {
                    assert(before.contains(i));
                let k = choose|k: int| 0 <= k < before.len() && before[k] == i;
                    if k < p {
                        assert(now[k] == i);
                    } else {
                        assert(now[k + 1] == i);
                    }
                } else {
                    assert(now[p] == i);
                }
            }
            assert forall|k: int| 0 <= k < now.len() implies 0 <= #[trigger] now[k] < n
                && fuzzy_hit(marks[now[k]]) by {
                if k < p {
                    assert(now[k] == before[k]);
                } else if k > p {
                    assert(now[k] == before[k - 1]);
                }
            }
        } else {
            assert forall|i: int| 0 <= i < n && fuzzy_hit(marks[i]) implies now.contains(i) by {
                assert(before.contains(i));
                let k = choose|k: int| 0 <= k < before.len() && before[k] == i;
                assert(now[k] == i);
            }
        }
    }
}

/// What the ranking is, said without the way it is built.
///
/// It holds the place of every exact hit and of every fuzzy hit, each once,
/// and no other place. Every exact hit stands before every fuzzy hit. The
/// exact hits stand in the order of the scan; of two fuzzy hits the one with
/// the higher score stands first, and with equal scores the one scanned first.
pub proof fn lemma_ranking(marks: Seq<Mark>)
    ensures
        forall|k: int|
            0 <= k < ranking(marks).len() ==> 0 <= #[trigger] ranking(marks)[k] < marks.len() && (
            marks[ranking(marks)[k]].exact || fuzzy_hit(marks[ranking(marks)[k]])),
        forall|i: int|
            0 <= i < marks.len() && (marks[i].exact || fuzzy_hit(marks[i])) ==> ranking(
                marks,
            ).contains(i),
        ranking(marks).no_duplicates(),
        forall|a: int, b: int|
            #![trigger ranking(marks)[a], ranking(marks)[b]]
            0 <= a < b < ranking(marks).len() ==> {
                let (i, j) = (ranking(marks)[a], ranking(marks)[b]);
                if marks[i].exact {
                    marks[j].exact ==> i < j
                } else {
                    !marks[j].exact && outranks(marks, i, j)
                }
            },
{
    let n = marks.len() as int;
    let front = exact_places(marks, n);
    let back = fuzzy_places(marks, n);
    let all = ranking(marks);
    lemma_exact_places(marks, n);
    lemma_fuzzy_places(marks, n);
    assert forall|k: int| 0 <= k < all.len() implies 0 <= #[trigger] all[k] < marks.len() && (
    marks[all[k]].exact || fuzzy_hit(marks[all[k]])) by {
        if k < front.len() {
            assert(all[k] == front[k]);
        } else {
            assert(all[k] == back[k - front.len()]);
        }
    }
    assert forall|i: int|
        0 <= i < marks.len() && (marks[i].exact || fuzzy_hit(marks[i])) implies all.contains(
        i,
    ) by {
        if marks[i].exact {
            assert(front.contains(i));
            let k = choose|k: int| 0 <= k < front.len() && front[k] == i;
            assert(all[k] == i);
        } else {
            assert(back.contains(i));
            let k = choose|k: int| 0 <= k < back.len() && back[k] == i;
            assert(all[front.len() + k] == i);
        }
    }
    assert forall|a: int, b: int|
        #![trigger all[a], all[b]]
        0 <= a < b < all.len() implies {
        let (i, j) = (all[a], all[b]);
        if marks[i].exact {
            marks[j].exact ==> i < j
        } else {
            !marks[j].exact && outranks(marks, i, j)
        }
    } by {
        if b < front.len() {
            assert(all[a] == front[a] && all[b] == front[b]);
        } else if a < front.len() {
            assert(all[a] == front[a] && all[b] == back[b - front.len()]);
        } else {
            assert(all[a] == back[a - front.len()] && all[b] == back[b - front.len()]);
        }
    }
    // No place stands twice: of two exact hits the earlier was scanned first,
    // a fuzzy hit is no exact hit, and no fuzzy hit outranks itself.
    assert forall|a: int, b: int| 0 <= a < all.len() && 0 <= b < all.len() && a != b implies all[a]
        != all[b] by {
        let (lo, hi) = if a < b {
            (a, b)
        } else {
            (b, a)
        };
        let (i, j) = (all[lo], all[hi]);
        assert(if marks[i].exact {
            marks[j].exact ==> i < j
        } else {
            !marks[j].exact && outranks(marks, i, j)
        });
        assert(!outranks(marks, i, i));
    }
}

/// Typing a hint's label brings that hint to the front: where no two hints
/// have the same label and the typed text, upper-cased, is the label of the
/// hint at place `i`, that hint is the one exact hit and is shown first.
pub proof fn lemma_typed_label_comes_first(hints: Seq<HintView>, query: Seq<char>, i: int)
    requires
        0 <= i < hints.len(),
        query.len() > 0,
        hints[i].hint == unicode_uppercase(query),
        forall|a: int, b: int| 0 <= a < b < hints.len() ==> hints[a].hint != hints[b].hint,
    ensures
        match_order(hints, query).len() >= 1,
        match_order(hints, query)[0] == i,
        exact_places(marks_of(hints, query), hints.len() as int) == seq![i],
{
    let marks = marks_of(hints, query);
    lemma_one_exact(marks, i, hints.len() as int);
    assert(exact_places(marks, hints.len() as int)[0] == i);
}

proof fn lemma_one_exact(marks: Seq<Mark>, i: int, n: int)
    requires
        0 <= i < marks.len(),
        0 <= n <= marks.len(),
        forall|k: int| 0 <= k < marks.len() ==> ((#[trigger] marks[k]).exact <==> k == i),
    ensures
        exact_places(marks, n) == if n <= i {
            Seq::<int>::empty()
        } else {
            seq![i]
        },
    decreases n,
{
    if n > 0 {
        lemma_one_exact(marks, i, n - 1);
        if n - 1 == i {
            assert(Seq::<int>::empty().push(i) =~= seq![i]);
        }
    }
}

} // verus!
