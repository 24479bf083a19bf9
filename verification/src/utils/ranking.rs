//! The ranking of scored candidates: the best score first, candidates of
//! equal score in the order in which they came, and of several candidates
//! with the same text only the first.
//!
//! A score is a whole number on a scale of the caller's choosing; the
//! ranking only compares scores.

use vstd::prelude::*;

verus! {

/// How many candidates a report shows.
pub const TOP_COUNT: usize = 50;

/// A decoded text with its score and the label of what decoded it.
#[derive(Debug)]
pub struct ScoredCandidate {
    pub score: i64,
    pub text: String,
    pub label: String,
}

/// A scored candidate with its texts as sequences of characters.
pub struct CandidateView {
    pub score: int,
    pub text: Seq<char>,
    pub label: Seq<char>,
}

impl View for ScoredCandidate {
    type V = CandidateView;

    open spec fn view(&self) -> CandidateView {
        CandidateView { score: self.score as int, text: self.text@, label: self.label@ }
    }
}

/// The candidates of `v`, each with its texts as sequences of characters.
pub open spec fn candidate_views(v: Seq<ScoredCandidate>) -> Seq<CandidateView> {
    Seq::new(v.len(), |i: int| v[i]@)
}

/// Whether no candidate of `s` stands before one with a better score.
pub open spec fn is_ranked(s: Seq<CandidateView>) -> bool {
    forall|i: int, j: int| 0 <= i < j < s.len() ==> s[i].score >= s[j].score
}

/// `sorted` with `c` put in behind every candidate whose score is no worse
/// than its own.
pub open spec fn insert_ranked(sorted: Seq<CandidateView>, c: CandidateView) -> Seq<
    CandidateView,
>
    decreases sorted.len(),
{
    if sorted.len() == 0 {
        seq![c]
    } else if sorted.last().score >= c.score {
        sorted.push(c)
    } else {
        insert_ranked(sorted.drop_last(), c).push(sorted.last())
    }
}

/// The candidates of `s` by falling score, candidates of equal score in
/// the order in which they stand in `s`.
pub open spec fn sort_ranked(s: Seq<CandidateView>) -> Seq<CandidateView>
    decreases s.len(),
{
    if s.len() == 0 {
        Seq::empty()
    } else {
        insert_ranked(sort_ranked(s.drop_last()), s.last())
    }
}

/// Two runs of candidates made into one: at each step the worse of the two
/// last candidates goes to the end, that of `y` where they are equal.
pub open spec fn merge_ranked(x: Seq<CandidateView>, y: Seq<CandidateView>) -> Seq<
    CandidateView,
>
    decreases x.len() + y.len(),
{
    if y.len() == 0 {
        x
    } else if x.len() == 0 {
        y
    } else if x.last().score >= y.last().score {
        merge_ranked(x, y.drop_last()).push(y.last())
    } else {
        merge_ranked(x.drop_last(), y).push(x.last())
    }
}

/// Whether some candidate of `s` has the text `text`.
pub open spec fn has_text(s: Seq<CandidateView>, text: Seq<char>) -> bool {
    exists|i: int| 0 <= i < s.len() && (#[trigger] s[i]).text == text
}

/// `s` without every candidate whose text an earlier candidate has.
pub open spec fn dedup_texts(s: Seq<CandidateView>) -> Seq<CandidateView>
    decreases s.len(),
{
    if s.len() == 0 {
        Seq::empty()
    } else if has_text(s.drop_last(), s.last().text) {
        dedup_texts(s.drop_last())
    } else {
        dedup_texts(s.drop_last()).push(s.last())
    }
}

/// The ranking of `s`: sorted by falling score, then rid of repeated
/// texts.
pub open spec fn ranked_spec(s: Seq<CandidateView>) -> Seq<CandidateView> {
    dedup_texts(sort_ranked(s))
}

/// `s` read from its end.
pub open spec fn backwards(s: Seq<CandidateView>) -> Seq<CandidateView> {
    Seq::new(s.len(), |i: int| s[s.len() - 1 - i])
}

/// Merges two runs of candidates into one.
fn merge_runs(x: Vec<ScoredCandidate>, y: Vec<ScoredCandidate>) -> (out: Vec<ScoredCandidate>)
    ensures
        candidate_views(out@) == merge_ranked(candidate_views(x@), candidate_views(y@)),
{
    let mut x = x;
    let mut y = y;
    let ghost goal = merge_ranked(candidate_views(x@), candidate_views(y@));
    let mut tail: Vec<ScoredCandidate> = Vec::new();
    assert(merge_ranked(candidate_views(x@), candidate_views(y@)) + backwards(
        candidate_views(tail@),
    ) =~= goal);
    while x.len() > 0 && y.len() > 0
        invariant
            goal == merge_ranked(candidate_views(x@), candidate_views(y@)) + backwards(
                candidate_views(tail@),
            ),
        decreases x@.len() + y@.len(),
    {
        let ghost xv = candidate_views(x@);
        let ghost yv = candidate_views(y@);
        let ghost tv = candidate_views(tail@);
        if x[x.len() - 1].score >= y[y.len() - 1].score {
            let c = y.pop().unwrap();
            tail.push(c);
            assert(candidate_views(y@) =~= yv.drop_last());
            assert(candidate_views(x@) =~= xv);
            assert(backwards(candidate_views(tail@)) =~= seq![yv.last()] + backwards(tv));
            assert(merge_ranked(xv, yv.drop_last()).push(yv.last()) + backwards(tv)
                =~= merge_ranked(xv, yv.drop_last()) + (seq![yv.last()] + backwards(tv)));
        } else {
            let c = x.pop().unwrap();
            tail.push(c);
            assert(candidate_views(x@) =~= xv.drop_last());
            assert(candidate_views(y@) =~= yv);
            assert(backwards(candidate_views(tail@)) =~= seq![xv.last()] + backwards(tv));
            assert(merge_ranked(xv.drop_last(), yv).push(xv.last()) + backwards(tv)
                =~= merge_ranked(xv.drop_last(), yv) + (seq![xv.last()] + backwards(tv)));
        }
    }
    let mut out = if y.len() == 0 {
        x
    } else {
        y
    };
    while tail.len() > 0
        invariant
            goal == candidate_views(out@) + backwards(candidate_views(tail@)),
        decreases tail@.len(),
    {
        let ghost ov = candidate_views(out@);
        let ghost tv = candidate_views(tail@);
        let c = tail.pop().unwrap();
        out.push(c);
        assert(candidate_views(tail@) =~= tv.drop_last());
        assert(candidate_views(out@) =~= ov.push(tv.last()));
        assert(backwards(tv) =~= seq![tv.last()] + backwards(tv.drop_last()));
        assert(ov.push(tv.last()) + backwards(tv.drop_last()) =~= ov + (seq![tv.last()]
            + backwards(tv.drop_last())));
    }
    assert(backwards(candidate_views(tail@)) =~= Seq::<CandidateView>::empty());
    assert(candidate_views(out@) + Seq::<CandidateView>::empty() =~= candidate_views(out@));
    out
}

/// Sorts candidates by falling score, keeping candidates of equal score in
/// their order.
pub fn sort_candidates(candidates: Vec<ScoredCandidate>) -> (out: Vec<ScoredCandidate>)
    ensures
        candidate_views(out@) == sort_ranked(candidate_views(candidates@)),
    decreases candidates@.len(),
{
    let n = candidates.len();
    let ghost whole = candidate_views(candidates@);
    if n <= 1 {
        proof {
            if n == 1 {
                assert(whole.drop_last() =~= Seq::<CandidateView>::empty());
                assert(sort_ranked(whole.drop_last()) =~= Seq::<CandidateView>::empty());
                assert(sort_ranked(whole) =~= whole);
            } else {
                assert(sort_ranked(whole) =~= whole);
            }
        }
        return candidates;
    }
    let mut left = candidates;
    let right = left.split_off(n / 2);
    let ghost lv = candidate_views(left@);
    let ghost rv = candidate_views(right@);
    assert(lv + rv =~= whole);
    let sorted_left = sort_candidates(left);
    let sorted_right = sort_candidates(right);
    proof {
        lemma_sort_concat(lv, rv);
    }
    merge_runs(sorted_left, sorted_right)
}

/// Whether a candidate of `kept` has the text `text`.
fn text_seen(kept: &Vec<ScoredCandidate>, text: &String) -> (r: bool)
    ensures
        r == has_text(candidate_views(kept@), text@),
{
    let mut i: usize = 0;
    while i < kept.len()
        invariant
            i <= kept@.len(),
            forall|k: int| 0 <= k < i ==> (#[trigger] candidate_views(kept@)[k]).text != text@,
        decreases kept@.len() - i,
    {
        if kept[i].text == *text {
            assert(candidate_views(kept@)[i as int].text == text@);
            return true;
        }
        i += 1;
    }
    false
}

/// Drops every candidate whose text an earlier candidate has.
pub fn dedup_candidates(candidates: Vec<ScoredCandidate>) -> (out: Vec<ScoredCandidate>)
    ensures
        candidate_views(out@) == dedup_texts(candidate_views(candidates@)),
{
    let ghost whole = candidate_views(candidates@);
    let mut rest = candidates;
    let mut tail: Vec<ScoredCandidate> = Vec::new();
    // Turn the list round so that it can be taken apart from its front.
    while rest.len() > 0
        invariant
            whole == candidate_views(rest@) + backwards(candidate_views(tail@)),
        decreases rest@.len(),
    {
        let ghost rv = candidate_views(rest@);
        let ghost tv = candidate_views(tail@);
        let c = rest.pop().unwrap();
        tail.push(c);
        assert(candidate_views(rest@) =~= rv.drop_last());
        assert(backwards(candidate_views(tail@)) =~= seq![rv.last()] + backwards(tv));
        assert(rv.drop_last() + (seq![rv.last()] + backwards(tv)) =~= rv + backwards(tv));
    }
    assert(backwards(candidate_views(tail@)) =~= whole);
    let mut out: Vec<ScoredCandidate> = Vec::new();
    let ghost mut done: Seq<CandidateView> = Seq::empty();
    assert(candidate_views(out@) =~= dedup_texts(done));
    while tail.len() > 0
        invariant
            whole == done + backwards(candidate_views(tail@)),
            candidate_views(out@) == dedup_texts(done),
        decreases tail@.len(),
    {
        let ghost tv = candidate_views(tail@);
        let ghost ov = candidate_views(out@);
        let c = tail.pop().unwrap();
        assert(candidate_views(tail@) =~= tv.drop_last());
        assert(backwards(tv) =~= seq![tv.last()] + backwards(tv.drop_last()));
        proof {
            lemma_dedup_has_text(done, c@.text);
            assert(done.push(c@).drop_last() =~= done);
        }
        if !text_seen(&out, &c.text) {
            out.push(c);
            assert(candidate_views(out@) =~= ov.push(c@));
        }
        proof {
            assert(done.push(c@) + backwards(tv.drop_last()) =~= done + (seq![tv.last()]
                + backwards(tv.drop_last())));
            done = done.push(c@);
        }
    }
    assert(backwards(candidate_views(tail@)) =~= Seq::<CandidateView>::empty());
    assert(done + Seq::<CandidateView>::empty() =~= done);
    out
}

/// Ranks candidates: the best score first, candidates of equal score in
/// their order, and of candidates with one text only the first.
pub fn rank_candidates(candidates: Vec<ScoredCandidate>) -> (out: Vec<ScoredCandidate>)
    ensures
        candidate_views(out@) == ranked_spec(candidate_views(candidates@)),
{
    dedup_candidates(sort_candidates(candidates))
}

/// How many candidates of `total` a report shows.
pub fn top_len(total: usize) -> (count: usize)
    ensures
        count == if total <= 50 {
            total
        } else {
            50
        },
{
    if total <= TOP_COUNT {
        total
    } else {
        TOP_COUNT
    }
}

/// Parts a ranking into the candidates that a report shows, which are its
/// first fifty or all of it where it holds fewer, and the rest.
pub fn split_top(ranked: Vec<ScoredCandidate>) -> (parts: (
    Vec<ScoredCandidate>,
    Vec<ScoredCandidate>,
))
    ensures
        candidate_views(parts.0@) == candidate_views(ranked@).take(
            if ranked@.len() <= 50 {
                ranked@.len() as int
            } else {
                50
            },
        ),
        candidate_views(parts.0@) + candidate_views(parts.1@) == candidate_views(ranked@),
{
    let ghost whole = candidate_views(ranked@);
    let mut top = ranked;
    let count = top_len(top.len());
    let rest = top.split_off(count);
    assert(candidate_views(top@) =~= whole.take(count as int));
    assert(candidate_views(top@) + candidate_views(rest@) =~= whole);
    (top, rest)
}

/// The last candidate of a merged run is the last of one of the two runs.
pub proof fn lemma_merge_last(x: Seq<CandidateView>, y: Seq<CandidateView>)
    requires
        x.len() + y.len() > 0,
    ensures
        merge_ranked(x, y).len() == x.len() + y.len(),
        (x.len() > 0 && merge_ranked(x, y).last() == x.last()) || (y.len() > 0 && merge_ranked(
            x,
            y,
        ).last() == y.last()),
    decreases x.len() + y.len(),
{
    if y.len() == 0 || x.len() == 0 {
    } else if x.last().score >= y.last().score {
        lemma_merge_len(x, y.drop_last());
    } else {
        lemma_merge_len(x.drop_last(), y);
    }
}

/// A merged run holds as many candidates as the two runs together.
pub proof fn lemma_merge_len(x: Seq<CandidateView>, y: Seq<CandidateView>)
    ensures
        merge_ranked(x, y).len() == x.len() + y.len(),
    decreases x.len() + y.len(),
{
    if y.len() == 0 || x.len() == 0 {
    } else if x.last().score >= y.last().score {
        lemma_merge_len(x, y.drop_last());
    } else {
        lemma_merge_len(x.drop_last(), y);
    }
}

/// Putting a candidate into a merged run is merging with the second run
/// after the candidate was put into that.
pub proof fn lemma_insert_into_merge(x: Seq<CandidateView>, y: Seq<CandidateView>, c: CandidateView)
    ensures
        insert_ranked(merge_ranked(x, y), c) == merge_ranked(x, insert_ranked(y, c)),
    decreases x.len() + y.len(),
{
    let z = insert_ranked(y, c);
    let m = merge_ranked(x, y);
    if y.len() == 0 {
        assert(z =~= seq![c]);
        assert(z.last() == c);
        assert(z.drop_last() =~= y);
        assert(m == x);
        if x.len() == 0 {
        } else if x.last().score >= c.score {
        } else {
            lemma_insert_into_merge(x.drop_last(), y, c);
            assert(merge_ranked(x.drop_last(), y) == x.drop_last());
        }
    } else {
        let b = y.last();
        if b.score >= c.score {
            assert(z == y.push(c));
            assert(z.last() == c);
            assert(z.drop_last() =~= y);
            if x.len() == 0 {
                assert(m == y);
            } else if x.last().score >= c.score {
                lemma_merge_last(x, y);
                assert(insert_ranked(m, c) == m.push(c));
            } else {
                // The last of `x` is worse than `c`, so worse than the last of `y`.
                lemma_insert_into_merge(x.drop_last(), y, c);
                let inner = merge_ranked(x.drop_last(), y);
                assert(m == inner.push(x.last()));
                assert(m.last() == x.last());
                assert(m.drop_last() =~= inner);
            }
        } else {
            assert(z == insert_ranked(y.drop_last(), c).push(b));
            assert(z.last() == b);
            assert(z.drop_last() =~= insert_ranked(y.drop_last(), c));
            if x.len() == 0 {
                assert(m == y);
            } else if x.last().score >= b.score {
                lemma_insert_into_merge(x, y.drop_last(), c);
                let inner = merge_ranked(x, y.drop_last());
                assert(m == inner.push(b));
                assert(m.last() == b);
                assert(m.drop_last() =~= inner);
            } else {
                lemma_insert_into_merge(x.drop_last(), y, c);
                let inner = merge_ranked(x.drop_last(), y);
                assert(m == inner.push(x.last()));
                assert(m.last() == x.last());
                assert(m.drop_last() =~= inner);
            }
        }
    }
}

/// Sorting two lists and merging the runs is sorting the two lists put
/// together.
pub proof fn lemma_sort_concat(a: Seq<CandidateView>, b: Seq<CandidateView>)
    ensures
        sort_ranked(a + b) == merge_ranked(sort_ranked(a), sort_ranked(b)),
    decreases b.len(),
{
    if b.len() == 0 {
        assert(a + b =~= a);
    } else {
        lemma_sort_concat(a, b.drop_last());
        assert((a + b).drop_last() =~= a + b.drop_last());
        assert((a + b).last() == b.last());
        lemma_insert_into_merge(sort_ranked(a), sort_ranked(b.drop_last()), b.last());
    }
}

/// Dropping repeated texts drops no text altogether.
pub proof fn lemma_dedup_has_text(s: Seq<CandidateView>, text: Seq<char>)
    ensures
        has_text(dedup_texts(s), text) == has_text(s, text),
    decreases s.len(),
{
    if s.len() > 0 {
        let rest = s.drop_last();
        let d = dedup_texts(rest);
        lemma_dedup_has_text(rest, text);
        lemma_dedup_has_text(rest, s.last().text);
        if has_text(s, text) {
            let i = choose|i: int| 0 <= i < s.len() && (#[trigger] s[i]).text == text;
            if i < s.len() - 1 {
                assert(rest[i].text == text);
                let k = choose|k: int| 0 <= k < d.len() && (#[trigger] d[k]).text == text;
                assert(dedup_texts(s)[k].text == text);
            } else if has_text(rest, text) {
                let k = choose|k: int| 0 <= k < d.len() && (#[trigger] d[k]).text == text;
                assert(dedup_texts(s)[k].text == text);
            } else {
                assert(dedup_texts(s)[d.len() as int].text == text);
            }
        }
        if has_text(dedup_texts(s), text) {
            let k = choose|k: int|
                0 <= k < dedup_texts(s).len() && (#[trigger] dedup_texts(s)[k]).text == text;
            if k < d.len() {
                assert(d[k].text == text);
                let i = choose|i: int| 0 <= i < rest.len() && (#[trigger] rest[i]).text == text;
                assert(s[i].text == text);
            } else {
                assert(s[s.len() - 1].text == text);
            }
        }
    }
}

/// Every candidate that is kept is one of the candidates given.
pub proof fn lemma_dedup_keeps_given(s: Seq<CandidateView>, k: int)
    requires
        0 <= k < dedup_texts(s).len(),
    ensures
        s.contains(dedup_texts(s)[k]),
        dedup_texts(s).len() <= s.len(),
    decreases s.len(),
{
    let rest = s.drop_last();
    lemma_dedup_len(rest);
    if k < dedup_texts(rest).len() {
        lemma_dedup_keeps_given(rest, k);
        let i = choose|i: int| 0 <= i < rest.len() && rest[i] == dedup_texts(rest)[k];
        assert(s[i] == dedup_texts(s)[k]);
    } else {
        assert(s[s.len() - 1] == dedup_texts(s)[k]);
    }
}

/// No more candidates are kept than were given.
pub proof fn lemma_dedup_len(s: Seq<CandidateView>)
    ensures
        dedup_texts(s).len() <= s.len(),
    decreases s.len(),
{
    if s.len() > 0 {
        lemma_dedup_len(s.drop_last());
    }
}

/// No two candidates that are kept have the same text.
pub proof fn lemma_dedup_distinct(s: Seq<CandidateView>)
    ensures
        forall|i: int, j: int|
            0 <= i < j < dedup_texts(s).len() ==> (#[trigger] dedup_texts(s)[i]).text != (
            #[trigger] dedup_texts(s)[j]).text,
    decreases s.len(),
{
    if s.len() > 0 {
        let rest = s.drop_last();
        let d = dedup_texts(rest);
        lemma_dedup_distinct(rest);
        lemma_dedup_has_text(rest, s.last().text);
        assert forall|i: int, j: int| 0 <= i < j < dedup_texts(s).len() implies (
        #[trigger] dedup_texts(s)[i]).text != (#[trigger] dedup_texts(s)[j]).text by {
            if j < d.len() {
                assert(dedup_texts(s)[i] == d[i] && dedup_texts(s)[j] == d[j]);
            } else {
                assert(dedup_texts(s)[i] == d[i]);
                assert(!has_text(d, s.last().text));
            }
        }
    }
}

/// Dropping repeated texts leaves a ranked list ranked.
pub proof fn lemma_dedup_keeps_ranked(s: Seq<CandidateView>)
    requires
        is_ranked(s),
    ensures
        is_ranked(dedup_texts(s)),
    decreases s.len(),
{
    if s.len() > 0 {
        let rest = s.drop_last();
        let d = dedup_texts(rest);
        assert forall|i: int, j: int| 0 <= i < j < rest.len() implies rest[i].score
            >= rest[j].score by {
            assert(rest[i] == s[i] && rest[j] == s[j]);
        }
        lemma_dedup_keeps_ranked(rest);
        let r = dedup_texts(s);
        assert forall|i: int, j: int| 0 <= i < j < r.len() implies r[i].score >= r[j].score by {
            if j < d.len() {
                assert(r[i] == d[i] && r[j] == d[j]);
            } else {
                assert(r[i] == d[i]);
                lemma_dedup_keeps_given(rest, i);
                let k = choose|k: int| 0 <= k < rest.len() && rest[k] == d[i];
                assert(s[k].score >= s[s.len() - 1].score);
            }
        }
    }
}

/// The ranking is ranked, holds no text twice, and holds every text that
/// was given.
pub proof fn lemma_ranking(s: Seq<CandidateView>, text: Seq<char>)
    ensures
        is_ranked(ranked_spec(s)),
        forall|i: int, j: int|
            0 <= i < j < ranked_spec(s).len() ==> (#[trigger] ranked_spec(s)[i]).text != (
            #[trigger] ranked_spec(s)[j]).text,
        has_text(ranked_spec(s), text) == has_text(s, text),
{
    let sorted = sort_ranked(s);
    lemma_sort_is_ranked(s);
    lemma_dedup_keeps_ranked(sorted);
    lemma_dedup_distinct(sorted);
    lemma_dedup_has_text(sorted, text);
    lemma_sort_has_text(s, text);
}

/// Sorting drops no text and adds none.
pub proof fn lemma_sort_has_text(s: Seq<CandidateView>, text: Seq<char>)
    ensures
        has_text(sort_ranked(s), text) == has_text(s, text),
{
    broadcast use vstd::seq_lib::group_to_multiset_ensures;

    let sorted = sort_ranked(s);
    lemma_sort_is_ranked(s);
    if has_text(s, text) {
        let i = choose|i: int| 0 <= i < s.len() && (#[trigger] s[i]).text == text;
        vstd::seq_lib::to_multiset_contains(s, s[i]);
        vstd::seq_lib::to_multiset_contains(sorted, s[i]);
        assert(s.contains(s[i]));
        let k = choose|k: int| 0 <= k < sorted.len() && sorted[k] == s[i];
        assert(sorted[k].text == text);
    }
    if has_text(sorted, text) {
        let k = choose|k: int| 0 <= k < sorted.len() && (#[trigger] sorted[k]).text == text;
        vstd::seq_lib::to_multiset_contains(s, sorted[k]);
        vstd::seq_lib::to_multiset_contains(sorted, sorted[k]);
        assert(sorted.contains(sorted[k]));
        let i = choose|i: int| 0 <= i < s.len() && s[i] == sorted[k];
        assert(s[i].text == text);
    }
}

/// Putting a candidate into a ranked list leaves it ranked.
pub proof fn lemma_insert_keeps_ranked(s: Seq<CandidateView>, c: CandidateView)
    requires
        is_ranked(s),
    ensures
        is_ranked(insert_ranked(s, c)),
        insert_ranked(s, c).len() == s.len() + 1,
        insert_ranked(s, c).to_multiset() == s.to_multiset().insert(c),
        forall|i: int|
            0 <= i < insert_ranked(s, c).len() ==> (#[trigger] insert_ranked(s, c)[i]) == c
                || s.contains(insert_ranked(s, c)[i]),
    decreases s.len(),
{
    broadcast use vstd::seq_lib::group_to_multiset_ensures;

    let r = insert_ranked(s, c);
    if s.len() == 0 {
        assert(s =~= Seq::<CandidateView>::empty());
        assert(r =~= Seq::<CandidateView>::empty().push(c));
    } else if s.last().score >= c.score {
        assert forall|i: int, j: int| 0 <= i < j < r.len() implies r[i].score >= r[j].score by {
            if j == r.len() - 1 {
                if i < s.len() - 1 {
                    assert(s[i].score >= s[s.len() - 1].score);
                }
            }
        }
    } else {
        let rest = s.drop_last();
        assert forall|i: int, j: int| 0 <= i < j < rest.len() implies rest[i].score
            >= rest[j].score by {
            assert(rest[i] == s[i] && rest[j] == s[j]);
        }
        lemma_insert_keeps_ranked(rest, c);
        let inner = insert_ranked(rest, c);
        assert(s =~= rest.push(s.last()));
        assert(rest.push(s.last()).to_multiset() =~= rest.to_multiset().insert(s.last()));
        assert(r.to_multiset() =~= s.to_multiset().insert(c));
        assert forall|i: int, j: int| 0 <= i < j < r.len() implies r[i].score >= r[j].score by {
            if j == r.len() - 1 {
                assert(r[i] == inner[i]);
                if rest.len() > 0 {
                    assert(rest.last() == s[s.len() - 2]);
                    assert(s[s.len() - 2].score >= s[s.len() - 1].score);
                }
            } else {
                assert(r[i] == inner[i] && r[j] == inner[j]);
            }
        }
    }
}

/// The sorted candidates are ranked, and they are the candidates that were
/// given, each as often as it was given.
pub proof fn lemma_sort_is_ranked(s: Seq<CandidateView>)
    ensures
        is_ranked(sort_ranked(s)),
        sort_ranked(s).len() == s.len(),
        sort_ranked(s).to_multiset() == s.to_multiset(),
    decreases s.len(),
{
    broadcast use vstd::seq_lib::group_to_multiset_ensures;

    if s.len() > 0 {
        lemma_sort_is_ranked(s.drop_last());
        lemma_insert_keeps_ranked(sort_ranked(s.drop_last()), s.last());
        assert(s =~= s.drop_last().push(s.last()));
    }
}

} // verus!
