//! Scored entries: ordering them by score and cutting a page out of them.
use crate::sorted_set;
use vstd::prelude::*;

verus! {

/// Whether an entry scores `score`.
pub open spec fn scoring<T>(score: i64) -> spec_fn((i64, T)) -> bool {
    |entry: (i64, T)| entry.0 == score
}

/// The entries of `list` that score `score`, in their order.
pub open spec fn at_score<T>(list: Seq<(i64, T)>, score: i64) -> Seq<(i64, T)> {
    list.filter(scoring(score))
}

/// No entry scores more than one before it.
pub open spec fn descending<T>(list: Seq<(i64, T)>) -> bool {
    forall|i: int, j: int| 0 <= i <= j < list.len() ==> list[i].0 >= list[j].0
}

/// `out` is `list` in descending order of scores, entries of equal score in
/// the order they had.
pub open spec fn is_by_score<T>(list: Seq<(i64, T)>, out: Seq<(i64, T)>) -> bool {
    &&& descending(out)
    &&& forall|score: i64| #[trigger] at_score(out, score) == at_score(list, score)
}

/// `list` in descending order of scores, entries of equal score in the order they had.
pub open spec fn by_score<T>(list: Seq<(i64, T)>) -> Seq<(i64, T)> {
    choose|out: Seq<(i64, T)>| is_by_score(list, out)
}

proof fn lemma_at_score_add<T>(a: Seq<(i64, T)>, b: Seq<(i64, T)>, score: i64)
    ensures
        at_score(a + b, score) == at_score(a, score) + at_score(b, score),
{
    Seq::filter_distributes_over_add(a, b, scoring(score));
}

proof fn lemma_at_score_one<T>(entry: (i64, T), score: i64)
    ensures
        at_score(seq![entry], score) == (if entry.0 == score {
            seq![entry]
        } else {
            Seq::empty()
        }),
{
    let list = seq![entry];
    if entry.0 == score {
        sorted_set::lemma_filter_all(list, scoring(score));
    } else {
        sorted_set::lemma_filter_none(list, scoring(score));
    }
}

/// In descending order the entries of the highest score come first.
proof fn lemma_first_at_score<T>(out: Seq<(i64, T)>)
    requires
        out.len() > 0,
    ensures
        at_score(out, out[0].0).len() > 0,
        at_score(out, out[0].0)[0] == out[0],
        forall|score: i64| #[trigger]
            at_score(out.skip(1), score) == (if out[0].0 == score {
                at_score(out, score).skip(1)
            } else {
                at_score(out, score)
            }),
{
    let head = seq![out[0]];
    let rest = out.skip(1);
    assert(out =~= head + rest);
    lemma_at_score_add(head, rest, out[0].0);
    lemma_at_score_one(out[0], out[0].0);
    assert forall|score: i64| #[trigger]
        at_score(rest, score) == (if out[0].0 == score {
            at_score(out, score).skip(1)
        } else {
            at_score(out, score)
        }) by {
        lemma_at_score_add(head, rest, score);
        lemma_at_score_one(out[0], score);
        if out[0].0 == score {
            assert((head + at_score(rest, score)).skip(1) =~= at_score(rest, score));
        } else {
            assert(Seq::<(i64, T)>::empty() + at_score(rest, score) =~= at_score(rest, score));
        }
    }
}

/// An entry that a list holds at a score stands somewhere in the list.
proof fn lemma_at_score_from<T>(list: Seq<(i64, T)>, score: i64)
    requires
        at_score(list, score).len() > 0,
    ensures
        exists|i: int| 0 <= i < list.len() && (#[trigger] list[i]).0 == score,
{
    if !(exists|i: int| 0 <= i < list.len() && (#[trigger] list[i]).0 == score) {
        sorted_set::lemma_filter_none(list, scoring(score));
    }
}

/// There is one way to put a list in descending order that keeps entries of
/// equal score in their order.
pub proof fn lemma_by_score_is<T>(list: Seq<(i64, T)>, a: Seq<(i64, T)>, b: Seq<(i64, T)>)
    requires
        is_by_score(list, a),
        is_by_score(list, b),
    ensures
        a == b,
{
    assert forall|score: i64| #[trigger] at_score(a, score) == at_score(b, score) by {
        assert(at_score(a, score) == at_score(list, score));
    }
    lemma_same_by_score(a, b);
}

/// Every list can be put in descending order.
pub proof fn lemma_by_score<T>(list: Seq<(i64, T)>)
    ensures
        is_by_score(list, by_score(list)),
    decreases list.len(),
{
    if list.len() == 0 {
        assert(is_by_score(list, list));
    } else {
        let fewer = list.drop_last();
        let entry = list.last();
        lemma_by_score(fewer);
        let sorted = by_score(fewer);
        let at = lemma_place(sorted, entry.0);
        let high = sorted.take(at);
        let low = sorted.skip(at);
        let out = high + seq![entry] + low;
        assert(sorted =~= high + low);
        assert(list =~= fewer + seq![entry]);
        assert forall|score: i64| #[trigger] at_score(out, score) == at_score(list, score) by {
            lemma_at_score_add(fewer, seq![entry], score);
            lemma_at_score_add(high + seq![entry], low, score);
            lemma_at_score_add(high, seq![entry], score);
            lemma_at_score_add(high, low, score);
            lemma_at_score_one(entry, score);
            assert(at_score(sorted, score) == at_score(fewer, score));
            if score == entry.0 {
                if at_score(low, score).len() > 0 {
                    lemma_at_score_from(low, score);
                }
                assert(at_score(low, score) =~= Seq::empty());
            }
            assert(at_score(out, score) =~= at_score(list, score));
        }
        assert(is_by_score(list, out));
    }
}

/// The place behind all entries of a list in descending order that score at
/// least `score`.
proof fn lemma_place<T>(list: Seq<(i64, T)>, score: i64) -> (at: int)
    requires
        descending(list),
    ensures
        0 <= at <= list.len(),
        forall|i: int| 0 <= i < at ==> (#[trigger] list[i]).0 >= score,
        forall|i: int| at <= i < list.len() ==> (#[trigger] list[i]).0 < score,
    decreases list.len(),
{
    if list.len() == 0 || list.last().0 >= score {
        list.len() as int
    } else {
        let at = lemma_place(list.drop_last(), score);
        assert forall|i: int| 0 <= i < at implies (#[trigger] list[i]).0 >= score by {
            assert(list.drop_last()[i] == list[i]);
        }
        assert forall|i: int| at <= i < list.len() implies (#[trigger] list[i]).0 < score by {
            if i < list.len() - 1 {
                assert(list.drop_last()[i] == list[i]);
            }
        }
        at
    }
}

proof fn lemma_same_by_score<T>(a: Seq<(i64, T)>, b: Seq<(i64, T)>)
    requires
        descending(a),
        descending(b),
        forall|score: i64| #[trigger] at_score(a, score) == at_score(b, score),
    ensures
        a == b,
    decreases a.len(),
{
    if a.len() == 0 {
        if b.len() > 0 {
            lemma_first_at_score(b);
            assert(at_score(a, b[0].0) == at_score(b, b[0].0));
            lemma_at_score_from(a, b[0].0);
        }
        assert(a =~= b);
    } else {
        lemma_first_at_score(a);
        assert(at_score(a, a[0].0) == at_score(b, a[0].0));
        lemma_at_score_from(b, a[0].0);
        lemma_first_at_score(b);
        assert(at_score(a, b[0].0) == at_score(b, b[0].0));
        lemma_at_score_from(a, b[0].0);
        assert(a[0].0 == b[0].0);
        assert(a[0] == b[0]);
        let c = a.skip(1);
        let d = b.skip(1);
        assert forall|score: i64| #[trigger] at_score(c, score) == at_score(d, score) by {
            assert(at_score(a, score) == at_score(b, score));
        }
        lemma_same_by_score(c, d);
        assert(a =~= seq![a[0]] + c);
        assert(b =~= seq![b[0]] + d);
    }
}

/// Merges two lists in descending order; of equal scores, `left` comes first.
fn merge<T>(left: Vec<(i64, T)>, right: Vec<(i64, T)>) -> (out: Vec<(i64, T)>)
    requires
        descending(left@),
        descending(right@),
    ensures
        is_by_score(left@ + right@, out@),
{
    let ghost all = left@ + right@;
    let mut left = left;
    let mut right = right;
    let mut backwards: Vec<(i64, T)> = Vec::new();
    while left.len() > 0 || right.len() > 0
        invariant
            descending(left@),
            descending(right@),
            descending(backwards@.reverse()),
            forall|i: int, j: int|
                0 <= i < left@.len() && 0 <= j < backwards@.len() ==> left@[i].0
                    >= backwards@[j].0,
            forall|i: int, j: int|
                0 <= i < right@.len() && 0 <= j < backwards@.len() ==> right@[i].0
                    >= backwards@[j].0,
            forall|score: i64| #[trigger]
                at_score(all, score) == at_score(left@, score) + at_score(right@, score)
                    + at_score(backwards@.reverse(), score),
        decreases left@.len() + right@.len(),
    {
        let ghost l = left@;
        let ghost r = right@;
        let ghost done = backwards@.reverse();
        let from_right = if left.len() == 0 {
            true
        } else if right.len() == 0 {
            false
        } else {
            right[right.len() - 1].0 <= left[left.len() - 1].0
        };
        if from_right {
            match right.pop() {
                Some(entry) => {
                    backwards.push(entry);
                    proof {
                        assert(backwards@.reverse() =~= seq![entry] + done);
                        assert(r =~= right@ + seq![entry]);
                        assert forall|score: i64| #[trigger]
                            at_score(all, score) == at_score(left@, score) + at_score(
                                right@,
                                score,
                            ) + at_score(backwards@.reverse(), score) by {
                            lemma_at_score_add(right@, seq![entry], score);
                            lemma_at_score_add(seq![entry], done, score);
                            assert(at_score(all, score) == at_score(l, score) + at_score(r, score)
                                + at_score(done, score));
                            assert(at_score(l, score) + (at_score(right@, score) + at_score(
                                seq![entry],
                                score,
                            )) + at_score(done, score) =~= at_score(l, score) + at_score(
                                right@,
                                score,
                            ) + (at_score(seq![entry], score) + at_score(done, score)));
                        }
                    }
                },
                None => {},
            }
        } else {
            match left.pop() {
                Some(entry) => {
                    backwards.push(entry);
                    proof {
                        assert(backwards@.reverse() =~= seq![entry] + done);
                        assert(l =~= left@ + seq![entry]);
                        assert forall|score: i64| #[trigger]
                            at_score(all, score) == at_score(left@, score) + at_score(
                                right@,
                                score,
                            ) + at_score(backwards@.reverse(), score) by {
                            lemma_at_score_add(left@, seq![entry], score);
                            lemma_at_score_add(seq![entry], done, score);
                            lemma_at_score_one(entry, score);
                            assert(at_score(all, score) == at_score(l, score) + at_score(r, score)
                                + at_score(done, score));
                            if score == entry.0 {
                                assert(at_score(r, score) =~= Seq::empty()) by {
                                    if at_score(r, score).len() > 0 {
                                        lemma_at_score_from(r, score);
                                    }
                                }
                            }
                            assert((at_score(left@, score) + at_score(seq![entry], score))
                                + at_score(r, score) + at_score(done, score) =~= at_score(
                                left@,
                                score,
                            ) + at_score(r, score) + (at_score(seq![entry], score) + at_score(
                                done,
                                score,
                            )));
                        }
                    }
                },
                None => {},
            }
        }
    }
    let ghost done = backwards@.reverse();
    assert forall|score: i64| #[trigger] at_score(done, score) == at_score(all, score) by {
        assert(left@ =~= Seq::empty());
        assert(right@ =~= Seq::empty());
        assert(at_score(all, score) == at_score(left@, score) + at_score(right@, score) + at_score(
            done,
            score,
        ));
        if at_score(left@, score).len() > 0 {
            lemma_at_score_from(left@, score);
        }
        if at_score(right@, score).len() > 0 {
            lemma_at_score_from(right@, score);
        }
        assert(Seq::<(i64, T)>::empty() + Seq::empty() + at_score(done, score) =~= at_score(
            done,
            score,
        ));
        assert(at_score(left@, score) =~= Seq::empty());
        assert(at_score(right@, score) =~= Seq::empty());
    }
    let mut out: Vec<(i64, T)> = Vec::new();
    while backwards.len() > 0
        invariant
            out@ + backwards@.reverse() == done,
        decreases backwards@.len(),
    {
        let ghost before = backwards@.reverse();
        match backwards.pop() {
            Some(entry) => {
                assert(before =~= seq![entry] + backwards@.reverse());
                out.push(entry);
            },
            None => {},
        }
    }
    assert(out@ =~= done);
    out
}

/// Puts scored entries in descending order of their scores. Entries of equal
/// score keep their order.
pub fn sort_by_score<T>(entries: Vec<(i64, T)>) -> (out: Vec<(i64, T)>)
    ensures
        is_by_score(entries@, out@),
        out@ == by_score(entries@),
    decreases entries@.len(),
{
    let ghost list = entries@;
    if entries.len() <= 1 {
        proof {
            assert(is_by_score(list, entries@));
            lemma_by_score_is(list, by_score(list), entries@);
        }
        return entries;
    }
    let mut entries = entries;
    let middle: usize = entries.len() / 2;
    let back = entries.split_off(middle);
    let ghost a = entries@;
    let ghost b = back@;
    let left = sort_by_score(entries);
    let right = sort_by_score(back);
    let ghost both = left@ + right@;
    let out = merge(left, right);
    proof {
        assert(list =~= a + b);
        assert forall|score: i64| #[trigger] at_score(out@, score) == at_score(list, score) by {
            lemma_at_score_add(a, b, score);
            lemma_at_score_add(left@, right@, score);
            assert(at_score(left@, score) == at_score(a, score));
            assert(at_score(right@, score) == at_score(b, score));
            assert(at_score(out@, score) == at_score(both, score));
        }
        assert(is_by_score(list, out@));
        lemma_by_score_is(list, by_score(list), out@);
    }
    out
}

/// At most `limit` of `entries`, from the one behind the first `skip` on.
pub fn take_window<T>(entries: Vec<T>, skip: usize, limit: Option<usize>) -> (page: Vec<T>)
    ensures
        page@ == sorted_set::window(
            entries@,
            skip as nat,
            match limit {
                Some(most) => Some(most as nat),
                None => None,
            },
        ),
{
    let mut entries = entries;
    if skip >= entries.len() {
        let page: Vec<T> = Vec::new();
        return page;
    }
    let mut page = entries.split_off(skip);
    match limit {
        Some(most) => {
            if most < page.len() {
                page.truncate(most);
            }
        },
        None => {},
    }
    page
}

/// Entries with their texts taken as characters.
spec fn shown(list: Seq<(i64, String)>) -> Seq<(i64, Seq<char>)> {
    list.map_values(|entry: (i64, String)| (entry.0, entry.1@))
}

proof fn lemma_shown_at_score(list: Seq<(i64, String)>, score: i64)
    ensures
        at_score(shown(list), score) == shown(at_score(list, score)),
    decreases list.len(),
{
    if list.len() == 0 {
        if at_score(shown(list), score).len() > 0 {
            lemma_at_score_from(shown(list), score);
        }
        if at_score(list, score).len() > 0 {
            lemma_at_score_from(list, score);
        }
        assert(at_score(shown(list), score) =~= shown(at_score(list, score)));
    } else {
        let fewer = list.drop_last();
        let last = list.last();
        lemma_shown_at_score(fewer, score);
        assert(list =~= fewer + seq![last]);
        assert(shown(list) =~= shown(fewer) + seq![(last.0, last.1@)]);
        lemma_at_score_add(fewer, seq![last], score);
        lemma_at_score_add(shown(fewer), seq![(last.0, last.1@)], score);
        lemma_at_score_one(last, score);
        lemma_at_score_one((last.0, last.1@), score);
        assert(shown(at_score(list, score)) =~= at_score(shown(list), score));
    }
}

/// Puts scored texts in descending order of their scores. Texts of equal score
/// keep their order.
pub fn sort_texts_by_score(entries: Vec<(i64, String)>) -> (out: Vec<(i64, String)>)
    ensures
        is_by_score(entries.deep_view(), out.deep_view()),
        out.deep_view() == by_score(entries.deep_view()),
{
    let ghost list = entries@;
    let ghost texts = entries.deep_view();
    let out = sort_by_score(entries);
    proof {
        assert(texts =~= shown(list));
        assert(out.deep_view() =~= shown(out@));
        assert forall|score: i64| #[trigger]
            at_score(shown(out@), score) == at_score(shown(list), score) by {
            lemma_shown_at_score(list, score);
            lemma_shown_at_score(out@, score);
            assert(at_score(out@, score) == at_score(list, score));
        }
        assert(is_by_score(texts, out.deep_view()));
        lemma_by_score_is(texts, by_score(texts), out.deep_view());
    }
    out
}

/// A page cut out of a list holds the entries behind the skipped ones, each in
/// its order: as many as the limit allows and the list has left.
pub proof fn law_a_page_is_cut_out_of_its_list<T>(list: Seq<T>, skip: nat, limit: Option<nat>)
    ensures
        ({
            let page = sorted_set::window(list, skip, limit);
            &&& forall|i: int|
                0 <= i < page.len() ==> skip + i < list.len() && (#[trigger] page[i]) == list[skip
                    + i]
            &&& page.len() == (if skip >= list.len() {
                0
            } else {
                match limit {
                    Some(most) => if most < list.len() - skip {
                        most as int
                    } else {
                        list.len() - skip
                    },
                    None => list.len() - skip,
                }
            })
        }),
{
}

proof fn lemma_count_at_score<T>(list: Seq<(i64, T)>, entry: (i64, T))
    ensures
        list.to_multiset().count(entry) == at_score(list, entry.0).to_multiset().count(entry),
    decreases list.len(),
{
    broadcast use vstd::seq_lib::group_to_multiset_ensures;

    if list.len() > 0 {
        let fewer = list.drop_last();
        let last = list.last();
        lemma_count_at_score(fewer, entry);
        assert(list =~= fewer.push(last));
        assert(list =~= fewer + seq![last]);
        lemma_at_score_add(fewer, seq![last], entry.0);
        lemma_at_score_one(last, entry.0);
        if last.0 == entry.0 {
            assert(at_score(list, entry.0) =~= at_score(fewer, entry.0).push(last));
        } else {
            assert(at_score(list, entry.0) =~= at_score(fewer, entry.0));
        }
    } else {
        assert(at_score(list, entry.0) =~= list) by {
            sorted_set::lemma_filter_all(list, scoring(entry.0));
        }
    }
}

/// Ordering by score loses no entry and adds none, puts no entry behind one that
/// scores less, and leaves entries of equal score in the order they had.
pub proof fn law_ordering_by_score_keeps_every_entry<T>(list: Seq<(i64, T)>, score: i64)
    ensures
        ({
            let out = by_score(list);
            let alike = |entry: (i64, T)| entry.0 == score;
            &&& out.len() == list.len()
            &&& out.to_multiset() == list.to_multiset()
            &&& forall|i: int, j: int| 0 <= i < j < out.len() ==> out[j].0 <= out[i].0
            &&& out.filter(alike) == list.filter(alike)
        }),
{
    broadcast use vstd::seq_lib::group_to_multiset_ensures;

    lemma_by_score(list);
    let out = by_score(list);
    assert forall|entry: (i64, T)| #[trigger] out.to_multiset().count(entry)
        == list.to_multiset().count(entry) by {
        lemma_count_at_score(list, entry);
        lemma_count_at_score(out, entry);
        assert(at_score(out, entry.0) == at_score(list, entry.0));
    }
    assert(out.to_multiset() =~= list.to_multiset());
    assert(at_score(out, score) == at_score(list, score));
    let alike = |entry: (i64, T)| entry.0 == score;
    assert(scoring::<T>(score) =~= alike);
    assert(out.filter(alike) == list.filter(alike));
    assert(out.len() == out.to_multiset().len());
    assert(list.len() == list.to_multiset().len());
}

} // verus!
