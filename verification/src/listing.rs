//! Lists of labels: the distinct, non-empty, trimmed members of a collection, smallest
//! first, joined into one line.

use vstd::prelude::*;
use crate::order::{
    lemma_lex_irreflexive, lemma_lex_total, lemma_lex_transitive, less, lex_less, same,
};
use crate::text::{chars_of, trim, trimmed};

verus! {

/// The character sequences that `list` holds.
pub open spec fn rows(list: Seq<Vec<char>>) -> Seq<Seq<char>> {
    list.map_values(|row: Vec<char>| row@)
}

/// Whether each member of `list` comes strictly before the next ones.
pub open spec fn ascending(list: Seq<Seq<char>>) -> bool {
    forall|i: int, j: int|
        0 <= i < j < list.len() ==> lex_less(#[trigger] list[i], #[trigger] list[j])
}

/// `list` with `x` put in its place, unless `list` holds `x` already.
pub open spec fn inserted(list: Seq<Seq<char>>, x: Seq<char>) -> Seq<Seq<char>>
    decreases list.len(),
{
    if list.len() == 0 {
        seq![x]
    } else if lex_less(list.last(), x) {
        list.push(x)
    } else if list.last() == x {
        list
    } else {
        inserted(list.drop_last(), x).push(list.last())
    }
}

/// The trimmed members of `items` that are not empty, each once, smallest first.
pub open spec fn listed(items: Seq<Seq<char>>) -> Seq<Seq<char>>
    decreases items.len(),
{
    if items.len() == 0 {
        Seq::empty()
    } else {
        let before = listed(items.drop_last());
        let label = trimmed(items.last());
        if label.len() == 0 {
            before
        } else {
            inserted(before, label)
        }
    }
}

/// The members of `parts` in order, with `sep` between neighbours.
pub open spec fn joined(parts: Seq<Seq<char>>, sep: Seq<char>) -> Seq<char>
    decreases parts.len(),
{
    if parts.len() == 0 {
        Seq::empty()
    } else if parts.len() == 1 {
        parts[0]
    } else {
        joined(parts.drop_last(), sep) + sep + parts.last()
    }
}

/// Putting a label into an ascending list keeps it ascending and adds that label only.
pub proof fn lemma_inserted(list: Seq<Seq<char>>, x: Seq<char>)
    requires
        ascending(list),
    ensures
        ascending(inserted(list, x)),
        forall|y: Seq<char>|
            #![trigger inserted(list, x).contains(y)]
            #![trigger list.contains(y)]
            inserted(list, x).contains(y) <==> (list.contains(y) || y == x),
        inserted(list, x).contains(x),
    decreases list.len(),
{
    let out = inserted(list, x);
    if list.len() == 0 {
        assert(out[0] == x);
    } else if lex_less(list.last(), x) {
        assert forall|i: int, j: int| 0 <= i < j < out.len() implies lex_less(
            #[trigger] out[i],
            #[trigger] out[j],
        ) by {
            if j == list.len() {
                if i < list.len() - 1 {
                    assert(lex_less(list[i], list[list.len() - 1]));
                    lemma_lex_transitive(list[i], list.last(), x);
                }
            } else {
                assert(lex_less(list[i], list[j]));
            }
        }
        assert forall|y: Seq<char>| out.contains(y) <==> (list.contains(y) || y == x) by {
            if list.contains(y) {
                let k = choose|k: int| 0 <= k < list.len() && list[k] == y;
                assert(out[k] == y);
            }
            if y == x {
                assert(out[list.len() as int] == y);
            }
        }
    } else if list.last() == x {
        assert(list[list.len() - 1] == x);
    } else {
        let front = list.drop_last();
        let last = list.last();
        assert forall|i: int, j: int| 0 <= i < j < front.len() implies lex_less(
            #[trigger] front[i],
            #[trigger] front[j],
        ) by {
            assert(lex_less(list[i], list[j]));
        }
        lemma_inserted(front, x);
        let mid = inserted(front, x);
        lemma_lex_total(last, x);
        assert(lex_less(x, last));
        assert forall|i: int, j: int| 0 <= i < j < out.len() implies lex_less(
            #[trigger] out[i],
            #[trigger] out[j],
        ) by {
            if j == mid.len() {
                let y = mid[i];
                assert(mid.contains(y));
                assert(front.contains(y) || y == x);
                if y != x {
                    let k = choose|k: int| 0 <= k < front.len() && front[k] == y;
                    assert(lex_less(list[k], list[list.len() - 1]));
                }
            } else {
                assert(lex_less(mid[i], mid[j]));
            }
        }
        assert forall|y: Seq<char>| out.contains(y) <==> (list.contains(y) || y == x) by {
            if out.contains(y) {
                let k = choose|k: int| 0 <= k < out.len() && out[k] == y;
                if k < mid.len() {
                    assert(mid.contains(mid[k]));
                    if y != x {
                        let m = choose|m: int| 0 <= m < front.len() && front[m] == y;
                        assert(list[m] == y);
                    }
                } else {
                    assert(list[list.len() - 1] == y);
                }
            }
            if list.contains(y) {
                let k = choose|k: int| 0 <= k < list.len() && list[k] == y;
                if k < front.len() {
                    assert(front[k] == y);
                    assert(front.contains(y));
                    let m = choose|m: int| 0 <= m < mid.len() && mid[m] == y;
                    assert(out[m] == y);
                } else {
                    assert(out[mid.len() as int] == y);
                }
            }
            if y == x {
                assert(mid.contains(x));
                let m = choose|m: int| 0 <= m < mid.len() && mid[m] == x;
                assert(out[m] == x);
            }
        }
    }
}

/// What `listed` yields: ascending, therefore without repeats, and holding exactly the
/// trimmed members of `items` that are not empty.
pub proof fn lemma_listed(items: Seq<Seq<char>>)
    ensures
        ascending(listed(items)),
        forall|y: Seq<char>|
            listed(items).contains(y) <==> (y.len() > 0 && exists|i: int|
                0 <= i < items.len() && #[trigger] trimmed(items[i]) == y),
    decreases items.len(),
{
    let out = listed(items);
    if items.len() > 0 {
        let front = items.drop_last();
        let before = listed(front);
        let label = trimmed(items.last());
        lemma_listed(front);
        if label.len() > 0 {
            lemma_inserted(before, label);
        }
        assert forall|y: Seq<char>|
            out.contains(y) <==> (y.len() > 0 && exists|i: int|
                0 <= i < items.len() && #[trigger] trimmed(items[i]) == y) by {
            if label.len() > 0 {
                assert(out.contains(y) <==> (before.contains(y) || y == label));
            }
            if out.contains(y) {
                if before.contains(y) {
                    let i = choose|i: int|
                        0 <= i < front.len() && #[trigger] trimmed(front[i]) == y;
                    assert(trimmed(items[i]) == y);
                } else {
                    assert(y == label);
                    assert(trimmed(items[items.len() - 1]) == y);
                }
            }
            if y.len() > 0 && exists|i: int|
                0 <= i < items.len() && #[trigger] trimmed(items[i]) == y {
                let i = choose|i: int| 0 <= i < items.len() && #[trigger] trimmed(items[i]) == y;
                if i < front.len() {
                    assert(trimmed(front[i]) == y);
                    assert(before.contains(y));
                } else {
                    assert(y == label);
                }
            }
        }
    }
}

/// In an ascending list nothing occurs twice.
pub proof fn lemma_ascending_distinct(list: Seq<Seq<char>>)
    requires
        ascending(list),
    ensures
        forall|i: int, j: int| 0 <= i < j < list.len() ==> list[i] != list[j],
{
    assert forall|i: int, j: int| 0 <= i < j < list.len() implies list[i] != list[j] by {
        assert(lex_less(list[i], list[j]));
        lemma_lex_irreflexive(list[i]);
    }
}

/// Where `label` goes in `list`: `None` when `list` holds it already.
fn slot(list: &Vec<Vec<char>>, label: &Vec<char>) -> (at: Option<usize>)
    ensures
        match at {
            Some(k) => k <= list.len() && inserted(rows(list@), label@) == rows(list@).insert(
                k as int,
                label@,
            ),
            None => inserted(rows(list@), label@) == rows(list@),
        },
{
    let ghost all = rows(list@);
    let mut i: usize = list.len();
    assert(all.take(i as int) == all);
    assert(all.skip(i as int) =~= Seq::<Seq<char>>::empty());
    while i > 0
        invariant
            i <= list.len(),
            all == rows(list@),
            inserted(all, label@) == inserted(all.take(i as int), label@) + all.skip(i as int),
        decreases i,
    {
        let ghost head = all.take(i as int);
        assert(head.last() == list@[i - 1]@);
        if less(&list[i - 1], label) {
            assert(head.push(label@) + all.skip(i as int) =~= all.insert(i as int, label@));
            return Some(i);
        }
        if same(&list[i - 1], label) {
            assert(head + all.skip(i as int) =~= all);
            return None;
        }
        assert(head.drop_last() == all.take(i - 1));
        assert(inserted(all.take(i - 1), label@).push(head.last()) + all.skip(i as int)
            =~= inserted(all.take(i - 1), label@) + all.skip(i - 1));
        i = i - 1;
    }
    assert(seq![label@] + all.skip(0) =~= all.insert(0, label@));
    Some(0)
}

/// Puts the trimmed `raw` in its place in `list`, unless it is empty or there already.
pub fn insert_label(list: &mut Vec<Vec<char>>, raw: &str)
    ensures
        rows(final(list)@) == if trimmed(raw@).len() == 0 {
            rows(old(list)@)
        } else {
            inserted(rows(old(list)@), trimmed(raw@))
        },
{
    let kept = trim(raw);
    let label = chars_of(kept.as_str());
    if label.len() == 0 {
        return ;
    }
    match slot(list, &label) {
        Some(k) => {
            list.insert(k, label);
            assert(rows(list@) =~= rows(old(list)@).insert(k as int, label@));
        },
        None => {},
    }
}

/// Appends the characters of `chars` to `out`.
pub fn push_chars(out: &mut String, chars: &Vec<char>)
    ensures
        final(out)@ == old(out)@ + chars@,
{
    let mut i: usize = 0;
    assert(out@ =~= old(out)@ + chars@.take(0));
    while i < chars.len()
        invariant
            i <= chars.len(),
            out@ == old(out)@ + chars@.take(i as int),
        decreases chars.len() - i,
    {
        out.push(chars[i]);
        assert(chars@.take(i + 1) =~= chars@.take(i as int).push(chars@[i as int]));
        i = i + 1;
    }
    assert(chars@.take(chars.len() as int) == chars@);
}

/// The members of `parts` in order, with `sep` between neighbours.
pub fn join(parts: &Vec<Vec<char>>, sep: &str) -> (line: String)
    ensures
        line@ == joined(rows(parts@), sep@),
{
    let mut line = String::new();
    let mut i: usize = 0;
    let ghost all = rows(parts@);
    while i < parts.len()
        invariant
            i <= parts.len(),
            all == rows(parts@),
            line@ == joined(all.take(i as int), sep@),
        decreases parts.len() - i,
    {
        if i > 0 {
            line.append(sep);
        }
        push_chars(&mut line, &parts[i]);
        proof {
            let head = all.take(i + 1);
            assert(head.drop_last() == all.take(i as int));
            assert(head.last() == parts@[i as int]@);
            if i == 0 {
                assert(line@ =~= head[0]);
            }
        }
        i = i + 1;
    }
    assert(all.take(parts.len() as int) == all);
    line
}

} // verus!
