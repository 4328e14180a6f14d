use vstd::prelude::*;

use crate::text::{chars_of, same, string_of, strs_of, trim, trim_chars};

verus! {

/// How many texts the clipboard history keeps.
pub const CLIPBOARD_HISTORY_LIMIT: usize = 50;

/// Index of the first entry equal to `t`, or -1.
pub open spec fn position_of(h: Seq<Seq<char>>, t: Seq<char>, n: nat) -> int
    decreases n,
{
    if n == 0 || n > h.len() {
        -1
    } else if position_of(h, t, (n - 1) as nat) >= 0 {
        position_of(h, t, (n - 1) as nat)
    } else if h[n - 1] == t {
        n - 1
    } else {
        -1
    }
}

/// The history after copying the (already trimmed) text `t`: the text moves
/// to the front (taken out where it was), and only the 50 most recent
/// entries are kept. An empty text changes nothing.
pub open spec fn history_after(h: Seq<Seq<char>>, t: Seq<char>) -> Seq<Seq<char>> {
    if t.len() == 0 {
        h
    } else {
        let p = position_of(h, t, h.len());
        let rest = if p >= 0 {
            h.remove(p)
        } else {
            h
        };
        keep_recent(seq![t] + rest)
    }
}

/// The first 50 entries of a history.
pub open spec fn keep_recent(all: Seq<Seq<char>>) -> Seq<Seq<char>> {
    if all.len() > CLIPBOARD_HISTORY_LIMIT {
        all.take(CLIPBOARD_HISTORY_LIMIT as int)
    } else {
        all
    }
}

/// Whether an entry differs from `t`.
pub open spec fn other_than(t: Seq<char>) -> spec_fn(Seq<char>) -> bool {
    |x: Seq<char>| x != t
}

/// The history with every entry equal to `t` filtered out.
pub open spec fn without(h: Seq<Seq<char>>, t: Seq<char>) -> Seq<Seq<char>> {
    h.filter(other_than(t))
}

pub open spec fn no_duplicates(h: Seq<Seq<char>>) -> bool {
    forall|i: int, j: int| 0 <= i < j < h.len() ==> h[i] != h[j]
}

proof fn lemma_position(h: Seq<Seq<char>>, t: Seq<char>, n: nat)
    requires
        n <= h.len(),
    ensures
        position_of(h, t, n) >= 0 ==> position_of(h, t, n) < n && h[position_of(h, t, n)] == t
            && forall|k: int| 0 <= k < position_of(h, t, n) ==> h[k] != t,
        position_of(h, t, n) < 0 ==> forall|k: int| 0 <= k < n ==> h[k] != t,
    decreases n,
{
    if n > 0 {
        lemma_position(h, t, (n - 1) as nat);
    }
}

/// Adds a copied text to the clipboard history.
pub fn record_clipboard_text(history: &mut Vec<String>, text: &str)
    ensures
        strs_of(final(history)@) == history_after(strs_of(old(history)@), trim(text@)),
{
    let t = trim_chars(&chars_of(text));
    if t.len() == 0 {
        return;
    }
    let ghost h = strs_of(history@);
    let mut pos: Option<usize> = None;
    let mut i: usize = 0;
    while i < history.len()
        invariant
            i <= history.len(),
            h == strs_of(history@),
            match pos {
                Some(p) => position_of(h, t@, i as nat) == p as int && p < i,
                None => position_of(h, t@, i as nat) < 0,
            },
        decreases history.len() - i,
    {
        if pos.is_none() && same(&chars_of(history[i].as_str()), &t) {
            pos = Some(i);
        }
        assert(h[i as int] == history@[i as int]@);
        i += 1;
    }
    match pos {
        Some(p) => {
            let ghost before = history@;
            let old_entry = history.remove(p);
            history.insert(0, old_entry);
            assert(strs_of(history@) =~= seq![t@] + h.remove(p as int)) by {
                assert(old_entry@ == t@) by {
                    lemma_position(h, t@, h.len());
                }
            }
        },
        None => {
            history.insert(0, string_of(&t));
            assert(strs_of(history@) =~= seq![t@] + h);
        },
    }
    if history.len() > CLIPBOARD_HISTORY_LIMIT {
        let ghost all = strs_of(history@);
        history.truncate(CLIPBOARD_HISTORY_LIMIT);
        assert(strs_of(history@) =~= all.take(CLIPBOARD_HISTORY_LIMIT as int));
    }
}

/// After a text is copied it is the most recent entry, the history stays
/// within its limit, holds nothing but what it held and the text, and, when
/// it had no repeated entry, still has none.
pub proof fn law_clipboard_history(h: Seq<Seq<char>>, t: Seq<char>)
    requires
        t.len() > 0,
    ensures
        history_after(h, t)[0] == t,
        history_after(h, t).len() <= CLIPBOARD_HISTORY_LIMIT,
        forall|i: int|
            0 <= i < history_after(h, t).len() ==> (#[trigger] history_after(h, t)[i] == t || h.contains(
                history_after(h, t)[i],
            )),
        no_duplicates(h) ==> no_duplicates(history_after(h, t)),
{
    lemma_position(h, t, h.len());
    let p = position_of(h, t, h.len());
    let rest = if p >= 0 {
        h.remove(p)
    } else {
        h
    };
    let all = seq![t] + rest;
    let r = history_after(h, t);
    assert forall|i: int| 0 <= i < r.len() implies (#[trigger] r[i] == t || h.contains(r[i])) by {
        assert(r[i] == all[i]);
        if i > 0 {
            if p >= 0 {
                if i - 1 < p {
                    assert(rest[i - 1] == h[i - 1]);
                } else {
                    assert(rest[i - 1] == h[i]);
                }
            } else {
                assert(rest[i - 1] == h[i - 1]);
            }
        }
    }
    if no_duplicates(h) {
        assert forall|i: int, j: int| 0 <= i < j < r.len() implies r[i] != r[j] by {
            assert(r[i] == all[i] && r[j] == all[j]);
            let hj = if p >= 0 && j - 1 >= p {
                j
            } else {
                j - 1
            };
            assert(all[j] == h[hj]);
            if i == 0 {
                if p >= 0 {
                    assert(hj != p);
                    assert(h[p] == t);
                } else {
                    assert(h[hj] != t);
                }
            } else {
                let hi = if p >= 0 && i - 1 >= p {
                    i
                } else {
                    i - 1
                };
                assert(all[i] == h[hi]);
                assert(hi < hj);
            }
        }
    }
}

/// Copying the text that is already the most recent entry again changes
/// nothing.
pub proof fn law_clipboard_copy_again(h: Seq<Seq<char>>, t: Seq<char>)
    requires
        t.len() > 0,
    ensures
        history_after(history_after(h, t), t) == history_after(h, t),
{
    law_clipboard_history(h, t);
    let h2 = history_after(h, t);
    lemma_position(h2, t, h2.len());
    let p = position_of(h2, t, h2.len());
    assert(p == 0) by {
        if p < 0 {
            assert(h2[0] != t);
        } else if p > 0 {
            assert(h2[0] != t);
        }
    }
    assert(seq![t] + h2.remove(0) =~= h2);
}

proof fn lemma_without_keeps(s: Seq<Seq<char>>, t: Seq<char>)
    requires
        forall|k: int| 0 <= k < s.len() ==> s[k] != t,
    ensures
        without(s, t) == s,
    decreases s.len(),
{
    reveal(Seq::filter);
    if s.len() > 0 {
        lemma_without_keeps(s.drop_last(), t);
        assert(s.drop_last().push(s.last()) =~= s);
    }
}

proof fn lemma_without_single(t: Seq<char>)
    ensures
        without(seq![t], t) == Seq::<Seq<char>>::empty(),
{
    reveal(Seq::filter);
    let one: Seq<Seq<char>> = seq![t];
    assert(one.drop_last() =~= Seq::<Seq<char>>::empty());
    assert(one.last() == t);
    assert(Seq::<Seq<char>>::empty().filter(other_than(t)) == Seq::<Seq<char>>::empty());
}

/// When the history has no repeated entry, copying a non-empty text `t`
/// gives `t` followed by the old history with `t` filtered out, cut to the
/// 50 most recent entries.
pub proof fn law_clipboard_move_to_front(h: Seq<Seq<char>>, t: Seq<char>)
    requires
        t.len() > 0,
        no_duplicates(h),
    ensures
        history_after(h, t) == keep_recent(seq![t] + without(h, t)),
{
    lemma_position(h, t, h.len());
    let p = position_of(h, t, h.len());
    if p < 0 {
        lemma_without_keeps(h, t);
    } else {
        let a = h.take(p);
        let b = h.skip(p + 1);
        let one: Seq<Seq<char>> = seq![t];
        assert(h =~= a + one + b);
        assert(h.remove(p) =~= a + b);
        Seq::filter_distributes_over_add(a + one, b, other_than(t));
        Seq::filter_distributes_over_add(a, one, other_than(t));
        Seq::filter_distributes_over_add(a, b, other_than(t));
        lemma_without_keeps(a, t);
        assert forall|k: int| 0 <= k < b.len() implies b[k] != t by {
            assert(b[k] == h[p + 1 + k]);
        }
        lemma_without_keeps(b, t);
        lemma_without_single(t);
        assert(without(h, t) == without(a, t) + without(b, t)) by {
            assert(without(a, t) + Seq::<Seq<char>>::empty() =~= without(a, t));
        }
    }
}

} // verus!
