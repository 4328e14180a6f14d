use vstd::prelude::*;

use crate::hosts::{
    entries_text, find_from, find_seq, hosts_block, hosts_content_spec, join_names, joined,
    marker_end, marker_start, markers_ordered, strip_block,
};
use crate::text::{contains, occurs_at};

verus! {

// ---------------------------------------------------------------------------
// Switching the hosts bypass on and off again
// ---------------------------------------------------------------------------

/// Text without `#` and without line breaks.
pub open spec fn plain_text(s: Seq<char>) -> bool {
    forall|k: int| 0 <= k < s.len() ==> s[k] != '#' && s[k] != '\n'
}

/// Text without `#`.
pub open spec fn no_hash(s: Seq<char>) -> bool {
    forall|k: int| 0 <= k < s.len() ==> s[k] != '#'
}

/// The comment line that opens the block, with the line break before it.
pub open spec fn providers_header(ps: Seq<Seq<char>>) -> Seq<char> {
    "\n# FREENET hosts providers: "@ + joined(ps) + "\n"@
}

/// The first occurrence of `p` at or after `i` is at `j`.
proof fn lemma_find_first(s: Seq<char>, p: Seq<char>, i: int, j: int)
    requires
        0 <= i <= j,
        occurs_at(s, p, j),
        forall|k: int| i <= k < j ==> !occurs_at(s, p, k),
    ensures
        find_from(s, p, i) == j,
    decreases j - i,
{
    if i < j {
        assert(!occurs_at(s, p, i));
        lemma_find_first(s, p, i + 1, j);
    }
}

/// No occurrence of `p` at or after `i`.
proof fn lemma_find_none(s: Seq<char>, p: Seq<char>, i: int)
    requires
        0 <= i,
        forall|k: int| i <= k ==> !occurs_at(s, p, k),
    ensures
        find_from(s, p, i) == -1,
    decreases s.len() + 1 - i,
{
    if !(i + p.len() > s.len()) {
        lemma_find_none(s, p, i + 1);
    }
}

proof fn lemma_joined_plain(ps: Seq<Seq<char>>, n: nat)
    requires
        forall|i: int| 0 <= i < ps.len() ==> plain_text(#[trigger] ps[i]),
    ensures
        plain_text(join_names(ps, n)),
    decreases n,
{
    reveal_strlit(", ");
    if n >= 2 && n <= ps.len() {
        lemma_joined_plain(ps, (n - 1) as nat);
        let prev = join_names(ps, (n - 1) as nat);
        let cur = join_names(ps, n);
        assert(plain_text(ps[n - 1]));
        assert forall|k: int| 0 <= k < cur.len() implies cur[k] != '#' && cur[k] != '\n' by {
            if k < prev.len() {
                assert(cur[k] == prev[k]);
            } else if k < prev.len() + 2 {
                assert(cur[k] == ", "@[k - prev.len()]);
            } else {
                assert(cur[k] == ps[n - 1][k - prev.len() - 2]);
            }
        }
    } else if n == 1 && n <= ps.len() {
        assert(plain_text(ps[0]));
    }
}

proof fn lemma_entries_no_hash(es: Seq<Seq<char>>, n: nat)
    requires
        forall|i: int| 0 <= i < es.len() ==> no_hash(#[trigger] es[i]),
    ensures
        no_hash(entries_text(es, n)),
    decreases n,
{
    if n >= 1 && n <= es.len() {
        lemma_entries_no_hash(es, (n - 1) as nat);
        let prev = entries_text(es, (n - 1) as nat);
        let cur = entries_text(es, n);
        assert(no_hash(es[n - 1]));
        assert forall|k: int| 0 <= k < cur.len() implies cur[k] != '#' by {
            if k < prev.len() {
                assert(cur[k] == prev[k]);
            } else if k < prev.len() + es[n - 1].len() {
                assert(cur[k] == es[n - 1][k - prev.len()]);
            } else {
                assert(cur[k] == '\n');
            }
        }
    }
}

/// Facts about the two markers and the header's fixed text.
proof fn lemma_marker_chars()
    ensures
        marker_start().len() == 36,
        marker_end().len() == 34,
        marker_start()[0] == '#',
        marker_end()[0] == '#',
        marker_start()[2] == '=',
        marker_end()[2] == '=',
        marker_start()[27] != marker_end()[27],
        forall|j: int| 0 <= j < 36 ==> marker_start()[j] != '\n',
        forall|j: int| 0 <= j < 34 ==> marker_end()[j] != '\n',
        forall|j: int| 0 < j < 36 ==> marker_start()[j] != '#',
        forall|j: int| 0 < j < 34 ==> marker_end()[j] != '#',
        forall|j: int| 0 <= j < 34 ==> marker_start()[j] == marker_end()[j] || j == 27 || j
            >= 28,
{
    reveal_strlit("# === FREENET BLOCK BYPASS START ===");
    reveal_strlit("# === FREENET BLOCK BYPASS END ===");
}

proof fn lemma_header_chars(ps: Seq<Seq<char>>)
    requires
        plain_text(joined(ps)),
    ensures
        providers_header(ps).len() == 29 + joined(ps).len(),
        providers_header(ps)[0] == '\n',
        providers_header(ps)[1] == '#',
        providers_header(ps)[3] == 'F',
        providers_header(ps)[providers_header(ps).len() - 1] == '\n',
        forall|t: int| 0 <= t < providers_header(ps).len() && t != 1 ==> providers_header(ps)[t] != '#',
{
    reveal_strlit("\n# FREENET hosts providers: ");
    reveal_strlit("\n");
    let h = providers_header(ps);
    let j = joined(ps);
    assert("\n# FREENET hosts providers: "@.len() == 28);
    assert forall|t: int| 0 <= t < h.len() && t != 1 implies h[t] != '#' by {
        if t < 28 {
            assert(h[t] == "\n# FREENET hosts providers: "@[t]);
        } else if t < 28 + j.len() {
            assert(h[t] == j[t - 28]);
        } else {
            assert(h[t] == '\n');
        }
    }
}

/// A marker `p` (starting with "# =" and holding no line break) does not
/// occur in `s` before position `a + h.len()`, where `s` starts with `c`
/// (free of `p`) followed by the header `h`.
proof fn lemma_not_before_block(s: Seq<char>, c: Seq<char>, h: Seq<char>, p: Seq<char>, k: int)
    requires
        0 <= k < c.len() + h.len(),
        s.len() >= c.len() + h.len(),
        s.take(c.len() as int) == c,
        forall|t: int| 0 <= t < h.len() ==> s[c.len() + t] == #[trigger] h[t],
        !contains(c, p),
        p.len() >= 3,
        p[0] == '#',
        p[2] == '=',
        forall|j: int| 0 <= j < p.len() ==> p[j] != '\n',
        h.len() >= 4,
        h[0] == '\n',
        h[1] == '#',
        h[3] == 'F',
        forall|t: int| 0 <= t < h.len() && t != 1 ==> h[t] != '#',
    ensures
        !occurs_at(s, p, k),
{
    let a = c.len() as int;
    if occurs_at(s, p, k) {
        let w = s.subrange(k, k + p.len());
        assert(w == p);
        if k + p.len() <= a {
            assert(c.subrange(k, k + p.len()) =~= w) by {
                assert forall|t: int| 0 <= t < p.len() implies c.subrange(k, k + p.len())[t] == w[t] by {
                    assert(s.take(a)[k + t] == s[k + t]);
                }
            }
            assert(occurs_at(c, p, k));
        } else if k < a {
            assert(w[a - k] == s[a]);
            assert(s[a] == h[0]);
        } else {
            assert(w[0] == s[k]);
            assert(s[k] == h[k - a]);
            if k - a == 1 {
                assert(w[2] == s[k + 2]);
                assert(s[a + 3] == h[3]);
            }
        }
    }
}

/// The layout of the hosts file right after the bypass was switched on.
proof fn lemma_enabled_layout(c: Seq<char>, ps: Seq<Seq<char>>, es: Seq<Seq<char>>)
    requires
        plain_text(joined(ps)),
        no_hash(entries_text(es, es.len())),
        !contains(c, marker_start()),
        !contains(c, marker_end()),
    ensures
        ({
            let s = c + hosts_block(ps, es);
            let a = c.len() as int;
            let h = providers_header(ps).len() as int;
            let t = entries_text(es, es.len()).len() as int;
            &&& find_seq(s, marker_start()) == a + h
            &&& find_seq(s, marker_end()) == a + h + 37 + t
            &&& s.take(a + h) == c + providers_header(ps)
            &&& s.skip(a + h + 37 + t + 34) == "\n"@
        }),
{
    reveal_strlit("\n");
    lemma_marker_chars();
    lemma_header_chars(ps);
    let m = marker_start();
    let e = marker_end();
    let hd = providers_header(ps);
    let et = entries_text(es, es.len());
    let b = hosts_block(ps, es);
    let r = m + "\n"@ + et + e + "\n"@;
    assert(b =~= hd + r);
    let s = c + b;
    let a = c.len() as int;
    let h = hd.len() as int;
    let t = et.len() as int;
    assert(s.len() == a + h + 36 + 1 + t + 34 + 1);
    assert(s.take(a) =~= c);
    assert forall|i: int| 0 <= i < h implies s[a + i] == #[trigger] hd[i] by {
        assert(s[a + i] == b[i]);
    }
    assert forall|i: int| 0 <= i < 36 implies s[a + h + i] == #[trigger] m[i] by {
        assert(s[a + h + i] == b[h + i]);
        assert(b[h + i] == r[i]);
    }
    assert(s[a + h + 36] == '\n') by {
        assert(s[a + h + 36] == r[36]);
    }
    assert forall|i: int| 0 <= i < t implies s[a + h + 37 + i] == #[trigger] et[i] by {
        assert(s[a + h + 37 + i] == r[37 + i]);
    }
    assert forall|i: int| 0 <= i < 34 implies s[a + h + 37 + t + i] == #[trigger] e[i] by {
        assert(s[a + h + 37 + t + i] == r[37 + t + i]);
    }
    assert(s[a + h + 37 + t + 34] == '\n') by {
        assert(s[a + h + 37 + t + 34] == r[37 + t + 34]);
    }
    // The start marker.
    assert(occurs_at(s, m, a + h)) by {
        assert(s.subrange(a + h, a + h + 36) =~= m);
    }
    assert forall|k: int| 0 <= k < a + h implies !occurs_at(s, m, k) by {
        lemma_not_before_block(s, c, hd, m, k);
    }
    lemma_find_first(s, m, 0, a + h);
    // The end marker.
    let e0 = a + h + 37 + t;
    assert(occurs_at(s, e, e0)) by {
        assert(s.subrange(e0, e0 + 34) =~= e);
    }
    assert forall|k: int| 0 <= k < e0 implies !occurs_at(s, e, k) by {
        if k < a + h {
            lemma_not_before_block(s, c, hd, e, k);
        } else if occurs_at(s, e, k) {
            let w = s.subrange(k, k + 34);
            assert(w == e);
            assert(w[0] == s[k]);
            if k == a + h {
                assert(w[27] == s[a + h + 27]);
            } else if k < a + h + 36 {
                assert(s[k] == m[k - a - h]);
            } else if k == a + h + 36 {
            } else {
                assert(s[k] == et[k - a - h - 37]);
            }
        }
    }
    lemma_find_first(s, e, 0, e0);
    assert(s.take(a + h) =~= c + hd) by {
        assert forall|i: int| 0 <= i < a + h implies s.take(a + h)[i] == (c + hd)[i] by {
            if i < a {
                assert(s.take(a)[i] == s[i]);
            } else {
                assert(s[a + (i - a)] == hd[i - a]);
            }
        }
    }
    assert(s.skip(e0 + 34) =~= "\n"@);
}

/// Switching the bypass on and then off again, on a hosts file that holds
/// neither marker, with provider names free of `#` and line breaks and
/// entries free of `#`: the block is appended and then cut out again, and
/// what remains is the file followed by the providers comment line and an
/// empty line, without the start marker.
pub proof fn law_hosts_disable_after_enable(c: Seq<char>, ps: Seq<Seq<char>>, es: Seq<Seq<char>>)
    requires
        !contains(c, marker_start()),
        !contains(c, marker_end()),
        ps.len() > 0,
        forall|i: int| 0 <= i < ps.len() ==> plain_text(#[trigger] ps[i]),
        forall|i: int| 0 <= i < es.len() ==> no_hash(#[trigger] es[i]),
    ensures
        hosts_content_spec(c, true, ps, es) == Ok::<Seq<char>, Seq<char>>(c + hosts_block(ps, es)),
        markers_ordered(c + hosts_block(ps, es)),
        hosts_content_spec(c + hosts_block(ps, es), false, ps, es) == Ok::<Seq<char>, Seq<char>>(
            c + providers_header(ps) + "\n"@,
        ),
        !contains(c + providers_header(ps) + "\n"@, marker_start()),
{
    lemma_joined_plain(ps, ps.len());
    lemma_entries_no_hash(es, es.len());
    lemma_marker_chars();
    lemma_header_chars(ps);
    lemma_find_none(c, marker_start(), 0);
    assert(strip_block(c) == c);
    lemma_enabled_layout(c, ps, es);
    let s = c + hosts_block(ps, es);
    let hd = providers_header(ps);
    let a = c.len() as int;
    let h = hd.len() as int;
    let t = entries_text(es, es.len()).len() as int;
    assert(strip_block(s) =~= c + hd + "\n"@);
    // Nothing of the start marker is left.
    reveal_strlit("\n");
    let out = c + hd + "\n"@;
    assert(out.take(a) =~= c);
    assert forall|i: int| 0 <= i < h implies out[a + i] == #[trigger] hd[i] by {}
    assert forall|k: int| 0 <= k implies !occurs_at(out, marker_start(), k) by {
        if k < a + h {
            lemma_not_before_block(out, c, hd, marker_start(), k);
        } else if occurs_at(out, marker_start(), k) {
            assert(k + 36 <= out.len());
        }
    }
}

/// In the block, after its start marker, nothing else starts the marker:
/// only the marker itself and the end marker hold `#`, and the end marker
/// with its line break is too short to hold the start marker.
proof fn lemma_single_start(s: Seq<char>, base: int, r: Seq<char>, t: int, k: int)
    requires
        0 <= base,
        0 <= t,
        s.len() == base + r.len(),
        forall|i: int| 0 <= i < r.len() ==> s[base + i] == #[trigger] r[i],
        r.len() == 36 + 1 + t + 34 + 1,
        forall|i: int| 0 < i < 36 ==> r[i] != '#',
        r[36] == '\n',
        forall|i: int| 37 <= i < 37 + t ==> r[i] != '#',
        forall|i: int| 37 + t < i < r.len() ==> r[i] != '#',
        marker_start().len() == 36,
        marker_start()[0] == '#',
        base < k,
    ensures
        !occurs_at(s, marker_start(), k),
{
    if occurs_at(s, marker_start(), k) {
        let w = s.subrange(k, k + 36);
        assert(w[0] == s[k]);
        assert(s[k] == r[k - base]);
    }
}

/// Switching the bypass on a second time, under the same conditions as
/// above, replaces the block: the file ends up with exactly one start
/// marker, and only the providers comment line of the first block stays
/// behind.
pub proof fn law_hosts_enable_twice_single_block(c: Seq<char>, ps: Seq<Seq<char>>, es: Seq<Seq<char>>)
    requires
        !contains(c, marker_start()),
        !contains(c, marker_end()),
        ps.len() > 0,
        forall|i: int| 0 <= i < ps.len() ==> plain_text(#[trigger] ps[i]),
        forall|i: int| 0 <= i < es.len() ==> no_hash(#[trigger] es[i]),
    ensures
        ({
            let once = c + hosts_block(ps, es);
            let twice = c + providers_header(ps) + "\n"@ + hosts_block(ps, es);
            &&& hosts_content_spec(once, true, ps, es) == Ok::<Seq<char>, Seq<char>>(twice)
            &&& markers_ordered(twice)
            &&& contains(twice, marker_start())
            &&& forall|k: int| #[trigger] occurs_at(twice, marker_start(), k) ==> k == c.len()
                + 2 * providers_header(ps).len() + 1
        }),
{
    law_hosts_disable_after_enable(c, ps, es);
    let c2 = c + providers_header(ps) + "\n"@;
    reveal_strlit("\n");
    // The remaining text holds no end marker either.
    lemma_marker_chars();
    lemma_joined_plain(ps, ps.len());
    lemma_entries_no_hash(es, es.len());
    lemma_header_chars(ps);
    let hd = providers_header(ps);
    let a = c.len() as int;
    let h = hd.len() as int;
    assert(c2.take(a) =~= c);
    assert forall|i: int| 0 <= i < h implies c2[a + i] == #[trigger] hd[i] by {}
    assert forall|k: int| 0 <= k implies !occurs_at(c2, marker_end(), k) by {
        if k < a + h {
            lemma_not_before_block(c2, c, hd, marker_end(), k);
        } else if occurs_at(c2, marker_end(), k) {
            assert(k + 34 <= c2.len());
        }
    }
    law_hosts_disable_after_enable(c2, ps, es);
    lemma_enabled_layout(c2, ps, es);
    let twice = c2 + hosts_block(ps, es);
    let et = entries_text(es, es.len());
    let t = et.len() as int;
    let base = c2.len() + h;
    let r = marker_start() + "\n"@ + et + marker_end() + "\n"@;
    assert(hosts_block(ps, es) =~= hd + r);
    assert forall|i: int| 0 <= i < r.len() implies twice[base + i] == #[trigger] r[i] by {
        assert(twice[base + i] == hosts_block(ps, es)[h + i]);
    }
    assert forall|i: int| 37 <= i < 37 + t implies r[i] != '#' by {
        assert(r[i] == et[i - 37]);
    }
    assert forall|i: int| 37 + t < i < r.len() implies r[i] != '#' by {
        if i < 37 + t + 34 {
            assert(r[i] == marker_end()[i - 37 - t]);
        }
    }
    assert forall|i: int| 0 < i < 36 implies r[i] != '#' by {
        assert(r[i] == marker_start()[i]);
    }
    assert forall|k: int| #[trigger] occurs_at(twice, marker_start(), k) implies k == base by {
        if k > base {
            lemma_single_start(twice, base, r, t, k);
        } else if k < base {
            lemma_first_is_least(twice, marker_start(), 0, k);
        }
    }
    assert(occurs_at(twice, marker_start(), base)) by {
        assert(twice.subrange(base, base + 36) =~= marker_start()) by {
            assert forall|i: int| 0 <= i < 36 implies twice.subrange(base, base + 36)[i] == marker_start()[i] by {
                assert(twice[base + i] == r[i]);
            }
        }
    }
}

/// No occurrence before the first one found from `i`.
proof fn lemma_first_is_least(s: Seq<char>, p: Seq<char>, i: int, k: int)
    requires
        0 <= i <= k,
        find_from(s, p, i) >= 0,
        occurs_at(s, p, k),
    ensures
        find_from(s, p, i) <= k,
    decreases k - i,
{
    if i < k && !occurs_at(s, p, i) && !(i + p.len() > s.len()) {
        lemma_first_is_least(s, p, i + 1, k);
    }
}

} // verus!
