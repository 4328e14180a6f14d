use vstd::prelude::*;

use crate::text::{
    chars_of, extend, is_whitespace, is_ws, lemma_strs_push, lemma_trim_ends, lines, lines_of,
    lines_state, lower_chars, lowercase_of, owned, same, seqs_of, string_of, strip_cr, strs_of,
    trim, trim_chars, trim_end, trim_start,
};

verus! {

// ---------------------------------------------------------------------------
// The zapret user list (list-general-user.txt): one domain per line,
// lines starting with `#` are comments.
// ---------------------------------------------------------------------------

pub open spec fn keep_line(t: Seq<char>) -> bool {
    t.len() > 0 && t[0] != '#'
}

pub open spec fn domains_upto(ls: Seq<Seq<char>>, n: nat) -> Seq<Seq<char>>
    decreases n,
{
    if n == 0 || n > ls.len() {
        seq![]
    } else {
        let prev = domains_upto(ls, (n - 1) as nat);
        let t = trim(ls[n - 1]);
        if keep_line(t) {
            prev.push(t)
        } else {
            prev
        }
    }
}

/// The domains of the user list: its lines trimmed, without blank lines and
/// comment lines.
pub open spec fn user_domains(content: Seq<char>) -> Seq<Seq<char>> {
    let ls = lines_of(content);
    domains_upto(ls, ls.len())
}

/// Reads the domains of the user list.
pub fn parse_user_domains(content: &str) -> (r: Vec<String>)
    ensures
        strs_of(r@) == user_domains(content@),
{
    let c = chars_of(content);
    let ls = lines(&c);
    let mut r: Vec<String> = Vec::new();
    for i in 0..ls.len()
        invariant
            seqs_of(ls@) == lines_of(content@),
            strs_of(r@) == domains_upto(seqs_of(ls@), i as nat),
    {
        let t = trim_chars(&ls[i]);
        assert(seqs_of(ls@)[i as int] == ls@[i as int]@);
        if t.len() > 0 && t[0] != '#' {
            let ghost r0 = r@;
            let s = string_of(&t);
            r.push(s);
            proof {
                lemma_strs_push(r0, s);
            }
        }
    }
    r
}

/// The header line written at the top of the user list.
pub open spec fn list_header() -> Seq<char> {
    "# Never leave this file empty"@
}

pub open spec fn render_upto(ds: Seq<Seq<char>>, n: nat) -> Seq<char>
    decreases n,
{
    if n == 0 || n > ds.len() {
        list_header() + seq!['\n']
    } else {
        render_upto(ds, (n - 1) as nat) + ds[n - 1] + seq!['\n']
    }
}

/// The user list file for the given domains: the header line, then one
/// domain per line.
pub open spec fn render_domains(ds: Seq<Seq<char>>) -> Seq<char> {
    render_upto(ds, ds.len())
}

/// Writes the user list file for the given domains.
pub fn render_user_domains(domains: &Vec<String>) -> (r: String)
    ensures
        r@ == render_domains(strs_of(domains@)),
{
    proof {
        reveal_strlit("# Never leave this file empty\n");
        reveal_strlit("# Never leave this file empty");
    }
    let mut out = chars_of("# Never leave this file empty\n");
    assert(out@ =~= list_header() + seq!['\n']);
    for i in 0..domains.len()
        invariant
            out@ == render_upto(strs_of(domains@), i as nat),
    {
        extend(&mut out, &chars_of(domains[i].as_str()));
        out.push('\n');
        assert(strs_of(domains@)[i as int] == domains@[i as int]@);
        assert(out@ =~= render_upto(strs_of(domains@), (i + 1) as nat));
    }
    string_of(&out)
}

/// A domain as entered: trimmed and lower-cased.
pub open spec fn normalize(d: Seq<char>) -> Seq<char> {
    lowercase_of(trim(d))
}

/// Why a domain cannot be added, if it cannot.
pub open spec fn domain_problem(d: Seq<char>) -> Option<Seq<char>> {
    if d.len() == 0 {
        Some("Domain cannot be empty"@)
    } else if exists|i: int| 0 <= i < d.len() && (is_ws(d[i]) || d[i] == '#') {
        Some("Invalid domain"@)
    } else {
        None
    }
}

/// The outcome of adding a domain.
#[derive(Debug)]
pub struct AddedDomains {
    /// The list after the addition.
    pub domains: Vec<String>,
    /// Whether the list changed (and the file must be written).
    pub changed: bool,
}

/// Adds a domain (normalized) to the list unless it is already there; the
/// domain must be non-empty and free of white space and `#`.
pub fn add_user_domain(domains: Vec<String>, domain: &str) -> (r: Result<AddedDomains, String>)
    ensures
        match r {
            Err(e) => domain_problem(normalize(domain@)) == Some(e@),
            Ok(a) => domain_problem(normalize(domain@)) is None && if strs_of(domains@).contains(
                normalize(domain@),
            ) {
                !a.changed && a.domains == domains
            } else {
                a.changed && strs_of(a.domains@) == strs_of(domains@).push(normalize(domain@))
            },
        },
{
    let d = lower_chars(&trim_chars(&chars_of(domain)));
    if d.len() == 0 {
        return Err(owned("Domain cannot be empty"));
    }
    let mut i: usize = 0;
    while i < d.len()
        invariant
            i <= d.len(),
            d@ == normalize(domain@),
            d@.len() > 0,
            forall|k: int| 0 <= k < i ==> !(is_ws(d@[k]) || d@[k] == '#'),
        decreases d.len() - i,
    {
        if is_whitespace(d[i]) || d[i] == '#' {
            assert(0 <= i < d@.len() && (is_ws(d@[i as int]) || d@[i as int] == '#'));
            return Err(owned("Invalid domain"));
        }
        i += 1;
    }
    let mut j: usize = 0;
    while j < domains.len()
        invariant
            j <= domains.len(),
            d@ == normalize(domain@),
            d@.len() > 0,
            forall|k: int| 0 <= k < d@.len() ==> !(is_ws(d@[k]) || d@[k] == '#'),
            forall|k: int| 0 <= k < j ==> domains@[k]@ != d@,
        decreases domains.len() - j,
    {
        if same(&chars_of(domains[j].as_str()), &d) {
            assert(strs_of(domains@)[j as int] == d@);
            return Ok(AddedDomains { domains, changed: false });
        }
        j += 1;
    }
    assert(!strs_of(domains@).contains(d@)) by {
        if strs_of(domains@).contains(d@) {
            let k = choose|k: int| 0 <= k < strs_of(domains@).len() && strs_of(domains@)[k] == d@;
            assert(domains@[k]@ == d@);
        }
    }
    let mut out = domains;
    let ghost o0 = out@;
    let s = string_of(&d);
    out.push(s);
    proof {
        lemma_strs_push(o0, s);
    }
    Ok(AddedDomains { domains: out, changed: true })
}

pub open spec fn without_upto(ds: Seq<Seq<char>>, d: Seq<char>, n: nat) -> Seq<Seq<char>>
    decreases n,
{
    if n == 0 || n > ds.len() {
        seq![]
    } else {
        let prev = without_upto(ds, d, (n - 1) as nat);
        if ds[n - 1] != d {
            prev.push(ds[n - 1])
        } else {
            prev
        }
    }
}

/// Removes every occurrence of the (normalized) domain from the list.
pub fn remove_user_domain(domains: &Vec<String>, domain: &str) -> (r: Vec<String>)
    ensures
        strs_of(r@) == without_upto(strs_of(domains@), normalize(domain@), domains@.len()),
{
    let d = lower_chars(&trim_chars(&chars_of(domain)));
    let mut r: Vec<String> = Vec::new();
    for i in 0..domains.len()
        invariant
            d@ == normalize(domain@),
            strs_of(r@) == without_upto(strs_of(domains@), d@, i as nat),
    {
        let c = chars_of(domains[i].as_str());
        assert(strs_of(domains@)[i as int] == c@);
        if !same(&c, &d) {
            let ghost r0 = r@;
            let s = string_of(&c);
            r.push(s);
            proof {
                lemma_strs_push(r0, s);
            }
        }
    }
    r
}

// ---------------------------------------------------------------------------
// Reading back what was written
// ---------------------------------------------------------------------------

/// A list item that survives writing and reading back: non-empty, trimmed,
/// not a comment, on one line.
pub open spec fn list_item(d: Seq<char>) -> bool {
    d.len() > 0 && trim(d) == d && d[0] != '#' && !d.contains('\n')
}

proof fn lemma_lines_prefix(s: Seq<char>, a: Seq<char>, k: nat)
    requires
        a.len() <= s.len(),
        s.take(a.len() as int) == a,
        !a.contains('\n'),
        k <= a.len(),
    ensures
        lines_state(s, k) == (Seq::<Seq<char>>::empty(), a.take(k as int)),
    decreases k,
{
    if k > 0 {
        lemma_lines_prefix(s, a, (k - 1) as nat);
        assert(s[k - 1] == a[k - 1]);
        if a[k - 1] == '\n' {
            assert(a.contains('\n'));
        }
        assert(a.take(k as int) =~= a.take(k - 1).push(a[k - 1]));
    }
}

proof fn lemma_lines_tail(a: Seq<char>, b: Seq<char>, m: nat)
    requires
        m <= b.len(),
        lines_state(a + seq!['\n'] + b, a.len() + 1) == (seq![strip_cr(a)], Seq::<char>::empty()),
    ensures
        lines_state(a + seq!['\n'] + b, a.len() + 1 + m) == (
            seq![strip_cr(a)] + lines_state(b, m).0,
            lines_state(b, m).1,
        ),
    decreases m,
{
    let s = a + seq!['\n'] + b;
    if m == 0 {
        assert(seq![strip_cr(a)] + Seq::<Seq<char>>::empty() =~= seq![strip_cr(a)]);
    } else {
        lemma_lines_tail(a, b, (m - 1) as nat);
        assert(s[a.len() + 1 + m - 1] == b[m - 1]);
        let prev = lines_state(b, (m - 1) as nat);
        assert((seq![strip_cr(a)] + prev.0).push(strip_cr(prev.1)) =~= seq![strip_cr(a)] + prev.0.push(
            strip_cr(prev.1),
        ));
        assert((seq![strip_cr(a)] + prev.0) =~= seq![strip_cr(a)] + prev.0);
    }
}

/// A line followed by a newline comes first among the lines.
pub proof fn lemma_lines_cons(a: Seq<char>, b: Seq<char>)
    requires
        !a.contains('\n'),
    ensures
        lines_of(a + seq!['\n'] + b) == seq![strip_cr(a)] + lines_of(b),
{
    let s = a + seq!['\n'] + b;
    assert(s.take(a.len() as int) =~= a);
    lemma_lines_prefix(s, a, a.len());
    assert(a.take(a.len() as int) =~= a);
    assert(s[a.len() as int] == '\n');
    lemma_lines_tail(a, b, b.len());
    let bst = lines_state(b, b.len());
    if bst.1.len() > 0 {
        assert((seq![strip_cr(a)] + bst.0).push(bst.1) =~= seq![strip_cr(a)] + bst.0.push(bst.1));
    }
}

/// The rendering after the first `n` domains, as the lines that follow it.
pub open spec fn rendered_rest(ds: Seq<Seq<char>>, n: nat) -> Seq<char>
    decreases ds.len() - n,
{
    if n >= ds.len() {
        seq![]
    } else {
        ds[n as int] + seq!['\n'] + rendered_rest(ds, n + 1)
    }
}

proof fn lemma_render_split(ds: Seq<Seq<char>>, n: nat)
    requires
        n <= ds.len(),
    ensures
        render_upto(ds, ds.len()) == render_upto(ds, n) + rendered_rest(ds, n),
    decreases ds.len() - n,
{
    if n < ds.len() {
        lemma_render_split(ds, n + 1);
        assert(render_upto(ds, n + 1) == render_upto(ds, n) + ds[n as int] + seq!['\n']);
        assert(render_upto(ds, n) + ds[n as int] + seq!['\n'] + rendered_rest(ds, n + 1) =~= render_upto(ds, n)
            + rendered_rest(ds, n));
    } else {
        assert(render_upto(ds, n) + Seq::<char>::empty() =~= render_upto(ds, n));
    }
}

proof fn lemma_rest_lines(ds: Seq<Seq<char>>, n: nat)
    requires
        n <= ds.len(),
        forall|i: int| 0 <= i < ds.len() ==> list_item(#[trigger] ds[i]),
    ensures
        lines_of(rendered_rest(ds, n)) == ds.skip(n as int),
    decreases ds.len() - n,
{
    if n < ds.len() {
        lemma_rest_lines(ds, n + 1);
        let d = ds[n as int];
        assert(list_item(d));
        lemma_lines_cons(d, rendered_rest(ds, n + 1));
        lemma_trim_ends(d);
        assert(strip_cr(d) == d);
        assert(seq![d] + ds.skip((n + 1) as int) =~= ds.skip(n as int));
    } else {
        assert(ds.skip(n as int) =~= Seq::<Seq<char>>::empty());
    }
}

proof fn lemma_domains_of_items(ls: Seq<Seq<char>>, n: nat)
    requires
        n <= ls.len(),
        forall|i: int| 0 <= i < ls.len() ==> list_item(#[trigger] ls[i]),
    ensures
        domains_upto(ls, n) == ls.take(n as int),
    decreases n,
{
    if n > 0 {
        lemma_domains_of_items(ls, (n - 1) as nat);
        assert(list_item(ls[n - 1]));
        assert(ls.take(n as int) =~= ls.take(n - 1).push(ls[n - 1]));
    } else {
        assert(ls.take(0) =~= Seq::<Seq<char>>::empty());
    }
}

proof fn lemma_domains_skip_header(h: Seq<char>, ls: Seq<Seq<char>>, n: nat)
    requires
        n <= ls.len(),
        !keep_line(trim(h)),
    ensures
        domains_upto(seq![h] + ls, n + 1) == domains_upto(ls, n),
    decreases n,
{
    let all = seq![h] + ls;
    if n > 0 {
        lemma_domains_skip_header(h, ls, (n - 1) as nat);
        assert((n - 1) as nat + 1 == n);
        assert(domains_upto(all, n) == domains_upto(ls, (n - 1) as nat));
        assert(all[n as int] == ls[n - 1]);
        assert(domains_upto(all, n + 1) == domains_upto(ls, n));
    } else {
        assert(all[0] == h);
        assert(domains_upto(all, 0) == Seq::<Seq<char>>::empty());
        assert(domains_upto(all, 1) == Seq::<Seq<char>>::empty());
    }
}

/// Writing a list of domains and reading the file back gives the same list.
pub proof fn law_user_domains_roundtrip(ds: Seq<Seq<char>>)
    requires
        forall|i: int| 0 <= i < ds.len() ==> list_item(#[trigger] ds[i]),
    ensures
        user_domains(render_domains(ds)) == ds,
{
    reveal_strlit("# Never leave this file empty");
    let h = list_header();
    assert(!h.contains('\n')) by {
        if h.contains('\n') {
            let i = choose|i: int| 0 <= i < h.len() && h[i] == '\n';
            assert(h[i] != '\n');
        }
    }
    lemma_render_split(ds, 0);
    assert(render_domains(ds) =~= h + seq!['\n'] + rendered_rest(ds, 0));
    lemma_lines_cons(h, rendered_rest(ds, 0));
    lemma_rest_lines(ds, 0);
    assert(ds.skip(0) =~= ds);
    assert(strip_cr(h) == h);
    assert(trim_start(h) == h);
    assert(trim_end(h) == h);
    assert(!keep_line(trim(h)));
    let ls = seq![h] + ds;
    lemma_domains_skip_header(h, ds, ds.len());
    lemma_domains_of_items(ds, ds.len());
    assert(ds.take(ds.len() as int) =~= ds);
}

proof fn lemma_lines_state_no_newline(s: Seq<char>, n: nat)
    ensures
        !lines_state(s, n).1.contains('\n'),
        forall|i: int|
            0 <= i < lines_state(s, n).0.len() ==> !(#[trigger] lines_state(s, n).0[i]).contains('\n'),
    decreases n,
{
    if n > 0 && n <= s.len() {
        lemma_lines_state_no_newline(s, (n - 1) as nat);
        let st = lines_state(s, (n - 1) as nat);
        if s[n - 1] == '\n' {
            let l = strip_cr(st.1);
            assert(!l.contains('\n')) by {
                if l.contains('\n') {
                    let j = choose|j: int| 0 <= j < l.len() && l[j] == '\n';
                    assert(st.1[j] == '\n');
                }
            }
            assert forall|i: int| 0 <= i < lines_state(s, n).0.len() implies !(#[trigger] lines_state(
                s,
                n,
            ).0[i]).contains('\n') by {
                if i < st.0.len() {
                    assert(lines_state(s, n).0[i] == st.0[i]);
                }
            }
        } else {
            let l = st.1.push(s[n - 1]);
            assert(!l.contains('\n')) by {
                if l.contains('\n') {
                    let j = choose|j: int| 0 <= j < l.len() && l[j] == '\n';
                    if j < st.1.len() {
                        assert(st.1[j] == '\n');
                    }
                }
            }
        }
    }
}

proof fn lemma_lines_no_newline(s: Seq<char>)
    ensures
        forall|i: int| 0 <= i < lines_of(s).len() ==> !(#[trigger] lines_of(s)[i]).contains('\n'),
{
    lemma_lines_state_no_newline(s, s.len());
}

proof fn lemma_trim_sub(s: Seq<char>)
    ensures
        forall|c: char| trim(s).contains(c) ==> s.contains(c),
        trim(trim(s)) == trim(s),
{
    crate::text::lemma_trim_start_suffix(s);
    let k = choose|k: int| 0 <= k <= s.len() && trim_start(s) == s.skip(k);
    crate::text::lemma_trim_end_props(trim_start(s));
    assert forall|c: char| trim(s).contains(c) implies s.contains(c) by {
        let j = choose|j: int| 0 <= j < trim(s).len() && trim(s)[j] == c;
        assert(trim(s)[j] == trim_start(s)[j]);
        assert(s[k + j] == c);
    }
    lemma_trim_ends(s);
    let t = trim(s);
    if t.len() > 0 {
        assert(trim_start(t) == t);
        assert(trim_end(t) == t);
    }
}

proof fn lemma_domains_items(ls: Seq<Seq<char>>, n: nat)
    requires
        n <= ls.len(),
        forall|i: int| 0 <= i < ls.len() ==> !(#[trigger] ls[i]).contains('\n'),
    ensures
        forall|i: int| 0 <= i < domains_upto(ls, n).len() ==> list_item(#[trigger] domains_upto(ls, n)[i]),
    decreases n,
{
    if n > 0 {
        lemma_domains_items(ls, (n - 1) as nat);
        let prev = domains_upto(ls, (n - 1) as nat);
        let t = trim(ls[n - 1]);
        if keep_line(t) {
            lemma_trim_sub(ls[n - 1]);
            assert(!t.contains('\n')) by {
                if t.contains('\n') {
                    assert(ls[n - 1].contains('\n'));
                }
            }
            assert(list_item(t));
            assert forall|i: int| 0 <= i < domains_upto(ls, n).len() implies list_item(
                #[trigger] domains_upto(ls, n)[i],
            ) by {
                if i < prev.len() {
                    assert(domains_upto(ls, n)[i] == prev[i]);
                }
            }
        }
    }
}

/// Every domain read from a user list survives writing and reading back.
pub proof fn lemma_read_domains_are_items(content: Seq<char>)
    ensures
        forall|i: int|
            0 <= i < user_domains(content).len() ==> list_item(#[trigger] user_domains(content)[i]),
{
    lemma_lines_no_newline(content);
    lemma_domains_items(lines_of(content), lines_of(content).len());
}

/// A domain that can be added is found in the list read back after the
/// list with it is written, together with every domain that was there.
pub proof fn law_added_domain_read_back(content: Seq<char>, domain: Seq<char>)
    requires
        domain_problem(normalize(domain)) is None,
    ensures
        ({
            let ds = user_domains(content);
            let d = normalize(domain);
            let after = if ds.contains(d) {
                ds
            } else {
                ds.push(d)
            };
            &&& user_domains(render_domains(after)) == after
            &&& after.contains(d)
            &&& forall|i: int| 0 <= i < ds.len() ==> after.contains(#[trigger] ds[i])
        }),
{
    let ds = user_domains(content);
    let d = normalize(domain);
    lemma_read_domains_are_items(content);
    assert(list_item(d)) by {
        assert(!is_ws(d[0]));
        assert(!is_ws(d.last()));
        assert(trim_start(d) == d);
        assert(trim_end(d) == d);
        if d.contains('\n') {
            let j = choose|j: int| 0 <= j < d.len() && d[j] == '\n';
            assert(is_ws(d[j]));
        }
    }
    if ds.contains(d) {
        law_user_domains_roundtrip(ds);
    } else {
        let after = ds.push(d);
        assert forall|i: int| 0 <= i < after.len() implies list_item(#[trigger] after[i]) by {
            if i < ds.len() {
                assert(after[i] == ds[i]);
            }
        }
        law_user_domains_roundtrip(after);
        assert(after[ds.len() as int] == d);
        assert forall|i: int| 0 <= i < ds.len() implies after.contains(#[trigger] ds[i]) by {
            assert(after[i] == ds[i]);
        }
    }
}

/// A removed domain is no longer in the list.
pub proof fn law_removed_domain_gone(ds: Seq<Seq<char>>, d: Seq<char>, n: nat)
    requires
        n <= ds.len(),
    ensures
        !without_upto(ds, d, n).contains(d),
    decreases n,
{
    if n > 0 {
        law_removed_domain_gone(ds, d, (n - 1) as nat);
        let prev = without_upto(ds, d, (n - 1) as nat);
        if without_upto(ds, d, n).contains(d) {
            let j = choose|j: int| 0 <= j < without_upto(ds, d, n).len() && without_upto(ds, d, n)[j] == d;
            if j < prev.len() {
                assert(without_upto(ds, d, n)[j] == prev[j]);
            }
        }
    }
}

proof fn lemma_without_from(ds: Seq<Seq<char>>, d: Seq<char>, n: nat)
    requires
        n <= ds.len(),
    ensures
        forall|i: int|
            0 <= i < without_upto(ds, d, n).len() ==> ds.contains(#[trigger] without_upto(ds, d, n)[i]),
    decreases n,
{
    if n > 0 {
        lemma_without_from(ds, d, (n - 1) as nat);
        let prev = without_upto(ds, d, (n - 1) as nat);
        let cur = without_upto(ds, d, n);
        assert forall|i: int| 0 <= i < cur.len() implies ds.contains(#[trigger] cur[i]) by {
            if i < prev.len() {
                assert(cur[i] == prev[i]);
            } else {
                assert(cur[i] == ds[n - 1]);
            }
        }
    }
}

/// Removing a domain and writing the list: the list read back is the list
/// without every occurrence of that domain, in its order.
pub proof fn law_removed_domain_read_back(content: Seq<char>, domain: Seq<char>)
    ensures
        ({
            let ds = user_domains(content);
            let after = without_upto(ds, normalize(domain), ds.len());
            &&& user_domains(render_domains(after)) == after
            &&& !after.contains(normalize(domain))
        }),
{
    let ds = user_domains(content);
    let d = normalize(domain);
    let after = without_upto(ds, d, ds.len());
    lemma_read_domains_are_items(content);
    lemma_without_from(ds, d, ds.len());
    assert forall|i: int| 0 <= i < after.len() implies list_item(#[trigger] after[i]) by {
        assert(ds.contains(after[i]));
        let k = choose|k: int| 0 <= k < ds.len() && ds[k] == after[i];
        assert(list_item(ds[k]));
    }
    law_user_domains_roundtrip(after);
    law_removed_domain_gone(ds, d, ds.len());
}

} // verus!
