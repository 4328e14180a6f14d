use vstd::prelude::*;

use crate::text::{
    chars_of, contains, extend, find_char, has_char, has_infix, has_prefix, index_of, lemma_seqs_push,
    matches_at,
    lines, lines_of, lower_chars, lower_text, occurs_at, owned, same, seqs_of, slice_chars,
    starts_with, string_of, strs_of, trim, trim_chars, words, words_of, is_ws, lemma_index_of, strip_cr,
    trim_end, trim_start, words_state, ascii_lower_text, is_ascii_text,
};
use crate::types::{AppConfig, HostsProvider, opt_view};

verus! {

pub open spec fn marker_start() -> Seq<char> {
    "# === FREENET BLOCK BYPASS START ==="@
}

pub open spec fn marker_end() -> Seq<char> {
    "# === FREENET BLOCK BYPASS END ==="@
}

/// Where Windows keeps the hosts file.
pub fn get_hosts_path() -> (r: String)
    ensures
        r@ == "C:\\Windows\\System32\\drivers\\etc\\hosts"@,
{
    owned("C:\\Windows\\System32\\drivers\\etc\\hosts")
}

// ---------------------------------------------------------------------------
// Providers
// ---------------------------------------------------------------------------

/// The built-in providers: key, name, description, list URL (the custom
/// provider has none and is marked custom).
pub open spec fn provider_table() -> Seq<(Seq<char>, Seq<char>, Seq<char>, Option<Seq<char>>, bool)> {
    seq![
        ("geohidedns"@, "GeoHideDNS"@, "Ad and tracker blocking hosts list"@,
            Some("https://raw.githubusercontent.com/incognico/ad-host-list/master/hosts.txt"@), false),
        ("stevenblack"@, "StevenBlack Unified"@, "Blocks ads, trackers and malware (unified list)"@,
            Some("https://raw.githubusercontent.com/StevenBlack/hosts/master/hosts"@), false),
        ("someonewhocares"@, "someonewhocares (Dan Pollock)"@,
            "Blocks advertising, trackers and malware hosts"@,
            Some("https://someonewhocares.org/hosts/hosts/"@), false),
        ("custom"@, "Custom URL"@, "Use your own hosts file from a custom URL"@, None, true),
    ]
}

pub open spec fn provider_matches(
    p: HostsProvider,
    t: (Seq<char>, Seq<char>, Seq<char>, Option<Seq<char>>, bool),
) -> bool {
    p.key@ == t.0 && p.name@ == t.1 && p.description@ == t.2 && opt_view(p.url) == t.3 && p.custom
        == t.4
}

fn provider(key: &str, name: &str, description: &str, url: Option<&str>, custom: bool) -> (p:
    HostsProvider)
    ensures
        p.key@ == key@,
        p.name@ == name@,
        p.description@ == description@,
        opt_view(p.url) == (match url {
            Some(u) => Some(u@),
            None => None,
        }),
        p.custom == custom,
{
    HostsProvider {
        key: owned(key),
        name: owned(name),
        description: owned(description),
        url: match url {
            Some(u) => Some(owned(u)),
            None => None,
        },
        custom,
    }
}

/// The built-in hosts providers.
pub fn builtin_hosts_providers() -> (r: Vec<HostsProvider>)
    ensures
        r@.len() == provider_table().len(),
        forall|i: int| 0 <= i < r@.len() ==> provider_matches(#[trigger] r@[i], provider_table()[i]),
{
    let mut r = Vec::new();
    r.push(
        provider(
            "geohidedns",
            "GeoHideDNS",
            "Ad and tracker blocking hosts list",
            Some("https://raw.githubusercontent.com/incognico/ad-host-list/master/hosts.txt"),
            false,
        ),
    );
    r.push(
        provider(
            "stevenblack",
            "StevenBlack Unified",
            "Blocks ads, trackers and malware (unified list)",
            Some("https://raw.githubusercontent.com/StevenBlack/hosts/master/hosts"),
            false,
        ),
    );
    r.push(
        provider(
            "someonewhocares",
            "someonewhocares (Dan Pollock)",
            "Blocks advertising, trackers and malware hosts",
            Some("https://someonewhocares.org/hosts/hosts/"),
            false,
        ),
    );
    r.push(
        provider(
            "custom",
            "Custom URL",
            "Use your own hosts file from a custom URL",
            None,
            true,
        ),
    );
    r
}

/// The classic unblocking list: (domain, address).
pub open spec fn blocked_table() -> Seq<(Seq<char>, Seq<char>)> {
    seq![
        ("soundcloud.com"@, "149.154.167.99"@),
        ("gemini.google.com"@, "142.250.74.78"@),
        ("chatgpt.com"@, "104.18.32.7"@),
        ("openai.com"@, "104.18.32.7"@),
        ("sentry.io"@, "185.199.108.133"@),
        ("chat.openai.com"@, "104.18.32.7"@),
        ("cdn.oaistatic.com"@, "104.18.32.7"@),
        ("androidapp.io"@, "142.250.74.78"@),
        ("t.me"@, "149.154.167.99"@),
        ("telegram.org"@, "149.154.167.99"@),
    ]
}

/// The classic unblocking list: (domain, address).
pub fn get_blocked_domains() -> (r: Vec<(&'static str, &'static str)>)
    ensures
        r@.len() == blocked_table().len(),
        forall|i: int|
            0 <= i < r@.len() ==> (#[trigger] r@[i]).0@ == blocked_table()[i].0 && r@[i].1@
                == blocked_table()[i].1,
{
    let mut r = Vec::new();
    r.push(("soundcloud.com", "149.154.167.99"));
    r.push(("gemini.google.com", "142.250.74.78"));
    r.push(("chatgpt.com", "104.18.32.7"));
    r.push(("openai.com", "104.18.32.7"));
    r.push(("sentry.io", "185.199.108.133"));
    r.push(("chat.openai.com", "104.18.32.7"));
    r.push(("cdn.oaistatic.com", "104.18.32.7"));
    r.push(("androidapp.io", "142.250.74.78"));
    r.push(("t.me", "149.154.167.99"));
    r.push(("telegram.org", "149.154.167.99"));
    r
}

pub open spec fn entry_line(ip: Seq<char>, domain: Seq<char>) -> Seq<char> {
    ip + seq![' '] + domain + seq!['\n']
}

pub open spec fn static_block_upto(n: nat) -> Seq<char>
    decreases n,
{
    if n == 0 || n > blocked_table().len() {
        seq![]
    } else {
        static_block_upto((n - 1) as nat) + entry_line(blocked_table()[n - 1].1, blocked_table()[n - 1].0)
    }
}

/// The entries of the classic list, one "address domain" line each.
pub open spec fn static_block() -> Seq<char> {
    static_block_upto(blocked_table().len())
}

/// The entries of the classic list, one "address domain" line each.
pub fn static_hosts_block() -> (r: String)
    ensures
        r@ == static_block(),
{
    let list = get_blocked_domains();
    let mut out: Vec<char> = Vec::new();
    for i in 0..list.len()
        invariant
            list@.len() == blocked_table().len(),
            forall|k: int|
                0 <= k < list@.len() ==> (#[trigger] list@[k]).0@ == blocked_table()[k].0 && list@[k].1@
                    == blocked_table()[k].1,
            out@ == static_block_upto(i as nat),
    {
        let (domain, ip) = list[i];
        assert(list@[i as int].0@ == blocked_table()[i as int].0);
        extend(&mut out, &chars_of(ip));
        out.push(' ');
        extend(&mut out, &chars_of(domain));
        out.push('\n');
        assert(out@ =~= static_block_upto((i + 1) as nat));
    }
    string_of(&out)
}

/// Where the entries of a provider come from.
#[derive(Debug, Clone, PartialEq, Eq)]
pub enum ProviderSource {
    /// A hosts file to download from this URL.
    Url(String),
    /// Entries known without downloading anything.
    Entries(String),
}

pub open spec fn builtin_url(key: Seq<char>, n: nat) -> Option<Option<Seq<char>>>
    decreases n,
{
    if n == 0 || n > provider_table().len() {
        None
    } else {
        match builtin_url(key, (n - 1) as nat) {
            Some(u) => Some(u),
            None => if provider_table()[n - 1].0 == key {
                Some(provider_table()[n - 1].3)
            } else {
                None
            },
        }
    }
}

pub open spec fn provider_source_spec(key: Seq<char>, custom_url: Option<Seq<char>>) -> Result<
    (bool, Seq<char>),
    Seq<char>,
> {
    if key == "custom"@ {
        match custom_url {
            Some(u) => Ok((true, u)),
            None => Err("Custom hosts URL is not set"@),
        }
    } else if key == "geohidedns"@ {
        Ok((false, static_block()))
    } else {
        match builtin_url(key, provider_table().len()) {
            None => Err("Unknown hosts provider"@),
            Some(None) => Err("Provider has no URL"@),
            Some(Some(u)) => Ok((true, u)),
        }
    }
}

/// Where the entries of provider `key` come from: the custom URL of the
/// settings, the built-in classic list, or the provider's URL.
pub fn provider_source(key: &str, config: &AppConfig) -> (r: Result<ProviderSource, String>)
    ensures
        match r {
            Ok(ProviderSource::Url(u)) => provider_source_spec(key@, opt_view(config.custom_hosts_url))
                == Ok::<(bool, Seq<char>), Seq<char>>((true, u@)),
            Ok(ProviderSource::Entries(e)) => provider_source_spec(key@, opt_view(config.custom_hosts_url))
                == Ok::<(bool, Seq<char>), Seq<char>>((false, e@)),
            Err(e) => provider_source_spec(key@, opt_view(config.custom_hosts_url)) == Err::<
                (bool, Seq<char>),
                Seq<char>,
            >(e@),
        },
{
    let k = chars_of(key);
    if same(&k, &chars_of("custom")) {
        return match &config.custom_hosts_url {
            Some(u) => Ok(ProviderSource::Url(u.clone())),
            None => Err(owned("Custom hosts URL is not set")),
        };
    }
    if same(&k, &chars_of("geohidedns")) {
        return Ok(ProviderSource::Entries(static_hosts_block()));
    }
    let providers = builtin_hosts_providers();
    let mut i: usize = 0;
    while i < providers.len()
        invariant
            providers@.len() == provider_table().len(),
            forall|j: int|
                0 <= j < providers@.len() ==> provider_matches(#[trigger] providers@[j], provider_table()[j]),
            i <= providers@.len(),
            k@ == key@,
            key@ != "custom"@,
            key@ != "geohidedns"@,
            builtin_url(key@, i as nat) is None,
        decreases providers.len() - i,
    {
        let pk = chars_of(providers[i].key.as_str());
        assert(provider_matches(providers@[i as int], provider_table()[i as int]));
        if same(&pk, &k) {
            assert(provider_table()[i as int].0 == key@);
            assert(builtin_url(key@, (i + 1) as nat) == Some(provider_table()[i as int].3));
            assert(builtin_url(key@, provider_table().len()) == builtin_url(key@, (i + 1) as nat)) by {
                lemma_builtin_url_stays(key@, (i + 1) as nat, provider_table().len());
            }
            assert(opt_view(providers@[i as int].url) == provider_table()[i as int].3);
            return match &providers[i].url {
                Some(u) => {
                    let c = u.clone();
                    assert(provider_table()[i as int].3 == Some(c@));
                    Ok(ProviderSource::Url(c))
                },
                None => Err(owned("Provider has no URL")),
            };
        }
        i += 1;
    }
    Err(owned("Unknown hosts provider"))
}

pub proof fn lemma_builtin_url_stays(key: Seq<char>, m: nat, n: nat)
    requires
        m <= n <= provider_table().len(),
        builtin_url(key, m) is Some,
    ensures
        builtin_url(key, n) == builtin_url(key, m),
    decreases n - m,
{
    if m < n {
        lemma_builtin_url_stays(key, m, (n - 1) as nat);
    }
}

// ---------------------------------------------------------------------------
// Parsing a downloaded hosts file
// ---------------------------------------------------------------------------

/// The part of a line before its first `#`.
pub open spec fn before_hash(l: Seq<char>) -> Seq<char> {
    if index_of(l, '#') >= 0 {
        l.take(index_of(l, '#'))
    } else {
        l
    }
}

/// Entries collected so far and the domains already taken.
pub open spec fn add_domain(st: (Seq<char>, Seq<Seq<char>>), ip: Seq<char>, word: Seq<char>) -> (
    Seq<char>,
    Seq<Seq<char>>,
) {
    let d = lower_text(word);
    if d.len() == 0 || !d.contains('.') || starts_with(d, "*"@) {
        st
    } else if st.1.contains(d) {
        st
    } else {
        (st.0 + entry_line(ip, d), st.1.push(d))
    }
}

pub open spec fn add_domains(st: (Seq<char>, Seq<Seq<char>>), ip: Seq<char>, ws: Seq<Seq<char>>, n: nat) -> (
    Seq<char>,
    Seq<Seq<char>>,
)
    decreases n,
{
    if n == 0 || n > ws.len() {
        st
    } else {
        add_domain(add_domains(st, ip, ws, (n - 1) as nat), ip, ws[n - 1])
    }
}

pub open spec fn add_line(st: (Seq<char>, Seq<Seq<char>>), line: Seq<char>) -> (Seq<char>, Seq<Seq<char>>) {
    let l = trim(before_hash(line));
    let ws = words_of(l);
    let ip = if ws.len() > 0 {
        ws[0]
    } else {
        seq![]
    };
    if l.len() == 0 || ip.len() == 0 || starts_with(ip, "::"@) {
        st
    } else {
        add_domains(st, ip, ws.skip(1), (ws.len() - 1) as nat)
    }
}

pub open spec fn add_lines(ls: Seq<Seq<char>>, n: nat) -> (Seq<char>, Seq<Seq<char>>)
    decreases n,
{
    if n == 0 || n > ls.len() {
        (seq![], seq![])
    } else {
        add_line(add_lines(ls, (n - 1) as nat), ls[n - 1])
    }
}

/// The "address domain" lines of a hosts file: comments after `#` dropped,
/// lines whose address is missing or starts with `::` skipped, each domain
/// lower-cased and kept only if it has a `.`, does not start with `*` and
/// was not taken before.
pub open spec fn hosts_entries(text: Seq<char>) -> Seq<char> {
    let ls = lines_of(text);
    add_lines(ls, ls.len()).0
}

proof fn lemma_words_run(s: Seq<char>, start: nat, k: nat)
    requires
        start + k <= s.len(),
        words_state(s, start).1.len() == 0,
        forall|i: int| start <= i < start + k ==> !is_ws(s[i]),
    ensures
        words_state(s, start + k) == (words_state(s, start).0, s.subrange(start as int, (start + k) as int)),
    decreases k,
{
    if k == 0 {
        assert(s.subrange(start as int, start as int) =~= Seq::<char>::empty());
        assert(words_state(s, start).1 =~= Seq::<char>::empty());
    } else {
        lemma_words_run(s, start, (k - 1) as nat);
        assert(s.subrange(start as int, start + k - 1).push(s[start + k - 1]) =~= s.subrange(
            start as int,
            (start + k) as int,
        ));
    }
}

/// An address as a hosts line can carry it: non-empty, without white space
/// or `#`, and not an IPv6 address starting with `::`.
pub open spec fn host_address(ip: Seq<char>) -> bool {
    &&& ip.len() > 0
    &&& forall|i: int| 0 <= i < ip.len() ==> !is_ws(#[trigger] ip[i]) && ip[i] != '#'
    &&& !starts_with(ip, "::"@)
}

/// A domain word of a hosts line: non-empty ASCII without white space or `#`.
pub open spec fn host_word(d: Seq<char>) -> bool {
    &&& d.len() > 0
    &&& forall|i: int| 0 <= i < d.len() ==> !is_ws(#[trigger] d[i]) && d[i] != '#' && (d[i] as u32) < 128
}

proof fn lemma_host_line(ip: Seq<char>, d: Seq<char>, st: (Seq<char>, Seq<Seq<char>>))
    requires
        host_address(ip),
        host_word(d),
    ensures
        !(ip + seq![' '] + d).contains('\n'),
        strip_cr(ip + seq![' '] + d) == ip + seq![' '] + d,
        add_line(st, ip + seq![' '] + d) == add_domain(st, ip, d),
{
    let l = ip + seq![' '] + d;
    assert(!l.contains('\n')) by {
        if l.contains('\n') {
            let j = choose|j: int| 0 <= j < l.len() && l[j] == '\n';
            if j < ip.len() {
                assert(l[j] == ip[j]);
            } else if j > ip.len() {
                assert(l[j] == d[j - ip.len() - 1]);
            }
        }
    }
    assert(l.last() == d.last());
    assert(strip_cr(l) == l);
    assert forall|k: int| 0 <= k < l.len() implies l[k] != '#' && !is_ws(l[k]) || k == ip.len() by {
        if k < ip.len() {
            assert(l[k] == ip[k]);
        } else if k > ip.len() {
            assert(l[k] == d[k - ip.len() - 1]);
        }
    }
    assert(l[ip.len() as int] == ' ');
    lemma_index_of(l, '#', l.len() as int);
    assert(before_hash(l) == l);
    assert(l[0] == ip[0]);
    assert(trim_start(l) == l);
    assert(trim_end(l) == l);
    assert(trim(l) == l);
    assert(words_state(l, 0).1.len() == 0);
    lemma_words_run(l, 0, ip.len());
    assert(l.subrange(0, ip.len() as int) =~= ip);
    assert(words_state(l, ip.len() + 1) == (seq![ip], Seq::<char>::empty()));
    lemma_words_run(l, ip.len() + 1, d.len());
    assert(l.subrange((ip.len() + 1) as int, l.len() as int) =~= d);
    assert(l.len() == ip.len() + 1 + d.len());
    assert(words_of(l) =~= seq![ip, d]);
    let ws = words_of(l);
    assert(ws.skip(1) =~= seq![d]);
    let dd: Seq<Seq<char>> = seq![d];
    assert(add_domains(st, ip, dd, 0) == st);
    assert(dd[0] == d);
    assert(add_domains(st, ip, dd, 1) == add_domain(st, ip, d));
}

proof fn lemma_host_domain(d: Seq<char>)
    requires
        host_word(d),
    ensures
        lower_text(d) == ascii_lower_text(d),
        lower_text(d).len() == d.len(),
        lower_text(d).contains('.') <==> d.contains('.'),
        starts_with(lower_text(d), "*"@) <==> d[0] == '*',
{
    assert(is_ascii_text(d));
    let e = ascii_lower_text(d);
    reveal_strlit("*");
    if e.contains('.') {
        let k = choose|k: int| 0 <= k < e.len() && e[k] == '.';
        assert(d[k] == '.');
    }
    if d.contains('.') {
        let k = choose|k: int| 0 <= k < d.len() && d[k] == '.';
        assert(e[k] == '.');
    }
    if starts_with(e, "*"@) {
        assert(e.take(1)[0] == "*"@[0]);
    }
    if d[0] == '*' {
        assert(e.take(1) =~= "*"@);
    }
}

/// A line "address domain" of a downloaded hosts file gives that entry
/// back with its own address (the address is never replaced) and the
/// domain in lower case; a domain without a `.` or starting with `*` gives
/// no entry.
pub proof fn law_hosts_entry_line(ip: Seq<char>, d: Seq<char>)
    requires
        host_address(ip),
        host_word(d),
    ensures
        hosts_entries(ip + seq![' '] + d + seq!['\n']) == if d.contains('.') && d[0] != '*' {
            ip + seq![' '] + ascii_lower_text(d) + seq!['\n']
        } else {
            Seq::<char>::empty()
        },
{
    let l = ip + seq![' '] + d;
    let e: (Seq<char>, Seq<Seq<char>>) = (Seq::<char>::empty(), Seq::<Seq<char>>::empty());
    lemma_host_line(ip, d, e);
    lemma_host_domain(d);
    let text = ip + seq![' '] + d + seq!['\n'];
    assert(text =~= l + seq!['\n'] + Seq::<char>::empty());
    crate::domains::lemma_lines_cons(l, Seq::<char>::empty());
    assert(lines_of(Seq::<char>::empty()) =~= Seq::<Seq<char>>::empty());
    assert(lines_of(text) =~= seq![l]);
    let ls: Seq<Seq<char>> = seq![l];
    assert(add_lines(ls, 0) == e);
    assert(ls[0] == l);
    assert(add_lines(ls, 1) == add_line(e, l));
    assert(add_domain(e, ip, d).0 =~= if d.contains('.') && d[0] != '*' {
        ip + seq![' '] + ascii_lower_text(d) + seq!['\n']
    } else {
        Seq::<char>::empty()
    });
}

/// A line "address domain" whose domain is already in lower case, has a
/// `.` and does not start with `*` gives exactly itself back: the entry
/// keeps the address of its line.
pub proof fn law_hosts_entry_keeps_address(ip: Seq<char>, d: Seq<char>)
    requires
        ip.len() > 0,
        d.len() > 0,
        forall|i: int| 0 <= i < ip.len() ==> !is_ws(#[trigger] ip[i]) && ip[i] != '#',
        forall|i: int| 0 <= i < d.len() ==> !is_ws(#[trigger] d[i]) && d[i] != '#' && (d[i] as u32) < 128
            && !('A' <= d[i] <= 'Z'),
        !starts_with(ip, "::"@),
        d.contains('.'),
        d[0] != '*',
    ensures
        hosts_entries(ip + seq![' '] + d + seq!['\n']) == ip + seq![' '] + d + seq!['\n'],
{
    law_hosts_entry_line(ip, d);
    assert(ascii_lower_text(d) =~= d);
}

/// A comment after an entry (`#` and anything up to the end of the line)
/// changes nothing: the line gives the same entry as without it.
pub proof fn law_hosts_comment_ignored(ip: Seq<char>, d: Seq<char>, rest: Seq<char>)
    requires
        host_address(ip),
        host_word(d),
        forall|i: int| 0 <= i < rest.len() ==> #[trigger] rest[i] != '\n' && rest[i] != '\r',
    ensures
        hosts_entries(ip + seq![' '] + d + seq![' ', '#'] + rest + seq!['\n']) == hosts_entries(
            ip + seq![' '] + d + seq!['\n'],
        ),
{
    let l = ip + seq![' '] + d;
    let big = l + seq![' ', '#'] + rest;
    let e: (Seq<char>, Seq<Seq<char>>) = (Seq::<char>::empty(), Seq::<Seq<char>>::empty());
    lemma_host_line(ip, d, e);
    // The comment is cut off, then the space before it trimmed.
    assert forall|k: int| 0 <= k < l.len() + 1 implies big[k] != '#' by {
        if k < ip.len() {
            assert(big[k] == ip[k]);
        } else if ip.len() < k < l.len() {
            assert(big[k] == d[k - ip.len() - 1]);
        }
    }
    lemma_index_of(big, '#', (l.len() + 1) as int);
    assert(before_hash(big) =~= l.push(' '));
    assert(l[0] == ip[0]);
    assert(!is_ws(l[0]));
    assert(trim_start(l.push(' ')) == l.push(' '));
    assert(l.push(' ').drop_last() =~= l);
    assert(trim_end(l.push(' ')) == trim_end(l));
    assert(l.last() == d.last());
    assert(trim_end(l) == l);
    assert(trim_start(l) == l);
    assert forall|k: int| 0 <= k < l.len() implies l[k] != '#' by {
        if k < ip.len() {
            assert(l[k] == ip[k]);
        } else if k > ip.len() {
            assert(l[k] == d[k - ip.len() - 1]);
        }
    }
    lemma_index_of(l, '#', l.len() as int);
    assert(before_hash(l) == l);
    assert(trim(before_hash(big)) == trim(before_hash(l)));
    assert(add_line(e, big) == add_line(e, l));
    // One line each.
    assert(!big.contains('\n')) by {
        if big.contains('\n') {
            let j = choose|j: int| 0 <= j < big.len() && big[j] == '\n';
            if j < l.len() {
                assert(big[j] == l[j]);
                assert(l.contains('\n'));
            } else if j >= l.len() + 2 {
                assert(big[j] == rest[j - l.len() - 2]);
            }
        }
    }
    if rest.len() > 0 {
        assert(big.last() == rest.last());
    }
    assert(strip_cr(big) == big);
    let t1 = ip + seq![' '] + d + seq![' ', '#'] + rest + seq!['\n'];
    let t2 = ip + seq![' '] + d + seq!['\n'];
    assert(t1 =~= big + seq!['\n'] + Seq::<char>::empty());
    assert(t2 =~= l + seq!['\n'] + Seq::<char>::empty());
    crate::domains::lemma_lines_cons(big, Seq::<char>::empty());
    crate::domains::lemma_lines_cons(l, Seq::<char>::empty());
    assert(lines_of(Seq::<char>::empty()) =~= Seq::<Seq<char>>::empty());
    assert(lines_of(t1) =~= seq![big]);
    assert(lines_of(t2) =~= seq![l]);
    let ls1: Seq<Seq<char>> = seq![big];
    let ls2: Seq<Seq<char>> = seq![l];
    assert(add_lines(ls1, 0) == e && add_lines(ls2, 0) == e);
    assert(ls1[0] == big && ls2[0] == l);
    assert(add_lines(ls1, 1) == add_line(e, big));
    assert(add_lines(ls2, 1) == add_line(e, l));
}

/// When two lines name the same domain, the first line's entry is kept and
/// the second adds nothing: each domain is listed once, with the address
/// it was first given.
pub proof fn law_hosts_first_address_wins(ip1: Seq<char>, ip2: Seq<char>, d: Seq<char>)
    requires
        host_address(ip1),
        host_address(ip2),
        host_word(d),
    ensures
        hosts_entries(ip1 + seq![' '] + d + seq!['\n'] + ip2 + seq![' '] + d + seq!['\n']) == hosts_entries(
            ip1 + seq![' '] + d + seq!['\n'],
        ),
{
    let l1 = ip1 + seq![' '] + d;
    let l2 = ip2 + seq![' '] + d;
    let e: (Seq<char>, Seq<Seq<char>>) = (Seq::<char>::empty(), Seq::<Seq<char>>::empty());
    lemma_host_line(ip1, d, e);
    let st1 = add_domain(e, ip1, d);
    lemma_host_line(ip2, d, st1);
    lemma_host_domain(d);
    let one = ip1 + seq![' '] + d + seq!['\n'];
    let text = one + ip2 + seq![' '] + d + seq!['\n'];
    assert(text =~= l1 + seq!['\n'] + (l2 + seq!['\n']));
    crate::domains::lemma_lines_cons(l1, l2 + seq!['\n']);
    assert((l2 + seq!['\n']) =~= l2 + seq!['\n'] + Seq::<char>::empty());
    crate::domains::lemma_lines_cons(l2, Seq::<char>::empty());
    assert(lines_of(Seq::<char>::empty()) =~= Seq::<Seq<char>>::empty());
    assert(lines_of(text) =~= seq![l1, l2]);
    assert(one =~= l1 + seq!['\n'] + Seq::<char>::empty());
    crate::domains::lemma_lines_cons(l1, Seq::<char>::empty());
    assert(lines_of(one) =~= seq![l1]);
    let ls: Seq<Seq<char>> = seq![l1, l2];
    let ls1: Seq<Seq<char>> = seq![l1];
    assert(add_lines(ls, 0) == e);
    assert(add_lines(ls1, 0) == e);
    assert(ls[0] == l1 && ls[1] == l2 && ls1[0] == l1);
    assert(add_lines(ls, 1) == st1);
    assert(add_lines(ls1, 1) == st1);
    assert(add_lines(ls, 2) == add_domain(st1, ip2, d));
    if st1 != e {
        assert(st1.1 =~= seq![lower_text(d)]);
        assert(st1.1[0] == lower_text(d));
        assert(st1.1.contains(lower_text(d)));
    }
    assert(add_domain(st1, ip2, d) == st1);
}

fn seen_contains(seen: &Vec<Vec<char>>, d: &Vec<char>) -> (r: bool)
    ensures
        r == seqs_of(seen@).contains(d@),
{
    for i in 0..seen.len()
        invariant
            forall|k: int| 0 <= k < i ==> seen@[k]@ != d@,
    {
        if same(&seen[i], d) {
            assert(seqs_of(seen@)[i as int] == d@);
            return true;
        }
    }
    assert forall|k: int| 0 <= k < seqs_of(seen@).len() implies seqs_of(seen@)[k] != d@ by {
        assert(seqs_of(seen@)[k] == seen@[k]@);
    }
    false
}

/// Collects the entries of a downloaded hosts file; fails when it holds none.
pub fn parse_hosts_entries(text: &str) -> (r: Result<String, String>)
    ensures
        r is Err <==> hosts_entries(text@).len() == 0,
        r matches Ok(s) ==> s@ == hosts_entries(text@),
        r matches Err(e) ==> e@ == "No hosts entries found in the file"@,
{
    let t = chars_of(text);
    let ls = lines(&t);
    let star = chars_of("*");
    let colons = chars_of("::");
    let mut out: Vec<char> = Vec::new();
    let mut seen: Vec<Vec<char>> = Vec::new();
    for i in 0..ls.len()
        invariant
            seqs_of(ls@) == lines_of(text@),
            star@ == "*"@,
            colons@ == "::"@,
            (out@, seqs_of(seen@)) == add_lines(seqs_of(ls@), i as nat),
    {
        let ghost st0 = (out@, seqs_of(seen@));
        let line = &ls[i];
        proof {
            assert(seqs_of(ls@)[i as int] == line@);
        }
        let pre = match find_char(line, '#') {
            Some(cut) => slice_chars(line, 0, cut),
            None => slice_chars(line, 0, line.len()),
        };
        proof {
            if index_of(line@, '#') >= 0 {
                assert(pre@ =~= line@.take(index_of(line@, '#')));
            } else {
                assert(pre@ =~= line@);
            }
            assert(pre@ == before_hash(line@));
        }
        let l = trim_chars(&pre);
        let ws = words(&l);
        proof {
            if ws@.len() > 0 {
                assert(seqs_of(ws@)[0] == ws@[0]@);
            }
        }
        if l.len() == 0 || ws.len() == 0 || ws[0].len() == 0 || has_prefix(&ws[0], &colons) {
            assert((out@, seqs_of(seen@)) == add_line(st0, line@));
        } else {
        let ip = &ws[0];
        let ghost rest = seqs_of(ws@).skip(1);
        let mut j: usize = 1;
        while j < ws.len()
            invariant
                1 <= j <= ws@.len(),
                star@ == "*"@,
                rest == seqs_of(ws@).skip(1),
                (out@, seqs_of(seen@)) == add_domains(st0, ip@, rest, (j - 1) as nat),
            decreases ws.len() - j,
        {
            let ghost before = (out@, seqs_of(seen@));
            let d = lower_chars(&ws[j]);
            proof {
                assert(rest[j - 1] == ws@[j as int]@);
            }
            if d.len() > 0 && has_char(&d, '.') && !has_prefix(&d, &star) && !seen_contains(&seen, &d) {
                extend(&mut out, ip);
                out.push(' ');
                extend(&mut out, &d);
                out.push('\n');
                let ghost seen0 = seen@;
                seen.push(d);
                proof {
                    lemma_seqs_push(seen0, d);
                    assert(out@ =~= before.0 + entry_line(ip@, d@));
                }
            }
            assert((out@, seqs_of(seen@)) == add_domain(before, ip@, rest[j - 1]));
            j += 1;
        }
        assert((out@, seqs_of(seen@)) == add_line(st0, line@));
        }
    }
    if out.len() == 0 {
        return Err(owned("No hosts entries found in the file"));
    }
    Ok(string_of(&out))
}

} // verus!

verus! {

// ---------------------------------------------------------------------------
// Editing the hosts file
// ---------------------------------------------------------------------------

/// Index of the first occurrence of `p` in `s` at or after `i`, or -1.
pub open spec fn find_from(s: Seq<char>, p: Seq<char>, i: int) -> int
    decreases s.len() + 1 - i,
{
    if i < 0 || i + p.len() > s.len() {
        -1
    } else if occurs_at(s, p, i) {
        i
    } else {
        find_from(s, p, i + 1)
    }
}

/// Index of the first occurrence of `p` in `s`, or -1 (`str::find`).
pub open spec fn find_seq(s: Seq<char>, p: Seq<char>) -> int {
    find_from(s, p, 0)
}

pub fn find_chars(s: &Vec<char>, p: &Vec<char>) -> (r: Option<usize>)
    ensures
        match r {
            Some(i) => find_seq(s@, p@) == i as int,
            None => find_seq(s@, p@) == -1,
        },
{
    if p.len() > s.len() {
        return None;
    }
    let last = s.len() - p.len();
    let mut i: usize = 0;
    loop
        invariant
            i <= last,
            last == s.len() - p.len(),
            find_seq(s@, p@) == find_from(s@, p@, i as int),
        decreases last - i,
    {
        if matches_at(s, p, i) {
            return Some(i);
        }
        if i == last {
            assert(find_from(s@, p@, i + 1) == -1);
            return None;
        }
        i += 1;
    }
}

/// The text between the first start marker and the end of the first end
/// marker taken out; the text unchanged when either marker is missing.
pub open spec fn strip_block(c: Seq<char>) -> Seq<char> {
    let s = find_seq(c, marker_start());
    let e = find_seq(c, marker_end());
    if s >= 0 && e >= 0 {
        c.take(s) + c.skip(e + marker_end().len())
    } else {
        c
    }
}

/// Whether the block can be cut out: when both markers are present, the
/// first start marker is not behind the end of the first end marker.
pub open spec fn markers_ordered(c: Seq<char>) -> bool {
    let s = find_seq(c, marker_start());
    let e = find_seq(c, marker_end());
    s >= 0 && e >= 0 ==> s <= e + marker_end().len()
}

/// Whether the markers of `content` allow the block to be cut out.
pub fn hosts_markers_ordered(content: &str) -> (r: bool)
    ensures
        r == markers_ordered(content@),
{
    let c = chars_of(content);
    let start = chars_of("# === FREENET BLOCK BYPASS START ===");
    let end = chars_of("# === FREENET BLOCK BYPASS END ===");
    match (find_chars(&c, &start), find_chars(&c, &end)) {
        (Some(s), Some(e)) => s as u128 <= e as u128 + end.len() as u128,
        _ => true,
    }
}

/// Whether the hosts file holds the bypass block (its start marker).
pub fn hosts_status(content: &str) -> (r: bool)
    ensures
        r == contains(content@, marker_start()),
{
    let c = chars_of(content);
    let start = chars_of("# === FREENET BLOCK BYPASS START ===");
    has_infix(&c, &start)
}

/// The names joined with ", ".
pub open spec fn join_names(ps: Seq<Seq<char>>, n: nat) -> Seq<char>
    decreases n,
{
    if n == 0 || n > ps.len() {
        seq![]
    } else if n == 1 {
        ps[0]
    } else {
        join_names(ps, (n - 1) as nat) + ", "@ + ps[n - 1]
    }
}

pub open spec fn joined(ps: Seq<Seq<char>>) -> Seq<char> {
    join_names(ps, ps.len())
}

/// Each entry list followed by a newline.
pub open spec fn entries_text(es: Seq<Seq<char>>, n: nat) -> Seq<char>
    decreases n,
{
    if n == 0 || n > es.len() {
        seq![]
    } else {
        entries_text(es, (n - 1) as nat) + es[n - 1] + seq!['\n']
    }
}

/// The block appended to the hosts file: a comment naming the providers,
/// the start marker, the entries of each provider, the end marker.
pub open spec fn hosts_block(ps: Seq<Seq<char>>, es: Seq<Seq<char>>) -> Seq<char> {
    "\n# FREENET hosts providers: "@ + joined(ps) + "\n"@ + marker_start() + "\n"@ + entries_text(
        es,
        es.len(),
    ) + marker_end() + "\n"@
}

fn join_strings(ps: &Vec<String>) -> (r: Vec<char>)
    ensures
        r@ == joined(strs_of(ps@)),
{
    let mut out: Vec<char> = Vec::new();
    let sep = chars_of(", ");
    for i in 0..ps.len()
        invariant
            sep@ == ", "@,
            out@ == join_names(strs_of(ps@), i as nat),
    {
        if i > 0 {
            extend(&mut out, &sep);
        }
        extend(&mut out, &chars_of(ps[i].as_str()));
        assert(strs_of(ps@)[i as int] == ps@[i as int]@);
        assert(out@ =~= join_names(strs_of(ps@), (i + 1) as nat));
    }
    out
}

/// The hosts file after switching the bypass: the old block cut out, and,
/// when enabling, a new block for the selected providers appended.
/// `entries` holds, provider by provider, the entries fetched for it.
pub open spec fn hosts_content_spec(
    content: Seq<char>,
    enabled: bool,
    providers: Seq<Seq<char>>,
    entries: Seq<Seq<char>>,
) -> Result<Seq<char>, Seq<char>> {
    if enabled && providers.len() == 0 {
        Err("No hosts providers selected"@)
    } else if enabled {
        Ok(strip_block(content) + hosts_block(providers, entries))
    } else {
        Ok(strip_block(content))
    }
}

/// The new hosts file for switching the bypass on or off.
pub fn hosts_bypass_content(content: &str, enabled: bool, providers: &Vec<String>, entries: &Vec<String>) -> (r:
    Result<String, String>)
    requires
        markers_ordered(content@),
    ensures
        match r {
            Ok(s) => hosts_content_spec(content@, enabled, strs_of(providers@), strs_of(entries@))
                == Ok::<Seq<char>, Seq<char>>(s@),
            Err(e) => hosts_content_spec(content@, enabled, strs_of(providers@), strs_of(entries@))
                == Err::<Seq<char>, Seq<char>>(e@),
        },
        enabled ==> (r matches Ok(s) ==> contains(s@, marker_start())),
{
    let c = chars_of(content);
    let mut out = strip_chars(&c);
    if enabled {
        if providers.len() == 0 {
            return Err(owned("No hosts providers selected"));
        }
        let ghost base = out@;
        let block = block_chars(providers, entries);
        extend(&mut out, &block);
        proof {
            lemma_block_marked(strs_of(providers@), strs_of(entries@));
            let k = choose|k: int| occurs_at(block@, marker_start(), k);
            assert(out@.subrange(base.len() + k, base.len() + k + marker_start().len()) =~= block@.subrange(
                k,
                k + marker_start().len(),
            ));
            assert(occurs_at(out@, marker_start(), base.len() + k));
        }
    }
    Ok(string_of(&out))
}

fn strip_chars(c: &Vec<char>) -> (r: Vec<char>)
    requires
        markers_ordered(c@),
    ensures
        r@ == strip_block(c@),
{
    let start = chars_of("# === FREENET BLOCK BYPASS START ===");
    let end = chars_of("# === FREENET BLOCK BYPASS END ===");
    match (find_chars(c, &start), find_chars(c, &end)) {
        (Some(s), Some(e)) => {
            proof {
                lemma_find_from_occurs(c@, start@, 0);
                lemma_find_from_occurs(c@, end@, 0);
            }
            let mut kept = slice_chars(c, 0, s);
            let tail = slice_chars(c, e + end.len(), c.len());
            extend(&mut kept, &tail);
            assert(kept@ =~= strip_block(c@));
            kept
        },
        _ => slice_chars(c, 0, c.len()),
    }
}

proof fn lemma_block_marked(ps: Seq<Seq<char>>, es: Seq<Seq<char>>)
    ensures
        contains(hosts_block(ps, es), marker_start()),
{
    let pre = "\n# FREENET hosts providers: "@ + joined(ps) + "\n"@;
    let b = hosts_block(ps, es);
    assert(b.subrange(pre.len() as int, (pre.len() + marker_start().len()) as int) =~= marker_start());
    assert(occurs_at(b, marker_start(), pre.len() as int));
}

fn block_chars(providers: &Vec<String>, entries: &Vec<String>) -> (r: Vec<char>)
    ensures
        r@ == hosts_block(strs_of(providers@), strs_of(entries@)),
{
    let start = chars_of("# === FREENET BLOCK BYPASS START ===");
    let end = chars_of("# === FREENET BLOCK BYPASS END ===");
    proof {
        reveal_strlit("\n");
    }
    let mut out = chars_of("\n# FREENET hosts providers: ");
    extend(&mut out, &join_strings(providers));
    out.push('\n');
    extend(&mut out, &start);
    out.push('\n');
    let ghost mid = out@;
    assert(mid =~= "\n# FREENET hosts providers: "@ + joined(strs_of(providers@)) + "\n"@
        + marker_start() + "\n"@);
    for i in 0..entries.len()
        invariant
            out@ == mid + entries_text(strs_of(entries@), i as nat),
    {
        extend(&mut out, &chars_of(entries[i].as_str()));
        out.push('\n');
        assert(strs_of(entries@)[i as int] == entries@[i as int]@);
        assert(out@ =~= mid + entries_text(strs_of(entries@), (i + 1) as nat));
    }
    let ghost before_end = out@;
    extend(&mut out, &end);
    out.push('\n');
    assert(out@ =~= before_end + marker_end() + "\n"@);
    assert(out@ =~= hosts_block(strs_of(providers@), strs_of(entries@)));
    out
}

pub proof fn lemma_find_from_occurs(s: Seq<char>, p: Seq<char>, i: int)
    requires
        find_from(s, p, i) >= 0,
    ensures
        occurs_at(s, p, find_from(s, p, i)),
        find_from(s, p, i) >= i,
    decreases s.len() + 1 - i,
{
    if !(i < 0 || i + p.len() > s.len()) && !occurs_at(s, p, i) {
        lemma_find_from_occurs(s, p, i + 1);
    }
}

/// The message shown after switching the hosts bypass.
pub open spec fn hosts_message_spec(enabled: bool, providers: Seq<Seq<char>>) -> Seq<char> {
    if enabled {
        "Hosts bypass enabled (providers: "@ + joined(providers) + ")"@
    } else {
        "Hosts bypass disabled"@
    }
}

pub fn hosts_bypass_message(enabled: bool, providers: &Vec<String>) -> (r: String)
    ensures
        r@ == hosts_message_spec(enabled, strs_of(providers@)),
{
    if enabled {
        let mut out = chars_of("Hosts bypass enabled (providers: ");
        extend(&mut out, &join_strings(providers));
        out.push(')');
        assert(out@ =~= hosts_message_spec(enabled, strs_of(providers@))) by {
            assert(")"@ =~= seq![')']) by {
                reveal_strlit(")");
            }
        }
        string_of(&out)
    } else {
        owned("Hosts bypass disabled")
    }
}

} // verus!
