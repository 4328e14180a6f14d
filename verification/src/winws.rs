use vstd::prelude::*;

use crate::text::{
    chars_of, contains, ends_with, extend, has_infix, has_prefix, has_suffix, lines, lines_of, owned,
    replace, replace_all, seqs_of, slice_chars, starts_with, string_of, strings_of, strs_of, trim, trim_chars,
};

verus! {

// ---------------------------------------------------------------------------
// Reading the winws command line out of a zapret strategy (.bat) file
// ---------------------------------------------------------------------------

pub open spec fn trim_end_caret(s: Seq<char>) -> Seq<char>
    decreases s.len(),
{
    if s.len() > 0 && s.last() == '^' {
        trim_end_caret(s.drop_last())
    } else {
        s
    }
}

/// A batch line without surrounding white space and without its trailing
/// `^` continuation marks.
pub open spec fn clean_line(l: Seq<char>) -> Seq<char> {
    trim(trim_end_caret(trim(l)))
}

/// One step of the scan for the winws command: the collected command, whether
/// the scan is inside the command, whether it has ended.
pub open spec fn scan_step(st: (Seq<char>, bool, bool), t: Seq<char>) -> (Seq<char>, bool, bool) {
    if st.2 {
        st
    } else if contains(t, "winws.exe"@) {
        (t, true, false)
    } else if st.1 && (starts_with(t, "--"@) || t.len() == 0) {
        if t.len() > 0 {
            (st.0 + seq![' '] + t, true, false)
        } else {
            st
        }
    } else if st.1 {
        (st.0, true, true)
    } else {
        st
    }
}

pub open spec fn scan_lines(ls: Seq<Seq<char>>, n: nat) -> (Seq<char>, bool, bool)
    decreases n,
{
    if n == 0 || n > ls.len() {
        (seq![], false, false)
    } else {
        scan_step(scan_lines(ls, (n - 1) as nat), clean_line(ls[n - 1]))
    }
}

/// The winws command of a batch file: the last line naming `winws.exe`
/// together with the `--` option lines (and blank lines) that follow it.
pub open spec fn winws_command_line(content: Seq<char>) -> Seq<char> {
    let ls = lines_of(content);
    scan_lines(ls, ls.len()).0
}

/// The command line with the batch placeholders replaced, in this order:
/// `%~dp0`, `%BIN%`, `%LISTS%` by their folders followed by `\`, and the game
/// filters `%GameFilterTCP%`, `%GameFilterUDP%`, `%GameFilter%` by `12`.
pub open spec fn expand_placeholders(
    line: Seq<char>,
    bat_dir: Seq<char>,
    bin_dir: Seq<char>,
    lists_dir: Seq<char>,
) -> Seq<char> {
    let e1 = replace_all(line, "%~dp0"@, bat_dir.push('\\'));
    let e2 = replace_all(e1, "%BIN%"@, bin_dir.push('\\'));
    let e3 = replace_all(e2, "%LISTS%"@, lists_dir.push('\\'));
    let e4 = replace_all(e3, "%GameFilterTCP%"@, "12"@);
    let e5 = replace_all(e4, "%GameFilterUDP%"@, "12"@);
    replace_all(e5, "%GameFilter%"@, "12"@)
}

/// Arguments found, argument in progress and quoting, after `n` characters.
pub open spec fn tokens_state(s: Seq<char>, n: nat) -> (Seq<Seq<char>>, Seq<char>, bool)
    decreases n,
{
    if n == 0 || n > s.len() {
        (seq![], seq![], false)
    } else {
        let st = tokens_state(s, (n - 1) as nat);
        let c = s[n - 1];
        if c == '"' {
            (st.0, st.1, !st.2)
        } else if (c == ' ' || c == '\t') && !st.2 {
            if st.1.len() > 0 {
                (st.0.push(st.1), seq![], st.2)
            } else {
                st
            }
        } else {
            (st.0, st.1.push(c), st.2)
        }
    }
}

/// The arguments of a command line: separated by spaces or tabs outside
/// double quotes, quotes removed, empty arguments dropped.
pub open spec fn tokens_of(s: Seq<char>) -> Seq<Seq<char>> {
    let st = tokens_state(s, s.len());
    if st.1.len() > 0 {
        st.0.push(st.1)
    } else {
        st.0
    }
}

proof fn lemma_tokens_same_start(s: Seq<char>, t: Seq<char>, k: nat)
    requires
        k <= s.len(),
        k <= t.len(),
        forall|i: int| 0 <= i < k ==> s[i] == t[i],
    ensures
        tokens_state(s, k) == tokens_state(t, k),
    decreases k,
{
    if k > 0 {
        lemma_tokens_same_start(s, t, (k - 1) as nat);
    }
}

proof fn lemma_tokens_unquoted(s: Seq<char>, k: nat)
    requires
        k <= s.len(),
        forall|i: int| 0 <= i < k ==> s[i] != '"',
    ensures
        !tokens_state(s, k).2,
    decreases k,
{
    if k > 0 {
        lemma_tokens_unquoted(s, (k - 1) as nat);
    }
}

proof fn lemma_tokens_quoted_run(s: Seq<char>, start: nat, x: Seq<char>, k: nat)
    requires
        start + x.len() <= s.len(),
        k <= x.len(),
        forall|i: int| 0 <= i < x.len() ==> s[start + i] == x[i] && x[i] != '"',
        tokens_state(s, start).1.len() == 0,
        tokens_state(s, start).2,
    ensures
        tokens_state(s, start + k) == (tokens_state(s, start).0, x.take(k as int), true),
    decreases k,
{
    if k == 0 {
        assert(x.take(0) =~= Seq::<char>::empty());
        assert(tokens_state(s, start).1 =~= Seq::<char>::empty());
    } else {
        lemma_tokens_quoted_run(s, start, x, (k - 1) as nat);
        assert(s[start + k - 1] == x[k - 1]);
        assert(x.take(k - 1).push(x[k - 1]) =~= x.take(k as int));
    }
}

/// Double quotes group an argument: a space or tab inside them does not
/// split it, and the quotes themselves are dropped. A quoted argument `x`
/// written after a command line without quotes is one more argument,
/// exactly `x`.
pub proof fn law_quoted_argument_kept_whole(prefix: Seq<char>, x: Seq<char>)
    requires
        x.len() > 0,
        !x.contains('"'),
        !prefix.contains('"'),
    ensures
        tokens_of(prefix + seq![' ', '"'] + x + seq!['"']) == tokens_of(prefix).push(x),
        tokens_of(seq!['"'] + x + seq!['"']) == seq![x],
{
    lemma_quoted_after(prefix, x);
    lemma_quoted_after(Seq::<char>::empty(), x);
    let e = Seq::<char>::empty();
    let s1 = e + seq![' ', '"'] + x + seq!['"'];
    let s2 = seq!['"'] + x + seq!['"'];
    // A leading space changes nothing.
    assert(tokens_state(e, 0) == (Seq::<Seq<char>>::empty(), Seq::<char>::empty(), false));
    assert(s1.drop_first() =~= s2);
    lemma_tokens_shift(s1, s2, x.len() + 2);
    assert(tokens_of(e) =~= Seq::<Seq<char>>::empty());
    assert(Seq::<Seq<char>>::empty().push(x) =~= seq![x]);
}

proof fn lemma_tokens_shift(s1: Seq<char>, s2: Seq<char>, k: nat)
    requires
        s1.len() == s2.len() + 1,
        s1[0] == ' ',
        forall|i: int| 0 <= i < s2.len() ==> s1[i + 1] == s2[i],
        k <= s2.len(),
    ensures
        tokens_state(s1, k + 1) == tokens_state(s2, k),
    decreases k,
{
    if k > 0 {
        lemma_tokens_shift(s1, s2, (k - 1) as nat);
        assert(s1[k as int] == s2[k - 1]);
    } else {
        assert(tokens_state(s1, 0) == (Seq::<Seq<char>>::empty(), Seq::<char>::empty(), false));
        assert(tokens_state(s1, 1) == (Seq::<Seq<char>>::empty(), Seq::<char>::empty(), false));
    }
}

proof fn lemma_quoted_after(prefix: Seq<char>, x: Seq<char>)
    requires
        x.len() > 0,
        !x.contains('"'),
        !prefix.contains('"'),
    ensures
        tokens_of(prefix + seq![' ', '"'] + x + seq!['"']) == tokens_of(prefix).push(x),
{
    let s = prefix + seq![' ', '"'] + x + seq!['"'];
    let n = prefix.len();
    lemma_tokens_same_start(s, prefix, n);
    assert forall|i: int| 0 <= i < n implies prefix[i] != '"' by {
        if prefix[i] == '"' {
            assert(prefix.contains('"'));
        }
    }
    lemma_tokens_unquoted(prefix, n);
    let p = tokens_state(prefix, n);
    assert(s[n as int] == ' ');
    assert(tokens_state(s, n + 1).0 == tokens_of(prefix));
    assert(tokens_state(s, n + 1).1.len() == 0);
    assert(s[(n + 1) as int] == '"');
    assert(tokens_state(s, n + 2) == (tokens_of(prefix), Seq::<char>::empty(), true));
    assert forall|i: int| 0 <= i < x.len() implies s[n + 2 + i] == x[i] && x[i] != '"' by {
        if x[i] == '"' {
            assert(x.contains('"'));
        }
    }
    lemma_tokens_quoted_run(s, n + 2, x, x.len());
    assert(x.take(x.len() as int) =~= x);
    assert(s[(n + 2 + x.len()) as int] == '"');
    assert(s.len() == n + 2 + x.len() + 1);
    assert(tokens_state(s, s.len()) == (tokens_of(prefix), x, false));
}

proof fn lemma_tokens_word_run(s: Seq<char>, start: nat, b: Seq<char>, k: nat)
    requires
        start + b.len() <= s.len(),
        k <= b.len(),
        forall|i: int|
            0 <= i < b.len() ==> s[start + i] == b[i] && b[i] != '"' && b[i] != ' ' && b[i] != '\t',
        tokens_state(s, start).1.len() == 0,
        !tokens_state(s, start).2,
    ensures
        tokens_state(s, start + k) == (tokens_state(s, start).0, b.take(k as int), false),
    decreases k,
{
    if k == 0 {
        assert(b.take(0) =~= Seq::<char>::empty());
        assert(tokens_state(s, start).1 =~= Seq::<char>::empty());
    } else {
        lemma_tokens_word_run(s, start, b, (k - 1) as nat);
        assert(s[start + k - 1] == b[k - 1]);
        assert(b.take(k - 1).push(b[k - 1]) =~= b.take(k as int));
    }
}

/// Outside double quotes a space or a tab ends an argument: a word `b`
/// written after a command line without quotes, separated by a space or a
/// tab, is one more argument, exactly `b`.
pub proof fn law_space_separates_arguments(prefix: Seq<char>, sep: char, b: Seq<char>)
    requires
        sep == ' ' || sep == '\t',
        b.len() > 0,
        !b.contains('"') && !b.contains(' ') && !b.contains('\t'),
        !prefix.contains('"'),
    ensures
        tokens_of(prefix + seq![sep] + b) == tokens_of(prefix).push(b),
{
    let s = prefix + seq![sep] + b;
    let n = prefix.len();
    lemma_tokens_same_start(s, prefix, n);
    assert forall|i: int| 0 <= i < n implies prefix[i] != '"' by {
        if prefix[i] == '"' {
            assert(prefix.contains('"'));
        }
    }
    lemma_tokens_unquoted(prefix, n);
    assert(s[n as int] == sep);
    assert(tokens_state(s, n + 1) == (tokens_of(prefix), Seq::<char>::empty(), false));
    assert forall|i: int| 0 <= i < b.len() implies s[n + 1 + i] == b[i] && b[i] != '"' && b[i] != ' '
        && b[i] != '\t' by {
        assert(b.contains(b[i]));
    }
    lemma_tokens_word_run(s, n + 1, b, b.len());
    assert(b.take(b.len() as int) =~= b);
    assert(s.len() == n + 1 + b.len());
}

/// Index just after the first argument that ends with `winws.exe`, or 0.
pub open spec fn args_start(args: Seq<Seq<char>>, n: nat) -> nat
    decreases n,
{
    if n == 0 || n > args.len() {
        0
    } else {
        let prev = args_start(args, (n - 1) as nat);
        if prev == 0 && ends_with(args[n - 1], "winws.exe"@) {
            n
        } else {
            prev
        }
    }
}

proof fn lemma_args_start(args: Seq<Seq<char>>, n: nat)
    requires
        n <= args.len(),
    ensures
        args_start(args, n) == 0 ==> forall|j: int| 0 <= j < n ==> !ends_with(#[trigger] args[j], "winws.exe"@),
        args_start(args, n) > 0 ==> {
            let k = args_start(args, n) - 1;
            &&& 0 <= k < n
            &&& ends_with(args[k], "winws.exe"@)
            &&& forall|j: int| 0 <= j < k ==> !ends_with(#[trigger] args[j], "winws.exe"@)
        },
    decreases n,
{
    if n > 0 {
        lemma_args_start(args, (n - 1) as nat);
    }
}

/// The options handed to winws are the arguments after the first one that
/// names `winws.exe` (everything before it, such as `start "title" /min`,
/// and the program itself are dropped), or all of them when none names it.
pub proof fn law_options_follow_program(args: Seq<Seq<char>>)
    ensures
        (forall|j: int| 0 <= j < args.len() ==> !ends_with(#[trigger] args[j], "winws.exe"@)) ==> args.skip(
            args_start(args, args.len()) as int,
        ) == args,
        forall|k: int|
            0 <= k < args.len() && ends_with(#[trigger] args[k], "winws.exe"@) && (forall|j: int|
                0 <= j < k ==> !ends_with(#[trigger] args[j], "winws.exe"@)) ==> args.skip(
                args_start(args, args.len()) as int,
            ) == args.skip(k + 1),
{
    lemma_args_start(args, args.len());
    if forall|j: int| 0 <= j < args.len() ==> !ends_with(#[trigger] args[j], "winws.exe"@) {
        if args_start(args, args.len()) > 0 {
            let k = args_start(args, args.len()) - 1;
            assert(!ends_with(args[k], "winws.exe"@));
        }
        assert(args.skip(0) =~= args);
    }
    assert forall|k: int|
        0 <= k < args.len() && ends_with(#[trigger] args[k], "winws.exe"@) && (forall|j: int|
            0 <= j < k ==> !ends_with(#[trigger] args[j], "winws.exe"@)) implies args.skip(
        args_start(args, args.len()) as int,
    ) == args.skip(k + 1) by {
        if args_start(args, args.len()) == 0 {
            assert(!ends_with(args[k], "winws.exe"@));
        } else {
            let k2 = args_start(args, args.len()) - 1;
            if k2 < k {
                assert(!ends_with(args[k2], "winws.exe"@));
            } else if k2 > k {
                assert(!ends_with(args[k], "winws.exe"@));
            }
        }
    }
}

/// The arguments that winws is to be started with.
pub open spec fn winws_args(
    content: Seq<char>,
    bat_dir: Seq<char>,
    bin_dir: Seq<char>,
    lists_dir: Seq<char>,
) -> Seq<Seq<char>> {
    let line = expand_placeholders(winws_command_line(content), bat_dir, bin_dir, lists_dir);
    let args = tokens_of(line);
    args.skip(args_start(args, args.len()) as int)
}

fn collect_command_line(content: &Vec<char>) -> (r: Vec<char>)
    ensures
        r@ == winws_command_line(content@),
{
    let ls = lines(content);
    let marker = chars_of("winws.exe");
    let dashes = chars_of("--");
    let mut line: Vec<char> = Vec::new();
    let mut active = false;
    let mut stopped = false;
    for i in 0..ls.len()
        invariant
            marker@ == "winws.exe"@,
            dashes@ == "--"@,
            seqs_of(ls@) == lines_of(content@),
            (line@, active, stopped) == scan_lines(seqs_of(ls@), i as nat),
    {
        let ghost st = (line@, active, stopped);
        let t0 = trim_chars(&ls[i]);
        let mut k = t0.len();
        proof {
            assert(t0@.take(t0@.len() as int) =~= t0@);
        }
        while k > 0 && t0[k - 1] == '^'
            invariant
                k <= t0.len(),
                trim_end_caret(t0@) == trim_end_caret(t0@.take(k as int)),
            decreases k,
        {
            assert(t0@.take(k as int).drop_last() =~= t0@.take(k - 1));
            k -= 1;
        }
        let t1 = slice_chars(&t0, 0, k);
        let t = trim_chars(&t1);
        proof {
            assert(t1@ =~= t0@.take(k as int));
            assert(seqs_of(ls@)[i as int] == ls@[i as int]@);
            assert(t@ == clean_line(seqs_of(ls@)[i as int]));
        }
        if !stopped {
            if has_infix(&t, &marker) {
                line = t;
                active = true;
            } else if active && (has_prefix(&t, &dashes) || t.len() == 0) {
                if t.len() > 0 {
                    line.push(' ');
                    extend(&mut line, &t);
                }
            } else if active {
                stopped = true;
            }
        }
        proof {
            assert((line@, active, stopped) == scan_step(st, t@));
        }
    }
    line
}

fn tokenize(s: &Vec<char>) -> (r: Vec<Vec<char>>)
    ensures
        seqs_of(r@) == tokens_of(s@),
{
    let mut done: Vec<Vec<char>> = Vec::new();
    let mut cur: Vec<char> = Vec::new();
    let mut quoted = false;
    for i in 0..s.len()
        invariant
            seqs_of(done@) == tokens_state(s@, i as nat).0,
            cur@ == tokens_state(s@, i as nat).1,
            quoted == tokens_state(s@, i as nat).2,
    {
        let c = s[i];
        if c == '"' {
            quoted = !quoted;
        } else if (c == ' ' || c == '\t') && !quoted {
            if cur.len() > 0 {
                let w = cur;
                done.push(w);
                cur = Vec::new();
            }
        } else {
            cur.push(c);
        }
        assert(seqs_of(done@) =~= tokens_state(s@, (i + 1) as nat).0);
    }
    if cur.len() > 0 {
        done.push(cur);
        assert(seqs_of(done@) =~= tokens_of(s@));
    }
    done
}

/// A file or folder `name` inside folder `dir`, as a Windows path: joined
/// with `\` unless `dir` is empty or already ends with a separator.
pub open spec fn join_path(dir: Seq<char>, name: Seq<char>) -> Seq<char> {
    if dir.len() == 0 || dir.last() == '\\' || dir.last() == '/' {
        dir + name
    } else {
        dir.push('\\') + name
    }
}

/// The path of `name` inside folder `dir` (see [`join_path`]).
pub fn join_dir(dir: &str, name: &str) -> (r: String)
    ensures
        r@ == join_path(dir@, name@),
{
    let mut v = chars_of(dir);
    let n = v.len();
    if !(n == 0 || v[n - 1] == '\\' || v[n - 1] == '/') {
        v.push('\\');
    }
    extend(&mut v, &chars_of(name));
    string_of(&v)
}

/// The program that a strategy file in folder `bat_dir` starts:
/// `bin\winws.exe` beside the file.
pub open spec fn winws_exe_path(bat_dir: Seq<char>) -> Seq<char> {
    join_path(join_path(bat_dir, "bin"@), "winws.exe"@)
}

/// Computes the program and the arguments of the winws command in a zapret
/// strategy file.
///
/// `content` is the text of the batch file and `bat_dir` its folder; the
/// placeholders name that folder and its `bin` and `lists` subfolders, and
/// the program is `bin\winws.exe` there. Fails when no line names
/// `winws.exe`.
pub fn parse_winws_command(content: &str, bat_dir: &str) -> (r: Result<(String, Vec<String>), String>)
    ensures
        r is Err <==> winws_command_line(content@).len() == 0,
        r matches Err(e) ==> e@ == "winws.exe not found in bat"@,
        r matches Ok((exe, args)) ==> {
            &&& exe@ == winws_exe_path(bat_dir@)
            &&& strs_of(args@) == winws_args(
                content@,
                bat_dir@,
                join_path(bat_dir@, "bin"@),
                join_path(bat_dir@, "lists"@),
            )
        },
{
    let bin_dir = join_dir(bat_dir, "bin");
    let lists_dir = join_dir(bat_dir, "lists");
    let exe = join_dir(bin_dir.as_str(), "winws.exe");
    match winws_arguments(content, bat_dir, bin_dir.as_str(), lists_dir.as_str()) {
        Ok(args) => Ok((exe, args)),
        Err(e) => Err(e),
    }
}

/// The arguments of the winws command, given the strategy file's folder and
/// its `bin` and `lists` subfolders.
fn winws_arguments(content: &str, bat_dir: &str, bin_dir: &str, lists_dir: &str) -> (r:
    Result<Vec<String>, String>)
    ensures
        r is Err <==> winws_command_line(content@).len() == 0,
        r matches Err(e) ==> e@ == "winws.exe not found in bat"@,
        r matches Ok(args) ==> strs_of(args@) == winws_args(content@, bat_dir@, bin_dir@, lists_dir@),
{
    let text = chars_of(content);
    let line = collect_command_line(&text);
    if line.len() == 0 {
        return Err(owned("winws.exe not found in bat"));
    }
    let mut bat = chars_of(bat_dir);
    bat.push('\\');
    let mut bin = chars_of(bin_dir);
    bin.push('\\');
    let mut lists = chars_of(lists_dir);
    lists.push('\\');
    let twelve = chars_of("12");
    let e1 = replace(&line, &chars_of("%~dp0"), &bat);
    let e2 = replace(&e1, &chars_of("%BIN%"), &bin);
    let e3 = replace(&e2, &chars_of("%LISTS%"), &lists);
    let e4 = replace(&e3, &chars_of("%GameFilterTCP%"), &twelve);
    let e5 = replace(&e4, &chars_of("%GameFilterUDP%"), &twelve);
    let e6 = replace(&e5, &chars_of("%GameFilter%"), &twelve);
    let args = tokenize(&e6);
    let marker = chars_of("winws.exe");
    let mut start: usize = 0;
    let mut i: usize = 0;
    while i < args.len()
        invariant
            i <= args.len(),
            marker@ == "winws.exe"@,
            start == args_start(seqs_of(args@), i as nat),
            start <= i,
        decreases args.len() - i,
    {
        if start == 0 && has_suffix(&args[i], &marker) {
            start = i + 1;
        }
        proof {
            assert(seqs_of(args@)[i as int] == args@[i as int]@);
        }
        i += 1;
    }
    let mut rest: Vec<Vec<char>> = Vec::new();
    let mut j = start;
    while j < args.len()
        invariant
            start <= j <= args.len(),
            seqs_of(rest@) == seqs_of(args@).subrange(start as int, j as int),
        decreases args.len() - j,
    {
        let a = &args[j];
        let copy = slice_chars(a, 0, a.len());
        assert(copy@ =~= a@);
        let ghost old_rest = rest@;
        rest.push(copy);
        proof {
            assert forall|k: int| 0 <= k < rest@.len() implies #[trigger] seqs_of(rest@)[k]
                == seqs_of(args@).subrange(start as int, j + 1)[k] by {
                assert(seqs_of(old_rest).len() == j - start);
                if k < old_rest.len() {
                    assert(rest@[k] == old_rest[k]);
                    assert(seqs_of(old_rest)[k] == seqs_of(args@).subrange(start as int, j as int)[k]);
                } else {
                    assert(k == j - start);
                    assert(rest@[k] == copy);
                    assert(seqs_of(args@)[j as int] == args@[j as int]@);
                }
            }
            assert(seqs_of(rest@).len() == rest@.len());
            assert(rest@.len() == old_rest.len() + 1);
            assert(seqs_of(old_rest).len() == old_rest.len());
            assert(seqs_of(rest@) =~= seqs_of(args@).subrange(start as int, j + 1));
        }
        j += 1;
    }
    assert(seqs_of(args@).subrange(start as int, args@.len() as int) =~= seqs_of(args@).skip(
        start as int,
    ));
    Ok(strings_of(&rest))
}

} // verus!
