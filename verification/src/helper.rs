use vstd::prelude::*;

use crate::hotkeys::MediaAction;
use crate::text::{
    all_digits, chars_of, dec, dec_signed, decimal, decimal_signed, digit_char, digit_value,
    digits_value, extend, find_char, has_prefix, index_of, is_digit, is_ws, lemma_index_of, parse_i32,
    parse_i32_spec, parse_unsigned, parse_usize, same, seqs_of, slice_chars, split_at_char,
    split_of, split_state, starts_with, string_of, trim, trim_chars, trim_end, trim_start,
};

verus! {

/// A command received by the helper process over its pipe.
#[derive(Debug, Clone, Copy, PartialEq, Eq)]
pub enum HelperCommand {
    /// Send a media key to the focused player.
    Media(MediaAction),
    /// Stop the helper.
    Quit,
    /// Click at a screen position (moves the cursor).
    Click(i32, i32),
    /// Click a window at a screen position without moving the cursor.
    ClickWindow(usize, i32, i32),
    /// Anything else: no effect.
    Ignore,
}

/// The meaning of a helper command, over mathematical integers.
pub enum CommandMeaning {
    Media(MediaAction),
    Quit,
    Click(int, int),
    ClickWindow(nat, int, int),
    Ignore,
}

pub open spec fn meaning(c: HelperCommand) -> CommandMeaning {
    match c {
        HelperCommand::Media(a) => CommandMeaning::Media(a),
        HelperCommand::Quit => CommandMeaning::Quit,
        HelperCommand::Click(x, y) => CommandMeaning::Click(x as int, y as int),
        HelperCommand::ClickWindow(h, x, y) => CommandMeaning::ClickWindow(h as nat, x as int, y as int),
        HelperCommand::Ignore => CommandMeaning::Ignore,
    }
}

/// "X,Y" with optional white space around the numbers.
pub open spec fn click_coords_spec(c: Seq<char>) -> Option<(int, int)> {
    let t = trim(c);
    let k = index_of(t, ',');
    if k < 0 {
        None
    } else {
        match (parse_i32_spec(trim(t.take(k))), parse_i32_spec(trim(t.skip(k + 1)))) {
            (Some(x), Some(y)) => Some((x, y)),
            _ => None,
        }
    }
}

/// Parses "X,Y" into screen coordinates for a simulated click.
pub fn parse_click_coords(coords: &str) -> (r: Option<(i32, i32)>)
    ensures
        match r {
            Some((x, y)) => click_coords_spec(coords@) == Some((x as int, y as int)),
            None => click_coords_spec(coords@) is None,
        },
{
    let c = chars_of(coords);
    click_coords(&c)
}

fn click_coords(c: &Vec<char>) -> (r: Option<(i32, i32)>)
    ensures
        match r {
            Some((x, y)) => click_coords_spec(c@) == Some((x as int, y as int)),
            None => click_coords_spec(c@) is None,
        },
{
    let t = trim_chars(c);
    let k = match find_char(&t, ',') {
        Some(k) => k,
        None => {
            return None;
        },
    };
    let a = slice_chars(&t, 0, k);
    let b = slice_chars(&t, k + 1, t.len());
    assert(a@ =~= t@.take(k as int));
    assert(b@ =~= t@.skip(k + 1));
    let x = parse_i32(&trim_chars(&a));
    let y = parse_i32(&trim_chars(&b));
    match (x, y) {
        (Some(x), Some(y)) => Some((x, y)),
        _ => None,
    }
}

pub open spec fn media_word(cmd: Seq<char>) -> Option<MediaAction> {
    if cmd == "play_pause"@ {
        Some(MediaAction::PlayPause)
    } else if cmd == "next"@ {
        Some(MediaAction::Next)
    } else if cmd == "prev"@ {
        Some(MediaAction::Prev)
    } else {
        None
    }
}

pub open spec fn click_window_spec(rest: Seq<char>) -> CommandMeaning {
    let parts = split_of(rest, ',');
    if parts.len() != 3 {
        CommandMeaning::Ignore
    } else {
        match (
            parse_unsigned(trim(parts[0]), usize::MAX as nat),
            parse_i32_spec(trim(parts[1])),
            parse_i32_spec(trim(parts[2])),
        ) {
            (Some(h), Some(x), Some(y)) => CommandMeaning::ClickWindow(h, x, y),
            _ => CommandMeaning::Ignore,
        }
    }
}

/// What a helper command means: the three media words, `quit`,
/// `click X,Y`, `clickwin HWND,X,Y`; anything else is ignored.
pub open spec fn helper_command_spec(cmd: Seq<char>) -> CommandMeaning {
    if media_word(cmd) is Some {
        CommandMeaning::Media(media_word(cmd)->0)
    } else if cmd == "quit"@ {
        CommandMeaning::Quit
    } else if starts_with(cmd, "click "@) {
        match click_coords_spec(cmd.skip(6)) {
            Some((x, y)) => CommandMeaning::Click(x, y),
            None => CommandMeaning::Ignore,
        }
    } else if starts_with(cmd, "clickwin "@) {
        click_window_spec(cmd.skip(9))
    } else {
        CommandMeaning::Ignore
    }
}

/// Decodes a command received by the helper process.
pub fn parse_helper_command(cmd: &str) -> (r: HelperCommand)
    ensures
        meaning(r) == helper_command_spec(cmd@),
{
    let c = chars_of(cmd);
    if same(&c, &chars_of("play_pause")) {
        return HelperCommand::Media(MediaAction::PlayPause);
    }
    if same(&c, &chars_of("next")) {
        return HelperCommand::Media(MediaAction::Next);
    }
    if same(&c, &chars_of("prev")) {
        return HelperCommand::Media(MediaAction::Prev);
    }
    if same(&c, &chars_of("quit")) {
        return HelperCommand::Quit;
    }
    let click = chars_of("click ");
    if has_prefix(&c, &click) {
        proof {
            reveal_strlit("click ");
        }
        let rest = slice_chars(&c, 6, c.len());
        assert(rest@ =~= c@.skip(6));
        return match click_coords(&rest) {
            Some((x, y)) => HelperCommand::Click(x, y),
            None => HelperCommand::Ignore,
        };
    }
    let clickwin = chars_of("clickwin ");
    if has_prefix(&c, &clickwin) {
        proof {
            reveal_strlit("clickwin ");
        }
        let rest = slice_chars(&c, 9, c.len());
        assert(rest@ =~= c@.skip(9));
        let parts = split_at_char(&rest, ',');
        if parts.len() != 3 {
            return HelperCommand::Ignore;
        }
        proof {
            assert(seqs_of(parts@)[0] == parts@[0]@);
            assert(seqs_of(parts@)[1] == parts@[1]@);
            assert(seqs_of(parts@)[2] == parts@[2]@);
        }
        let h = parse_usize(&trim_chars(&parts[0]));
        let x = parse_i32(&trim_chars(&parts[1]));
        let y = parse_i32(&trim_chars(&parts[2]));
        return match (h, x, y) {
            (Some(h), Some(x), Some(y)) => HelperCommand::ClickWindow(h, x, y),
            _ => HelperCommand::Ignore,
        };
    }
    HelperCommand::Ignore
}

/// The command that asks the helper to click window `hwnd` at `(x, y)`.
pub open spec fn click_window_command_spec(hwnd: nat, x: int, y: int) -> Seq<char> {
    "clickwin "@ + dec(hwnd) + seq![','] + dec_signed(x) + seq![','] + dec_signed(y)
}

/// Builds the command that asks the helper to click window `hwnd` at `(x, y)`.
pub fn click_window_command(hwnd: usize, x: i32, y: i32) -> (r: String)
    ensures
        r@ == click_window_command_spec(hwnd as nat, x as int, y as int),
{
    let mut out = chars_of("clickwin ");
    extend(&mut out, &decimal(hwnd as u64));
    out.push(',');
    extend(&mut out, &decimal_signed(x as i64));
    out.push(',');
    extend(&mut out, &decimal_signed(y as i64));
    string_of(&out)
}

/// The `APPCOMMAND_MEDIA_*` code of a media action.
pub open spec fn app_command_spec(action: MediaAction) -> u32 {
    match action {
        MediaAction::PlayPause => 14,
        MediaAction::Next => 11,
        MediaAction::Prev => 12,
    }
}

/// The `lParam` of the `WM_APPCOMMAND` message that plays, pauses or skips:
/// the media command code in bits 16 and up.
pub fn app_command_lparam(action: MediaAction) -> (r: i64)
    ensures
        r == app_command_spec(action) as int * 65536,
{
    let cmd: i64 = match action {
        MediaAction::PlayPause => 14,
        MediaAction::Next => 11,
        MediaAction::Prev => 12,
    };
    let r = cmd << 16;
    assert(0 <= cmd <= 14 ==> cmd << 16 == cmd * 65536) by (bit_vector);
    r
}

/// The `lParam` of a mouse button message at client point `(x, y)`: `y`
/// shifted into bits 16 and up, the low 16 bits of `x` below it.
pub fn click_lparam(x: i32, y: i32) -> (r: i64)
    ensures
        r == y as int * 65536 + (x as int) % 65536,
{
    let xi = x as i64;
    let yi = y as i64;
    let lo = xi & 0xFFFF;
    let r = (yi << 16) | lo;
    assert(-0x8000_0000 <= yi < 0x8000_0000 ==> (yi << 16) | (xi & 0xFFFF) == yi * 65536 + (xi & 0xFFFF))
        by (bit_vector);
    assert(xi & 0xFFFF == xi - 65536 * (xi >> 16) && 0 <= xi & 0xFFFF < 65536) by (bit_vector);
    assert(xi >> 16 == (xi as int) / 65536) by (bit_vector);
    r
}

} // verus!

verus! {

proof fn lemma_digit(d: nat)
    requires
        d < 10,
    ensures
        digit_value(digit_char(d)) == d,
        is_digit(digit_char(d)),
{
    assert(digit_char(d) as u32 == d + 48);
}

pub proof fn lemma_dec_digits(n: nat)
    ensures
        dec(n).len() > 0,
        all_digits(dec(n)),
        digits_value(dec(n)) == n,
    decreases n,
{
    lemma_digit(n % 10);
    if n < 10 {
        lemma_digit(n);
        assert(dec(n).drop_last() =~= Seq::<char>::empty());
        assert(digits_value(dec(n)) == digits_value(Seq::<char>::empty()) * 10 + digit_value(digit_char(n)));
    } else {
        lemma_dec_digits(n / 10);
        let d = dec(n / 10);
        assert(dec(n).drop_last() =~= d);
        assert(dec(n).last() == digit_char(n % 10));
        assert((n / 10) * 10 + n % 10 == n) by (nonlinear_arith);
        assert(digits_value(dec(n)) == digits_value(d) * 10 + digit_value(digit_char(n % 10)));
        assert forall|i: int| 0 <= i < dec(n).len() implies is_digit(#[trigger] dec(n)[i]) by {
            if i < d.len() {
                assert(dec(n)[i] == d[i]);
            }
        }
    }
}

proof fn lemma_no_ws_ends(s: Seq<char>)
    requires
        s.len() > 0,
        !is_ws(s[0]),
        !is_ws(s.last()),
    ensures
        trim(s) == s,
{
}

proof fn lemma_dec_signed(x: int)
    requires
        -2147483648 <= x <= 2147483647,
    ensures
        parse_i32_spec(dec_signed(x)) == Some(x),
        trim(dec_signed(x)) == dec_signed(x),
        !dec_signed(x).contains(','),
        dec_signed(x).len() > 0,
        !is_ws(dec_signed(x)[0]),
        !is_ws(dec_signed(x).last()),
{
    if x < 0 {
        let m = (-x) as nat;
        lemma_dec_digits(m);
        let s = dec_signed(x);
        assert(s.drop_first() =~= dec(m));
        assert(s.last() == dec(m).last());
        assert(is_digit(dec(m)[dec(m).len() - 1]));
        lemma_no_ws_ends(s);
        if s.contains(',') {
            let i = choose|i: int| 0 <= i < s.len() && s[i] == ',';
            assert(s[i] == dec(m)[i - 1]);
            assert(is_digit(dec(m)[i - 1]));
        }
    } else {
        let m = x as nat;
        lemma_dec_digits(m);
        assert(is_digit(dec(m)[0]));
        assert(is_digit(dec(m)[dec(m).len() - 1]));
        lemma_no_ws_ends(dec(m));
        if dec(m).contains(',') {
            let i = choose|i: int| 0 <= i < dec(m).len() && dec(m)[i] == ',';
            assert(is_digit(dec(m)[i]));
        }
    }
}

proof fn lemma_split_prefix(s: Seq<char>, sep: char, a: Seq<char>, k: nat)
    requires
        a.len() <= s.len(),
        s.take(a.len() as int) == a,
        !a.contains(sep),
        k <= a.len(),
    ensures
        split_state(s, sep, k) == (Seq::<Seq<char>>::empty(), a.take(k as int)),
    decreases k,
{
    if k > 0 {
        lemma_split_prefix(s, sep, a, (k - 1) as nat);
        assert(s[k - 1] == a[k - 1]);
        if a[k - 1] == sep {
            assert(a.contains(sep));
        }
        assert(a.take(k as int) =~= a.take(k - 1).push(a[k - 1]));
    }
}

proof fn lemma_split_concat(a: Seq<char>, b: Seq<char>, sep: char)
    requires
        !a.contains(sep),
    ensures
        split_of(a + seq![sep] + b, sep) == seq![a] + split_of(b, sep),
{
    let s = a + seq![sep] + b;
    assert(s.take(a.len() as int) =~= a);
    lemma_split_prefix(s, sep, a, a.len());
    assert(a.take(a.len() as int) =~= a);
    assert(s[a.len() as int] == sep);
    assert(split_state(s, sep, a.len() + 1) == (seq![a], Seq::<char>::empty()));
    lemma_split_tail(a, b, sep, b.len());
    let bst = split_state(b, sep, b.len());
    assert((seq![a] + bst.0).push(bst.1) =~= seq![a] + bst.0.push(bst.1));
}

proof fn lemma_split_tail(a: Seq<char>, b: Seq<char>, sep: char, m: nat)
    requires
        m <= b.len(),
        split_state(a + seq![sep] + b, sep, a.len() + 1) == (seq![a], Seq::<char>::empty()),
    ensures
        split_state(a + seq![sep] + b, sep, a.len() + 1 + m) == (
            seq![a] + split_state(b, sep, m).0,
            split_state(b, sep, m).1,
        ),
    decreases m,
{
    let s = a + seq![sep] + b;
    if m == 0 {
        assert(seq![a] + Seq::<Seq<char>>::empty() =~= seq![a]);
    } else {
        lemma_split_tail(a, b, sep, (m - 1) as nat);
        assert(s[a.len() + 1 + m - 1] == b[m - 1]);
        let prev = split_state(b, sep, (m - 1) as nat);
        assert((seq![a] + prev.0).push(prev.1) =~= seq![a] + prev.0.push(prev.1));
    }
}

proof fn lemma_split_single(c: Seq<char>, sep: char)
    requires
        !c.contains(sep),
    ensures
        split_of(c, sep) == seq![c],
{
    assert(c.take(c.len() as int) =~= c);
    lemma_split_prefix(c, sep, c, c.len());
    assert(c.take(c.len() as int) == c);
    assert(Seq::<Seq<char>>::empty().push(c) =~= seq![c]);
}

/// The helper reads back exactly the window click that the auto-accept
/// loop asks for.
pub proof fn law_click_window_roundtrip(hwnd: nat, x: int, y: int)
    requires
        hwnd <= usize::MAX,
        -2147483648 <= x <= 2147483647,
        -2147483648 <= y <= 2147483647,
    ensures
        helper_command_spec(click_window_command_spec(hwnd, x, y)) == CommandMeaning::ClickWindow(
            hwnd,
            x,
            y,
        ),
{
    reveal_strlit("clickwin ");
    reveal_strlit("click ");
    reveal_strlit("play_pause");
    reveal_strlit("next");
    reveal_strlit("prev");
    reveal_strlit("quit");
    let a = dec(hwnd);
    let b = dec_signed(x);
    let c = dec_signed(y);
    let rest = a + seq![','] + b + seq![','] + c;
    let cmd = click_window_command_spec(hwnd, x, y);
    assert(cmd =~= "clickwin "@ + rest);
    lemma_dec_digits(hwnd);
    lemma_dec_signed(x);
    lemma_dec_signed(y);
    assert(!a.contains(',')) by {
        if a.contains(',') {
            let i = choose|i: int| 0 <= i < a.len() && a[i] == ',';
            assert(is_digit(a[i]));
        }
    }
    assert(is_digit(a[0]));
    assert(is_digit(a[a.len() - 1]));
    lemma_no_ws_ends(a);
    lemma_split_concat(a, b + seq![','] + c, ',');
    assert(a + seq![','] + (b + seq![','] + c) =~= rest);
    lemma_split_concat(b, c, ',');
    lemma_split_single(c, ',');
    let parts = split_of(rest, ',');
    assert(parts =~= seq![a, b, c]);
    assert(parse_unsigned(a, usize::MAX as nat) == Some(hwnd));
    assert(cmd.len() > 10);
    assert(cmd != "play_pause"@);
    assert(cmd[5] == 'w');
    assert(!starts_with(cmd, "click "@)) by {
        if starts_with(cmd, "click "@) {
            assert(cmd.take(6)[5] == ' ');
        }
    }
    assert(cmd.take(9) =~= "clickwin "@);
    assert(cmd.skip(9) =~= rest);
}

proof fn lemma_trim_space_after(a: Seq<char>)
    requires
        a.len() > 0,
        !is_ws(a[0]),
        !is_ws(a.last()),
    ensures
        trim(a + seq![' ']) == a,
        trim(seq![' '] + a) == a,
        trim(seq![' '] + a + seq![' ']) == a,
{
    let s1 = a + seq![' '];
    assert(trim_start(s1) == s1);
    assert(s1.drop_last() =~= a);
    assert(trim_end(s1) == trim_end(a));
    let s2 = seq![' '] + a;
    assert(s2.drop_first() =~= a);
    assert(trim_start(s2) == trim_start(a));
    let s3 = seq![' '] + a + seq![' '];
    assert(s3.drop_first() =~= s1);
    assert(trim_start(s3) == trim_start(s1));
}

/// Click coordinates written as "X,Y", also with spaces around the numbers,
/// read back as the same point; a number without a comma is no point.
pub proof fn law_click_coords_read_back(x: int, y: int)
    requires
        -2147483648 <= x <= 2147483647,
        -2147483648 <= y <= 2147483647,
    ensures
        click_coords_spec(dec_signed(x) + seq![','] + dec_signed(y)) == Some((x, y)),
        click_coords_spec(seq![' '] + dec_signed(x) + seq![' ', ',', ' '] + dec_signed(y) + seq![' '])
            == Some((x, y)),
        click_coords_spec(dec_signed(x)) is None,
{
    let a = dec_signed(x);
    let b = dec_signed(y);
    lemma_dec_signed(x);
    lemma_dec_signed(y);
    // "X,Y"
    let s = a + seq![','] + b;
    assert(s[0] == a[0]);
    assert(s.last() == b.last());
    lemma_no_ws_ends(s);
    assert forall|k: int| 0 <= k < a.len() implies s[k] != ',' by {
        assert(s[k] == a[k]);
        assert(!a.contains(','));
    }
    lemma_index_of(s, ',', a.len() as int);
    assert(s.take(a.len() as int) =~= a);
    assert(s.skip(a.len() as int + 1) =~= b);
    // " X , Y "
    let m = a + seq![' ', ',', ' '] + b;
    let t = seq![' '] + a + seq![' ', ',', ' '] + b + seq![' '];
    assert(t =~= seq![' '] + m + seq![' ']);
    assert(m[0] == a[0]);
    assert(m.last() == b.last());
    lemma_trim_space_after(m);
    assert forall|k: int| 0 <= k < a.len() + 1 implies m[k] != ',' by {
        if k < a.len() {
            assert(m[k] == a[k]);
            assert(!a.contains(','));
        }
    }
    lemma_index_of(m, ',', a.len() as int + 1);
    assert(m.take(a.len() as int + 1) =~= a + seq![' ']);
    assert(m.skip(a.len() as int + 2) =~= seq![' '] + b);
    lemma_trim_space_after(a);
    lemma_trim_space_after(b);
    // "X"
    lemma_no_ws_ends(a);
    assert forall|k: int| 0 <= k < a.len() implies a[k] != ',' by {
        assert(!a.contains(','));
    }
    lemma_index_of(a, ',', a.len() as int);
}

/// The name of the pipe the helper of process `pid` listens on.
pub open spec fn pipe_name_spec(pid: nat) -> Seq<char> {
    "\\\\.\\pipe\\FREENET_MEDIA_"@ + dec(pid)
}

pub fn media_pipe_name(pid: u32) -> (r: String)
    ensures
        r@ == pipe_name_spec(pid as nat),
{
    let mut out = chars_of("\\\\.\\pipe\\FREENET_MEDIA_");
    extend(&mut out, &decimal(pid as u64));
    string_of(&out)
}

/// The system error "all pipe instances are busy".
pub const ERROR_PIPE_BUSY: u32 = 231;

/// The system error "the system cannot find the file specified".
pub const ERROR_FILE_NOT_FOUND: u32 = 2;

/// Whether a failed attempt (numbered from 0) to open the helper's pipe is
/// followed by another: only while the pipe is busy or not yet there, and at
/// most three attempts in all.
pub fn pipe_should_retry(attempt: u32, error: u32) -> (r: bool)
    ensures
        r == ((error == ERROR_PIPE_BUSY || error == ERROR_FILE_NOT_FOUND) && attempt < 2),
{
    (error == ERROR_PIPE_BUSY || error == ERROR_FILE_NOT_FOUND) && attempt < 2
}

} // verus!
