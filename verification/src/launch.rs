use vstd::prelude::*;

use crate::helper::lemma_dec_digits;
use crate::text::{
    chars_of, dec, decimal, extend, parse_u32, parse_unsigned, str_eq, string_of, strs_of, trim,
    trim_chars,
};

verus! {

/// The command-line flag that starts the program as the media helper.
pub open spec fn helper_flag() -> Seq<char> {
    "--media-helper"@
}

/// The position of the first entry of `s` from position `i` on that equals `x`.
pub open spec fn first_pos(s: Seq<Seq<char>>, x: Seq<char>, i: int) -> Option<int>
    decreases s.len() - i,
{
    if i < 0 || i >= s.len() {
        None
    } else if s[i] == x {
        Some(i)
    } else {
        first_pos(s, x, i + 1)
    }
}

/// What `str::parse::<u32>` gives.
pub open spec fn parsed_u32(s: Seq<char>) -> Option<u32> {
    match parse_unsigned(s, u32::MAX as nat) {
        Some(v) => Some(v as u32),
        None => None,
    }
}

/// How the command line selects the media helper: `None` when the flag is
/// absent; otherwise the number that follows the first occurrence of the
/// flag, if there is one and it reads as a process id.
pub open spec fn helper_arg_spec(args: Seq<Seq<char>>) -> Option<Option<u32>> {
    match first_pos(args, helper_flag(), 0) {
        None => None,
        Some(i) => Some(
            if i + 1 < args.len() {
                parsed_u32(args[i + 1])
            } else {
                None
            },
        ),
    }
}

proof fn lemma_first_pos_none(s: Seq<Seq<char>>, x: Seq<char>, i: int)
    requires
        0 <= i <= s.len(),
    ensures
        first_pos(s, x, i) is None <==> forall|k: int| i <= k < s.len() ==> s[k] != x,
    decreases s.len() - i,
{
    if i < s.len() {
        lemma_first_pos_none(s, x, i + 1);
    }
}

fn read_u32(s: &str) -> (r: Option<u32>)
    ensures
        r == parsed_u32(s@),
{
    let r = parse_u32(&chars_of(s));
    r
}

/// Reads the media-helper selection from the program's arguments.
pub fn helper_pid_from_args(args: &Vec<String>) -> (r: Option<Option<u32>>)
    ensures
        r == helper_arg_spec(strs_of(args@)),
        r is None <==> !strs_of(args@).contains(helper_flag()),
{
    let ghost s = strs_of(args@);
    let mut i: usize = 0;
    while i < args.len()
        invariant
            i <= args@.len(),
            s == strs_of(args@),
            s.len() == args@.len(),
            first_pos(s, helper_flag(), i as int) == first_pos(s, helper_flag(), 0),
            forall|k: int| 0 <= k < i ==> s[k] != helper_flag(),
        decreases args.len() - i,
    {
        if str_eq(args[i].as_str(), "--media-helper") {
            assert(s[i as int] == args@[i as int]@);
            if i + 1 < args.len() {
                assert(s[i + 1] == args@[i + 1]@);
                return Some(read_u32(args[i + 1].as_str()));
            }
            return Some(None);
        }
        i += 1;
    }
    proof {
        lemma_first_pos_none(s, helper_flag(), 0);
    }
    None
}

/// The process id a launch marker file names: its trimmed text read as a
/// number.
pub fn marker_pid(content: &str) -> (r: Option<u32>)
    ensures
        r == parsed_u32(trim(content@)),
{
    parse_u32(&trim_chars(&chars_of(content)))
}

/// The command line that starts the media helper for main process `pid`:
/// the program path in quotes, the flag and the process id.
pub open spec fn helper_command_line_spec(exe: Seq<char>, pid: nat) -> Seq<char> {
    "\""@ + exe + "\" --media-helper "@ + dec(pid)
}

pub fn helper_command_line(exe: &str, pid: u32) -> (r: String)
    ensures
        r@ == helper_command_line_spec(exe@, pid as nat),
{
    let mut m = chars_of("\"");
    extend(&mut m, &chars_of(exe));
    extend(&mut m, &chars_of("\" --media-helper "));
    extend(&mut m, &decimal(pid as u64));
    string_of(&m)
}

/// The arguments that this command line stands for (the program path, the
/// flag, the process id) select the media helper for that same process.
pub proof fn law_helper_command_line_read_back(exe: Seq<char>, pid: u32)
    requires
        exe != helper_flag(),
    ensures
        helper_arg_spec(seq![exe, helper_flag(), dec(pid as nat)]) == Some(Some(pid)),
{
    let args = seq![exe, helper_flag(), dec(pid as nat)];
    assert(args.len() == 3 && args[0] == exe && args[1] == helper_flag());
    assert(first_pos(args, helper_flag(), 1) == Some(1int));
    assert(first_pos(args, helper_flag(), 0) == Some(1int));
    lemma_dec_digits(pid as nat);
    let d = dec(pid as nat);
    assert(d.len() > 0 && d[0] != '+') by {
        assert(crate::text::is_digit(d[0]));
    }
    assert(parse_unsigned(d, u32::MAX as nat) == Some(pid as nat));
}

} // verus!
