use vstd::prelude::*;

use crate::text::{
    ascii_upper, ascii_upper_text, chars_of, ends_with, is_ascii_text, upper_chars, upper_text,
};

verus! {

/// A running process as the system snapshot lists it: its id and the file
/// name of its executable, in UTF-16 code units without the terminating 0.
#[derive(Debug, Clone, PartialEq, Eq)]
pub struct ProcessEntry {
    pub pid: u32,
    pub exe_file: Vec<u16>,
}

/// UTF-16 encoding of a string (`str::encode_utf16`).
pub open spec fn utf16_of(s: Seq<char>) -> Seq<u16>
    decreases s.len(),
{
    if s.len() == 0 {
        seq![]
    } else {
        let u = s.last() as u32;
        utf16_of(s.drop_last()) + if u < 0x10000 {
            seq![u as u16]
        } else {
            let v = (u - 0x10000) as u32;
            seq![(0xD800 + v / 0x400) as u16, (0xDC00 + v % 0x400) as u16]
        }
    }
}

/// UTF-16 encoding of a string.
pub fn encode_utf16(s: &Vec<char>) -> (r: Vec<u16>)
    ensures
        r@ == utf16_of(s@),
{
    let mut r: Vec<u16> = Vec::new();
    for i in 0..s.len()
        invariant
            r@ == utf16_of(s@.take(i as int)),
    {
        let u = s[i] as u32;
        proof {
            assert(s@.take(i + 1).drop_last() =~= s@.take(i as int));
            assert(s@.take(i + 1).last() == s@[i as int]);
        }
        if u < 0x10000 {
            r.push(u as u16);
        } else {
            let v = u - 0x10000;
            r.push((0xD800 + v / 0x400) as u16);
            r.push((0xDC00 + v % 0x400) as u16);
        }
        assert(r@ =~= utf16_of(s@.take(i + 1)));
    }
    assert(s@.take(s@.len() as int) =~= s@);
    r
}

/// ASCII letters `a`..`z` upper-cased, every other unit unchanged.
pub open spec fn upper_ascii_units(s: Seq<u16>) -> Seq<u16> {
    Seq::new(s.len(), |i: int| if 0x61 <= s[i] <= 0x7A { (s[i] - 32) as u16 } else { s[i] })
}

/// ".EXE" in UTF-16: the suffix as it reads once the name is upper-cased.
pub open spec fn dot_exe() -> Seq<u16> {
    seq![0x2E, 0x45, 0x58, 0x45]
}

/// The (upper-cased) name without a final ".EXE".
pub open spec fn strip_exe(s: Seq<u16>) -> Seq<u16> {
    if s.len() >= 4 && s.skip(s.len() - 4) == dot_exe() {
        s.take(s.len() - 4)
    } else {
        s
    }
}

/// Whether the executable name `exe` (as listed) is a process of the
/// stripped target name `t`: equal names, or, for targets of at least four
/// units, the executable name starts with the target.
pub open spec fn name_matches(exe: Seq<u16>, t: Seq<u16>) -> bool {
    let e = strip_exe(upper_ascii_units(exe));
    e == t || (t.len() >= 4 && t.len() <= e.len() && e.take(t.len() as int) == t)
}

/// The name looked for: upper-cased, encoded, without a final ".exe".
pub open spec fn target_units(name: Seq<char>) -> Seq<u16> {
    strip_exe(utf16_of(upper_text(name)))
}

/// Index of the first listed process that matches `name`.
pub open spec fn first_process(procs: Seq<ProcessEntry>, name: Seq<char>, n: nat) -> Option<int>
    decreases n,
{
    if n == 0 || n > procs.len() {
        None
    } else {
        match first_process(procs, name, (n - 1) as nat) {
            Some(i) => Some(i),
            None => if name_matches(procs[n - 1].exe_file@, target_units(name)) {
                Some(n - 1)
            } else {
                None
            },
        }
    }
}

/// The id of the first listed process that matches `name`.
pub open spec fn pid_by_name(procs: Seq<ProcessEntry>, name: Seq<char>) -> Option<u32> {
    match first_process(procs, name, procs.len()) {
        Some(i) => Some(procs[i].pid),
        None => None,
    }
}

fn upper_units(s: &Vec<u16>) -> (r: Vec<u16>)
    ensures
        r@ == upper_ascii_units(s@),
{
    let mut r: Vec<u16> = Vec::new();
    for i in 0..s.len()
        invariant
            r@.len() == i,
            forall|k: int| 0 <= k < i ==> r@[k] == upper_ascii_units(s@)[k],
    {
        let c = s[i];
        if 0x61 <= c && c <= 0x7A {
            r.push(c - 32);
        } else {
            r.push(c);
        }
    }
    assert(r@ =~= upper_ascii_units(s@));
    r
}

fn units_equal(a: &Vec<u16>, b: &Vec<u16>, n: usize) -> (r: bool)
    requires
        n <= a.len(),
        n <= b.len(),
    ensures
        r == (a@.take(n as int) == b@.take(n as int)),
{
    for i in 0..n
        invariant
            n <= a.len(),
            n <= b.len(),
            forall|k: int| 0 <= k < i ==> a@[k] == b@[k],
    {
        if a[i] != b[i] {
            assert(a@.take(n as int)[i as int] != b@.take(n as int)[i as int]);
            return false;
        }
    }
    assert(a@.take(n as int) =~= b@.take(n as int));
    true
}

fn strip_exe_units(s: Vec<u16>) -> (r: Vec<u16>)
    ensures
        r@ == strip_exe(s@),
{
    let n = s.len();
    if n >= 4 && s[n - 4] == 0x2E && s[n - 3] == 0x45 && s[n - 2] == 0x58 && s[n - 1] == 0x45 {
        assert(s@.skip(n - 4) =~= dot_exe());
        let mut r: Vec<u16> = Vec::new();
        for i in 0..n - 4
            invariant
                n == s.len(),
                n >= 4,
                r@ == s@.take(i as int),
        {
            r.push(s[i]);
            assert(r@ =~= s@.take(i + 1));
        }
        r
    } else {
        proof {
            if n >= 4 && s@.skip(n - 4) == dot_exe() {
                assert(s@.skip(n - 4)[0] == s@[n - 4]);
                assert(s@.skip(n - 4)[1] == s@[n - 3]);
                assert(s@.skip(n - 4)[2] == s@[n - 2]);
                assert(s@.skip(n - 4)[3] == s@[n - 1]);
            }
        }
        s
    }
}

fn matches_target(exe: &Vec<u16>, target: &Vec<u16>) -> (r: bool)
    ensures
        r == name_matches(exe@, target@),
{
    let e = strip_exe_units(upper_units(exe));
    let t = target;
    if e.len() == t.len() && units_equal(&e, t, t.len()) {
        assert(e@.take(e@.len() as int) =~= e@);
        assert(t@.take(t@.len() as int) =~= t@);
        return true;
    }
    proof {
        if e@ == t@ {
            assert(e@.take(e@.len() as int) =~= e@);
        }
    }
    if t.len() >= 4 && t.len() <= e.len() {
        let p = units_equal(&e, t, t.len());
        assert(t@.take(t@.len() as int) =~= t@);
        return p;
    }
    false
}

/// The id of the first process in `procs` that runs the executable `name`
/// (compared case-insensitively, with or without ".exe").
pub fn find_pid_by_name(name: &str, procs: &Vec<ProcessEntry>) -> (r: Option<u32>)
    ensures
        r == pid_by_name(procs@, name@),
{
    let up = upper_chars(&chars_of(name));
    let target = strip_exe_units(encode_utf16(&up));
    let mut i: usize = 0;
    while i < procs.len()
        invariant
            i <= procs.len(),
            target@ == target_units(name@),
            first_process(procs@, name@, i as nat) is None,
        decreases procs.len() - i,
    {
        if matches_target(&procs[i].exe_file, &target) {
            proof {
                assert(first_process(procs@, name@, (i + 1) as nat) == Some(i as int));
                lemma_first_process_stays(procs@, name@, (i + 1) as nat, procs@.len());
            }
            return Some(procs[i].pid);
        }
        i += 1;
    }
    None
}

proof fn lemma_first_process_stays(procs: Seq<ProcessEntry>, name: Seq<char>, m: nat, n: nat)
    requires
        m <= n <= procs.len(),
        first_process(procs, name, m) is Some,
    ensures
        first_process(procs, name, n) == first_process(procs, name, m),
    decreases n - m,
{
    if m < n {
        lemma_first_process_stays(procs, name, m, (n - 1) as nat);
    }
}

// ---------------------------------------------------------------------------
// A bare name finds its ".exe" image
// ---------------------------------------------------------------------------

/// ASCII text encodes as one unit per character.
pub open spec fn ascii_units(s: Seq<char>) -> Seq<u16> {
    Seq::new(s.len(), |i: int| (s[i] as u32) as u16)
}

proof fn lemma_utf16_ascii(s: Seq<char>)
    requires
        is_ascii_text(s),
    ensures
        utf16_of(s) == ascii_units(s),
    decreases s.len(),
{
    if s.len() > 0 {
        let t = s.drop_last();
        assert(is_ascii_text(t)) by {
            assert forall|i: int| 0 <= i < t.len() implies (t[i] as u32) < 128 by {
                assert(t[i] == s[i]);
            }
        }
        lemma_utf16_ascii(t);
        let c = s[s.len() - 1];
        assert((c as u32) < 128);
        assert(s.last() == c);
        assert(utf16_of(s) == utf16_of(t) + seq![(c as u32) as u16]);
        assert forall|i: int| 0 <= i < s.len() implies utf16_of(s)[i] == ascii_units(s)[i] by {
            if i < t.len() {
                assert(utf16_of(s)[i] == utf16_of(t)[i]);
                assert(t[i] == s[i]);
            }
        }
        assert(utf16_of(s) =~= ascii_units(s));
    } else {
        assert(utf16_of(s) =~= ascii_units(s));
    }
}

proof fn lemma_upper_units_ascii(s: Seq<char>)
    requires
        is_ascii_text(s),
    ensures
        is_ascii_text(ascii_upper_text(s)),
        upper_ascii_units(ascii_units(s)) == ascii_units(ascii_upper_text(s)),
{
    assert forall|i: int| 0 <= i < s.len() implies (ascii_upper_text(s)[i] as u32) < 128 by {}
    assert(upper_ascii_units(ascii_units(s)) =~= ascii_units(ascii_upper_text(s))) by {
        assert forall|i: int| 0 <= i < s.len() implies upper_ascii_units(ascii_units(s))[i] == ascii_units(
            ascii_upper_text(s),
        )[i] by {
            let c = s[i];
            assert(ascii_units(s)[i] == (c as u32) as u16);
            assert(ascii_upper_text(s)[i] == ascii_upper(c));
        }
    }
}

/// A process whose executable is listed as `<name>.exe`, in any case of its
/// ASCII letters, is found by the bare name, whatever its length (unless
/// the name itself ends in ".exe").
pub proof fn law_bare_name_finds_exe(procs: Seq<ProcessEntry>, name: Seq<char>, exe: Seq<char>)
    requires
        is_ascii_text(name),
        is_ascii_text(exe),
        ascii_upper_text(exe) == ascii_upper_text(name) + ".EXE"@,
        !ends_with(ascii_upper_text(name), ".EXE"@),
        procs.len() > 0,
        procs[0].exe_file@ == utf16_of(exe),
    ensures
        pid_by_name(procs, name) == Some(procs[0].pid),
{
    reveal_strlit(".EXE");
    let u = ascii_upper_text(name);
    let ue = ascii_upper_text(exe);
    lemma_utf16_ascii(exe);
    lemma_upper_units_ascii(exe);
    lemma_upper_units_ascii(name);
    lemma_utf16_ascii(u);
    assert(upper_text(name) == u);
    let tu = ascii_units(u);
    // The name looked for keeps all its units.
    assert(strip_exe(tu) == tu) by {
        if tu.len() >= 4 && tu.skip(tu.len() - 4) == dot_exe() {
            assert(u.skip(u.len() - 4) =~= ".EXE"@) by {
                assert forall|k: int| 0 <= k < 4 implies u.skip(u.len() - 4)[k] == ".EXE"@[k] by {
                    assert(tu.skip(tu.len() - 4)[k] == tu[tu.len() - 4 + k]);
                    assert(dot_exe()[k] == (".EXE"@[k]) as u16);
                }
            }
        }
    }
    assert(target_units(name) == tu);
    // The listed name, upper-cased, is the name followed by ".EXE".
    let eu = upper_ascii_units(procs[0].exe_file@);
    assert(eu == ascii_units(ue));
    assert(eu.len() == tu.len() + 4);
    assert(eu.skip(eu.len() - 4) =~= dot_exe()) by {
        assert forall|k: int| 0 <= k < 4 implies eu.skip(eu.len() - 4)[k] == dot_exe()[k] by {
            assert(ue[u.len() + k] == ".EXE"@[k]);
        }
    }
    assert(eu.take(eu.len() - 4) =~= tu) by {
        assert forall|k: int| 0 <= k < tu.len() implies eu.take(eu.len() - 4)[k] == tu[k] by {
            assert(ue[k] == u[k]);
        }
    }
    assert(name_matches(procs[0].exe_file@, target_units(name)));
    lemma_first_found(procs, name, procs.len());
}

proof fn lemma_first_found(procs: Seq<ProcessEntry>, name: Seq<char>, n: nat)
    requires
        1 <= n <= procs.len(),
        name_matches(procs[0].exe_file@, target_units(name)),
    ensures
        first_process(procs, name, n) == Some(0int),
    decreases n,
{
    if n > 1 {
        lemma_first_found(procs, name, (n - 1) as nat);
    } else {
        assert(first_process(procs, name, 0) is None);
    }
}

} // verus!
