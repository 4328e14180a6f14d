use vstd::prelude::*;

use crate::text::{
    ascii_lower, chars_of, contains, extend, has_infix, lemma_strs_push, lower_chars, lowercase_of, owned, same,
    string_of, strs_of,
};

verus! {

// ---------------------------------------------------------------------------
// Recognising files in an extracted release. The folder walk itself is done
// by the caller, which lists the names of the files it meets, depth first.
// ---------------------------------------------------------------------------

/// Index of the last `.` of a file name, or -1.
pub open spec fn last_dot(name: Seq<char>, n: nat) -> int
    decreases n,
{
    if n == 0 || n > name.len() {
        -1
    } else if name[n - 1] == '.' {
        n - 1
    } else {
        last_dot(name, (n - 1) as nat)
    }
}

/// The extension of a file name as `Path::extension` gives it: the text after
/// the last `.`, unless that dot is the first character (or the name is "..").
pub open spec fn extension_of(name: Seq<char>) -> Option<Seq<char>> {
    let d = last_dot(name, name.len());
    if name == ".."@ || d <= 0 {
        None
    } else {
        Some(name.skip(d + 1))
    }
}

pub open spec fn is_bat(name: Seq<char>) -> bool {
    extension_of(name) == Some("bat"@)
}

/// Whether a file name has the extension `bat`.
pub fn has_bat_extension(name: &str) -> (r: bool)
    ensures
        r == is_bat(name@),
{
    let v = chars_of(name);
    if same(&v, &chars_of("..")) {
        return false;
    }
    let mut i: usize = v.len();
    while i > 0 && v[i - 1] != '.'
        invariant
            i <= v.len(),
            last_dot(v@, v@.len()) == last_dot(v@, i as nat),
        decreases i,
    {
        i -= 1;
    }
    if i <= 1 {
        return false;
    }
    let ext = crate::text::slice_chars(&v, i, v.len());
    assert(ext@ =~= v@.skip(i as int));
    same(&ext, &chars_of("bat"))
}

/// A strategy file: a `.bat` file whose lower-cased name mentions "general".
pub open spec fn is_general_bat(name: Seq<char>) -> bool {
    is_bat(name) && contains(lowercase_of(name), "general"@)
}

pub open spec fn general_bats_upto(names: Seq<Seq<char>>, n: nat) -> Seq<Seq<char>>
    decreases n,
{
    if n == 0 || n > names.len() {
        seq![]
    } else {
        let prev = general_bats_upto(names, (n - 1) as nat);
        if is_general_bat(names[n - 1]) {
            prev.push(names[n - 1])
        } else {
            prev
        }
    }
}

/// The strategy files among the file names met, in the order met.
pub fn collect_bat_files(names: &Vec<String>) -> (r: Vec<String>)
    ensures
        strs_of(r@) == general_bats_upto(strs_of(names@), names@.len()),
{
    let general = chars_of("general");
    let mut r: Vec<String> = Vec::new();
    for i in 0..names.len()
        invariant
            general@ == "general"@,
            strs_of(r@) == general_bats_upto(strs_of(names@), i as nat),
    {
        let n = names[i].as_str();
        assert(strs_of(names@)[i as int] == n@);
        if has_bat_extension(n) && has_infix(&lower_chars(&chars_of(n)), &general) {
            let ghost r0 = r@;
            let o = owned(n);
            r.push(o);
            proof {
                lemma_strs_push(r0, o);
            }
        }
    }
    r
}

/// Whether any of the file names met is a `.bat` file.
pub fn any_bat_file(names: &Vec<String>) -> (r: bool)
    ensures
        r == exists|i: int| 0 <= i < names@.len() && is_bat(#[trigger] names@[i]@),
{
    for i in 0..names.len()
        invariant
            forall|k: int| 0 <= k < i ==> !is_bat(#[trigger] names@[k]@),
    {
        if has_bat_extension(names[i].as_str()) {
            return true;
        }
    }
    false
}

/// Index of the first file met whose name is exactly `target`.
pub fn first_named(names: &Vec<String>, target: &str) -> (r: Option<usize>)
    ensures
        match r {
            Some(i) => i < names@.len() && names@[i as int]@ == target@ && forall|k: int|
                0 <= k < i ==> names@[k]@ != target@,
            None => forall|k: int| 0 <= k < names@.len() ==> names@[k]@ != target@,
        },
{
    let t = chars_of(target);
    for i in 0..names.len()
        invariant
            t@ == target@,
            forall|k: int| 0 <= k < i ==> names@[k]@ != target@,
    {
        if same(&chars_of(names[i].as_str()), &t) {
            return Some(i);
        }
    }
    None
}

/// The refusal when no strategy file of the chosen name exists.
pub open spec fn bat_missing_spec(target: Seq<char>) -> Seq<char> {
    "Bat file '"@ + target + "' not found in zapret directory"@
}

/// Index of the first file met named `target`, or the refusal naming it.
pub fn find_bat(names: &Vec<String>, target: &str) -> (r: Result<usize, String>)
    ensures
        match r {
            Ok(i) => i < names@.len() && names@[i as int]@ == target@ && forall|k: int|
                0 <= k < i ==> names@[k]@ != target@,
            Err(e) => e@ == bat_missing_spec(target@) && forall|k: int|
                0 <= k < names@.len() ==> names@[k]@ != target@,
        },
{
    match first_named(names, target) {
        Some(i) => Ok(i),
        None => {
            let mut m = chars_of("Bat file '");
            extend(&mut m, &chars_of(target));
            extend(&mut m, &chars_of("' not found in zapret directory"));
            Err(string_of(&m))
        },
    }
}

/// Equality up to the case of ASCII letters (`eq_ignore_ascii_case`).
pub open spec fn same_ignoring_ascii_case(a: Seq<char>, b: Seq<char>) -> bool {
    a.len() == b.len() && forall|i: int| 0 <= i < a.len() ==> ascii_lower(a[i]) == ascii_lower(b[i])
}

fn lower_ascii(c: char) -> (r: char)
    ensures
        r == ascii_lower(c),
{
    if 'A' <= c && c <= 'Z' {
        ((c as u32) + 32) as u8 as char
    } else {
        c
    }
}

fn eq_ignore_ascii_case(a: &Vec<char>, b: &Vec<char>) -> (r: bool)
    ensures
        r == same_ignoring_ascii_case(a@, b@),
{
    if a.len() != b.len() {
        return false;
    }
    for i in 0..a.len()
        invariant
            a.len() == b.len(),
            forall|k: int| 0 <= k < i ==> ascii_lower(a@[k]) == ascii_lower(b@[k]),
    {
        if lower_ascii(a[i]) != lower_ascii(b[i]) {
            return false;
        }
    }
    true
}

/// Index of the last file met whose name is `exe_name` up to ASCII case.
pub fn last_named_ignoring_case(names: &Vec<String>, exe_name: &str) -> (r: Option<usize>)
    ensures
        match r {
            Some(i) => i < names@.len() && same_ignoring_ascii_case(names@[i as int]@, exe_name@)
                && forall|k: int| i < k < names@.len() ==> !same_ignoring_ascii_case(names@[k]@, exe_name@),
            None => forall|k: int|
                0 <= k < names@.len() ==> !same_ignoring_ascii_case(names@[k]@, exe_name@),
        },
{
    let t = chars_of(exe_name);
    let mut i = names.len();
    while i > 0
        invariant
            i <= names@.len(),
            t@ == exe_name@,
            forall|k: int| i <= k < names@.len() ==> !same_ignoring_ascii_case(names@[k]@, exe_name@),
        decreases i,
    {
        if eq_ignore_ascii_case(&chars_of(names[i - 1].as_str()), &t) {
            return Some(i - 1);
        }
        i -= 1;
    }
    None
}

} // verus!
