//! Portable mode: where the application keeps its metadata when it runs from a
//! folder that asks for it. Credentials are never made portable.
use vstd::prelude::*;
use crate::text::{chars_eq, chars_of, push_str_chars, string_from_chars};

verus! {

broadcast use vstd::string::group_string_axioms;

/// The marker file next to the executable that asks for portable mode.
pub const PORTABLE_MARKER: &'static str = "nextvestment-transfer.portable";

/// The directory next to the executable that holds portable metadata.
pub const PORTABLE_DATA_DIR: &'static str = "nextvestment-transfer-data";

/// `c.to_ascii_lowercase()`.
pub open spec fn fold_case(c: char) -> char {
    if 'A' <= c && c <= 'Z' {
        ((c as int) + 32) as char
    } else {
        c
    }
}

/// `s.to_ascii_lowercase()`.
pub open spec fn ascii_lowercase(s: Seq<char>) -> Seq<char> {
    s.map_values(|c: char| fold_case(c))
}

/// Whether the portable-mode environment value turns portable mode on:
/// `1`, `true` or `yes`, in any ASCII case.
pub open spec fn portable_value(value: Seq<char>) -> bool {
    let v = ascii_lowercase(value);
    v == "1"@ || v == "true"@ || v == "yes"@
}

fn to_ascii_lowercase(v: &Vec<char>) -> (r: Vec<char>)
    ensures
        r@ == ascii_lowercase(v@),
{
    let mut r: Vec<char> = Vec::new();
    let mut i: usize = 0;
    while i < v.len()
        invariant
            i <= v.len(),
            r@ == ascii_lowercase(v@.take(i as int)),
        decreases v.len() - i,
    {
        let c = v[i];
        let lower = if 'A' <= c && c <= 'Z' {
            let code = (c as u32) as u8;
            assert(code as int == c as int);
            (code + 32) as char
        } else {
            c
        };
        assert(lower == fold_case(c));
        r.push(lower);
        i = i + 1;
        assert(ascii_lowercase(v@.take(i as int)) =~= ascii_lowercase(v@.take(i - 1)).push(fold_case(v@[i - 1])));
    }
    assert(v@.take(v.len() as int) == v@);
    r
}

/// Whether the portable-mode environment value turns portable mode on.
pub fn portable_flag(value: &str) -> (r: bool)
    ensures
        r == portable_value(value@),
{
    let lower = to_ascii_lowercase(&chars_of(value));
    chars_eq(&lower, &chars_of("1")) || chars_eq(&lower, &chars_of("true")) || chars_eq(&lower, &chars_of("yes"))
}

/// `dir` joined with the relative file name `name`, with `/` between them.
pub open spec fn join_path(dir: Seq<char>, name: Seq<char>) -> Seq<char> {
    if dir.len() == 0 {
        name
    } else if dir.last() == '/' {
        dir + name
    } else {
        dir + "/"@ + name
    }
}

/// `dir` joined with the relative file name `name`.
pub fn join_path_str(dir: &str, name: &str) -> (r: String)
    ensures
        r@ == join_path(dir@, name@),
{
    let mut chars = chars_of(dir);
    if chars.len() > 0 && chars[chars.len() - 1] != '/' {
        push_str_chars(&mut chars, "/");
    }
    push_str_chars(&mut chars, name);
    string_from_chars(&chars)
}

/// Where the portable-mode marker is looked for.
pub fn portable_marker_path(exe_dir: &str) -> (r: String)
    ensures
        r@ == join_path(exe_dir@, PORTABLE_MARKER@),
{
    join_path_str(exe_dir, PORTABLE_MARKER)
}

/// The portable metadata directory, when the environment asks for portable mode
/// or the application's own marker file is present next to the executable.
pub fn portable_data_dir_for(exe_dir: &str, env_portable: bool, marker_present: bool) -> (r: Option<String>)
    ensures
        (env_portable || marker_present) ==> (r matches Some(d) && d@ == join_path(exe_dir@, PORTABLE_DATA_DIR@)),
        !(env_portable || marker_present) ==> r is None,
{
    if env_portable || marker_present {
        Some(join_path_str(exe_dir, PORTABLE_DATA_DIR))
    } else {
        None
    }
}

} // verus!
