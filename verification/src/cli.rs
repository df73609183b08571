//! Argument handling of the content-pack command line tool.
use vstd::prelude::*;
use crate::text::str_eq;

verus! {

/// Views of the arguments.
pub open spec fn arg_views(args: Seq<String>) -> Seq<Seq<char>> {
    args.map_values(|a: String| a@)
}

/// The index of the first occurrence of `name` followed by a value, from `i` on.
pub open spec fn option_index(args: Seq<Seq<char>>, name: Seq<char>, i: int) -> Option<int>
    decreases args.len() - i,
{
    if i < 0 || i + 1 >= args.len() {
        None
    } else if args[i] == name {
        Some(i)
    } else {
        option_index(args, name, i + 1)
    }
}

/// The value given to an option: the argument after its first occurrence.
pub open spec fn option_value_of(args: Seq<Seq<char>>, name: Seq<char>) -> Option<Seq<char>> {
    match option_index(args, name, 0) {
        Some(i) => Some(args[i + 1]),
        None => None,
    }
}

/// The value given to the option `name`.
pub fn option_value(args: &Vec<String>, name: &str) -> (r: Option<String>)
    ensures
        match r {
            Some(v) => option_value_of(arg_views(args@), name@) == Some(v@),
            None => option_value_of(arg_views(args@), name@) is None,
        },
{
    let ghost av = arg_views(args@);
    let mut i: usize = 0;
    while args.len() > 1 && i < args.len() - 1
        invariant
            0 <= i <= args.len(),
            av == arg_views(args@),
            option_index(av, name@, 0) == option_index(av, name@, i as int),
        decreases args.len() - i,
    {
        if str_eq(args[i].as_str(), name) {
            return Some(args[i + 1].clone());
        }
        i = i + 1;
    }
    None
}

/// An option that takes a value.
pub open spec fn takes_value(a: Seq<char>) -> bool {
    a == "--database-url"@ || a == "--pack"@
}

/// Whether `value` is given as the value of an option that takes one.
pub open spec fn is_option_value(args: Seq<Seq<char>>, value: Seq<char>) -> bool {
    exists|i: int| 0 <= i < args.len() - 1 && takes_value(#[trigger] args[i]) && args[i + 1] == value
}

/// Whether `value` is given as the value of `--database-url` or `--pack`.
pub fn matches_option_value(args: &Vec<String>, value: &str) -> (b: bool)
    ensures
        b == is_option_value(arg_views(args@), value@),
{
    let ghost av = arg_views(args@);
    let mut i: usize = 0;
    while args.len() > 1 && i < args.len() - 1
        invariant
            0 <= i <= args.len(),
            av == arg_views(args@),
            forall|k: int| 0 <= k < i ==> !(takes_value(#[trigger] av[k]) && av[k + 1] == value@),
        decreases args.len() - i,
    {
        let a = args[i].as_str();
        if (str_eq(a, "--database-url") || str_eq(a, "--pack")) && str_eq(
            args[i + 1].as_str(),
            value,
        ) {
            assert(takes_value(av[i as int]) && av[i + 1] == value@);
            return true;
        }
        i = i + 1;
    }
    false
}

/// An argument that looks like a flag.
pub open spec fn is_flag(a: Seq<char>) -> bool {
    a.len() > 0 && a[0] == '-'
}

/// The index of the first positional argument after the command, from `i` on:
/// not a flag and not the value of an option.
pub open spec fn positional_index(args: Seq<Seq<char>>, i: int) -> Option<int>
    decreases args.len() - i,
{
    if i < 1 || i >= args.len() {
        None
    } else if !is_flag(args[i]) && !is_option_value(args, args[i]) {
        Some(i)
    } else {
        positional_index(args, i + 1)
    }
}

/// The content pack path: the first argument after the command that is
/// neither a flag nor an option's value.
pub fn positional_path(args: &Vec<String>) -> (r: Result<String, String>)
    ensures
        match r {
            Ok(p) => positional_index(arg_views(args@), 1) matches Some(i) && p@ == arg_views(
                args@,
            )[i],
            Err(m) => positional_index(arg_views(args@), 1) is None && m@
                == "a content pack path is required"@,
        },
{
    let ghost av = arg_views(args@);
    let mut i: usize = 1;
    while i < args.len()
        invariant
            1 <= i,
            av == arg_views(args@),
            positional_index(av, 1) == positional_index(av, i as int),
        decreases args.len() - i,
    {
        let a = args[i].as_str();
        let flag = !a.is_empty() && crate::text::chars_of(a)[0] == '-';
        if !flag && !matches_option_value(args, a) {
            return Ok(args[i].clone());
        }
        i = i + 1;
    }
    Err("a content pack path is required".to_owned())
}

/// Whether an argument is among the arguments.
pub fn has_arg(args: &Vec<String>, name: &str) -> (b: bool)
    ensures
        b == arg_views(args@).contains(name@),
{
    let ghost av = arg_views(args@);
    let mut i: usize = 0;
    while i < args.len()
        invariant
            0 <= i <= args.len(),
            av == arg_views(args@),
            forall|k: int| 0 <= k < i ==> av[k] != name@,
        decreases args.len() - i,
    {
        if str_eq(args[i].as_str(), name) {
            assert(av[i as int] == name@);
            return true;
        }
        i = i + 1;
    }
    false
}

/// Whether to print the usage instead of running: no arguments, or a help flag.
pub fn wants_usage(args: &Vec<String>) -> (b: bool)
    ensures
        b == (args@.len() == 0 || arg_views(args@).contains("-h"@) || arg_views(args@).contains(
            "--help"@,
        )),
{
    args.len() == 0 || has_arg(args, "-h") || has_arg(args, "--help")
}

} // verus!
