//! The fetcher's command line.

use crate::hub::{alias_table, aliases, Alias, AliasView};
use crate::text;
use vstd::prelude::*;

verus! {

/// What the command line asks for.
#[derive(Debug)]
pub struct Options {
    pub help: bool,
    pub force: bool,
    pub verify: bool,
    pub adopt: bool,
    pub dir: String,
    /// The files to fetch.
    pub specs: Vec<String>,
}

/// `name` is among the arguments.
pub open spec fn given(args: Seq<Seq<char>>, name: Seq<char>) -> bool {
    exists|i: int| 0 <= i < args.len() && #[trigger] args[i] == name
}

/// The first position of `name`.
pub open spec fn first_at(args: Seq<Seq<char>>, name: Seq<char>, from: int) -> Option<int>
    decreases args.len() - from,
{
    if from >= args.len() {
        None
    } else if args[from] == name {
        Some(from)
    } else {
        first_at(args, name, from + 1)
    }
}

/// The argument behind the first `name`.
pub open spec fn value_of(args: Seq<Seq<char>>, name: Seq<char>) -> Option<Seq<char>> {
    match first_at(args, name, 0) {
        Some(i) => if i + 1 < args.len() {
            Some(args[i + 1])
        } else {
            None
        },
        None => None,
    }
}

/// The arguments from `i` on that are no flags, nor the directory.
pub open spec fn names_from(args: Seq<Seq<char>>, i: int) -> Seq<Seq<char>>
    decreases args.len() - i + 1,
{
    if i >= args.len() {
        Seq::empty()
    } else if args[i] == "--dir"@ {
        names_from(args, i + 2)
    } else if text::matches_at(args[i], 0, "--"@) {
        names_from(args, i + 1)
    } else {
        seq![args[i]] + names_from(args, i + 1)
    }
}

/// The names that have an address, in order.
pub open spec fn alias_names() -> Seq<Seq<char>> {
    alias_table().map_values(|a: AliasView| a.name)
}

fn every_alias() -> (r: Vec<String>)
    ensures
        text::views(r@) == alias_names(),
{
    let all = aliases();
    let n: usize = all.len();
    let ghost views = all@.map_values(|a: Alias| a@);
    let mut r: Vec<String> = Vec::new();
    let mut i: usize = 0;
    assert(text::views(r@) =~= alias_names().take(0));
    while i < n
        invariant
            i <= n,
            n == all@.len(),
            views == all@.map_values(|a: Alias| a@),
            views == alias_table(),
            text::views(r@) == alias_names().take(i as int),
        decreases n - i,
    {
        let ghost before = text::views(r@);
        r.push(all[i].name.to_owned());
        proof {
            assert(views[i as int] == all@[i as int]@);
            assert(text::views(r@) =~= before.push(alias_names()[i as int]));
            assert(before.push(alias_names()[i as int]) =~= alias_names().take(i + 1));
        }
        i = i + 1;
    }
    assert(alias_names().take(n as int) =~= alias_names());
    r
}

fn present(args: &[String], name: &str) -> (r: bool)
    ensures
        r == given(text::views(args@), name@),
{
    let ghost all = text::views(args@);
    let n: usize = args.len();
    let mut i: usize = 0;
    while i < n
        invariant
            i <= n,
            n == args@.len(),
            all == text::views(args@),
            forall|k: int| 0 <= k < i ==> #[trigger] all[k] != name@,
        decreases n - i,
    {
        if text::str_eq(args[i].as_str(), name) {
            assert(all[i as int] == name@);
            return true;
        }
        assert(all[i as int] != name@);
        i = i + 1;
    }
    false
}

/// The argument behind the first `name`.
pub fn flag(args: &[String], name: &str) -> (r: Option<String>)
    ensures
        match r {
            Some(v) => value_of(text::views(args@), name@) == Some(v@),
            None => value_of(text::views(args@), name@) is None,
        },
{
    let ghost all = text::views(args@);
    let n: usize = args.len();
    let mut i: usize = 0;
    while i < n
        invariant
            i <= n,
            n == args@.len(),
            all == text::views(args@),
            first_at(all, name@, 0) == first_at(all, name@, i as int),
        decreases n - i,
    {
        assert(all[i as int] == args@[i as int]@);
        if text::str_eq(args[i].as_str(), name) {
            if i + 1 < n {
                assert(all[i + 1] == args@[i + 1]@);
                return Some(args[i + 1].clone());
            }
            return None;
        }
        i = i + 1;
    }
    None
}

impl Options {
    /// Read a command line. No name means every checkpoint that has an alias.
    pub fn parse(args: &[String]) -> (r: Options)
        ensures
            ({
                let all = text::views(args@);
                let names = names_from(all, 0);
                &&& r.help == (given(all, "-h"@) || given(all, "--help"@))
                &&& r.force == given(all, "--force"@)
                &&& r.verify == !given(all, "--no-verify"@)
                &&& r.adopt == !given(all, "--no-adopt"@)
                &&& r.dir@ == match value_of(all, "--dir"@) {
                    Some(d) => d,
                    None => "models"@,
                }
                &&& text::views(r.specs@) == if names.len() == 0 {
                    alias_names()
                } else {
                    names
                }
            }),
    {
        let ghost all = text::views(args@);
        let dir = match flag(args, "--dir") {
            Some(d) => d,
            None => "models".to_owned(),
        };
        let n: usize = args.len();
        let mut specs: Vec<String> = Vec::new();
        let mut i: usize = 0;
        assert(text::views(specs@) + names_from(all, 0) =~= names_from(all, 0));
        while i < n
            invariant
                i <= n,
                n == args@.len(),
                all == text::views(args@),
                names_from(all, 0) == text::views(specs@) + names_from(all, i as int),
            decreases n - i,
        {
            assert(all[i as int] == args@[i as int]@);
            let ghost before = text::views(specs@);
            if text::str_eq(args[i].as_str(), "--dir") {
                if n - i < 2 {
                    assert(names_from(all, i + 2) =~= Seq::empty());
                    assert(names_from(all, n as int) =~= Seq::empty());
                    i = n;
                } else {
                    i = i + 2;
                }
            } else {
                let c = text::chars_of(args[i].as_str());
                if !text::is_at(c.as_slice(), 0, "--") {
                    specs.push(args[i].clone());
                    proof {
                        let rest = names_from(all, i + 1);
                        assert(text::views(specs@) =~= before.push(all[i as int]));
                        assert(before + (seq![all[i as int]] + rest) =~= text::views(specs@)
                            + rest);
                    }
                }
                i = i + 1;
            }
        }
        assert(text::views(specs@) =~= names_from(all, 0));
        if specs.len() == 0 {
            specs = every_alias();
        }
        Options {
            help: present(args, "-h") || present(args, "--help"),
            force: present(args, "--force"),
            verify: !present(args, "--no-verify"),
            adopt: !present(args, "--no-adopt"),
            dir,
            specs,
        }
    }
}

} // verus!
