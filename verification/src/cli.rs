//! Command-line arguments: none, or exactly `--dry-run`.

use vstd::prelude::*;
use crate::text::{chars_eq_str, str_chars};
use vstd::std_specs::iter::IteratorSpec;

verus! {

#[derive(Debug, Clone, Copy, PartialEq, Eq, Structural)]
pub struct Options {
    pub dry_run: bool,
}

pub const USAGE: &'static str = "exsync [--dry-run] | Env: EXSYNC_CONFIG, EXSYNC_LOG, EXSYNC_VOLUMES_ROOT";

/// The meaning of an argument list: no arguments run for real, exactly
/// `--dry-run` only plans; anything else is a usage error with exit code 2.
pub open spec fn parse_args_spec(args: Seq<Seq<char>>) -> Result<Options, i32> {
    if args.len() == 0 {
        Ok(Options { dry_run: false })
    } else if args.len() == 1 && args[0] == "--dry-run"@ {
        Ok(Options { dry_run: true })
    } else {
        Err(2)
    }
}

pub open spec fn arg_views(args: Seq<String>) -> Seq<Seq<char>> {
    Seq::new(args.len(), |i: int| args[i]@)
}

pub fn parse_args<I: Iterator<Item = String>>(mut args: I) -> (r: Result<Options, i32>)
    requires
        args.obeys_prophetic_iter_laws(),
    ensures
        r == parse_args_spec(arg_views(args.remaining())),
{
    let ghost all = args.remaining();
    let first = args.next();
    if first.is_none() {
        assert(arg_views(all).len() == 0);
        return Ok(Options { dry_run: false });
    }
    let first_val = first.unwrap();
    assert(arg_views(all)[0] == first_val@);
    if chars_eq_str(&str_chars(first_val.as_str()), "--dry-run") {
        if args.next().is_none() {
            assert(arg_views(all).len() == 1);
            return Ok(Options { dry_run: true });
        }
    }
    Err(2)
}

} // verus!
