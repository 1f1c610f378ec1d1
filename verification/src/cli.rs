//! The command line: the options, and the argument list Cargo hands a
//! subcommand.

use vstd::prelude::*;

use crate::config::text_bytes;
use crate::path::FsPath;

verus! {

/// The options of `cargo clean-global`.
pub struct Cli {
    /// Show which target directories would be removed without deleting them.
    pub dry_run: bool,
    /// Skip the confirmation prompt and clean immediately.
    pub yes: bool,
    /// Restrict scanning to these directories.
    pub roots: Vec<FsPath>,
}

/// The name Cargo passes as the first argument when it runs the tool as
/// its subcommand.
pub open spec fn subcommand_name() -> Seq<u8> {
    text_bytes("clean-global"@)
}

/// The text of the refusal when the tool is run directly.
pub open spec fn direct_invocation_message() -> Seq<char> {
    "run this tool as `cargo clean-global`; direct `cargo-clean-global` invocation is not supported"@
}

/// The arguments, as values.
pub open spec fn args_model(v: Seq<Vec<u8>>) -> Seq<Seq<u8>> {
    v.map_values(|a: Vec<u8>| a@)
}

/// The second argument is the subcommand name Cargo forwards.
pub open spec fn forwarded(args: Seq<Seq<u8>>) -> bool {
    args.len() >= 2 && args[1] == subcommand_name()
}

/// Whether Cargo forwarded the subcommand name as the second argument.
pub fn has_cargo_forwarded_subcommand(args: &Vec<Vec<u8>>) -> (r: bool)
    ensures
        r == forwarded(args_model(args@)),
{
    if args.len() < 2 {
        return false;
    }
    let name = "clean-global".as_bytes();
    let a = &args[1];
    assert(args_model(args@)[1] == a@);
    assert(name@ == subcommand_name());
    if a.len() != name.len() {
        assert(a@.len() != name@.len());
        return false;
    }
    let mut i: usize = 0;
    while i < a.len()
        invariant
            a@.len() == name@.len(),
            name@ == text_bytes("clean-global"@),
            args.len() >= 2,
            args_model(args@)[1] == a@,
            i <= a.len(),
            forall|k: int| 0 <= k < i ==> a@[k] == name@[k],
        decreases a.len() - i,
    {
        if a[i] != name[i] {
            assert(a@[i as int] != name@[i as int]);
            return false;
        }
        i = i + 1;
    }
    assert(a@ =~= name@);
    true
}

/// The arguments to parse: run through Cargo, without the forwarded
/// subcommand name; run directly, as they are where that is allowed (debug
/// builds) and the subcommand name is not spoofed, else refused.
pub open spec fn normalized_args(args: Seq<Seq<u8>>, invoked_via_cargo: bool, direct_allowed: bool) -> Result<Seq<Seq<u8>>, Seq<char>> {
    if invoked_via_cargo && forwarded(args) {
        Ok(args.remove(1))
    } else if direct_allowed && !forwarded(args) {
        Ok(args)
    } else {
        Err(direct_invocation_message())
    }
}

/// The argument list to parse, from the process's arguments.
pub fn normalize_args(args: Vec<Vec<u8>>, invoked_via_cargo: bool, direct_allowed: bool) -> (r: Result<Vec<Vec<u8>>, &'static str>)
    ensures
        match r {
            Ok(v) => normalized_args(args_model(args@), invoked_via_cargo, direct_allowed) == Ok::<
                Seq<Seq<u8>>,
                Seq<char>,
            >(args_model(v@)),
            Err(m) => normalized_args(args_model(args@), invoked_via_cargo, direct_allowed) == Err::<
                Seq<Seq<u8>>,
                Seq<char>,
            >(m@),
        },
{
    let mut args = args;
    let forwarded_name = has_cargo_forwarded_subcommand(&args);
    if invoked_via_cargo && forwarded_name {
        let ghost before = args_model(args@);
        args.remove(1);
        assert(args_model(args@) =~= before.remove(1));
        return Ok(args);
    }
    if direct_allowed {
        if forwarded_name {
            return Err(
                "run this tool as `cargo clean-global`; direct `cargo-clean-global` invocation is not supported",
            );
        }
        return Ok(args);
    }
    Err(
        "run this tool as `cargo clean-global`; direct `cargo-clean-global` invocation is not supported",
    )
}

} // verus!
