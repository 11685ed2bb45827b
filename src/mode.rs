//! Turns a program's argument list into an optional mode name.
use vstd::prelude::*;
use vstd::string::StringExecFns;

verus! {

/// The flag that introduces a mode name.
pub const MODE_FLAG: &'static str = "--mode";

/// The message carried by a usage error.
pub const USAGE: &'static str = "invalid usage, example: <bin_name> --mode <mode_name>";

/// The mode selector shared by the benchmark programs.
pub struct ModeParser;

/// The argument list names no mode: only the program name is present.
pub open spec fn selects_no_mode(args: Seq<Seq<char>>) -> bool {
    args.len() == 1
}

/// The argument list is `<program> --mode <name>`.
pub open spec fn selects_a_mode(args: Seq<Seq<char>>) -> bool {
    args.len() == 3 && args[1] == MODE_FLAG@
}

/// The views of the arguments, one per argument.
pub open spec fn arg_views(args: Seq<String>) -> Seq<Seq<char>> {
    args.map_values(|a: String| a@)
}

impl ModeParser {
    /// Reads a mode selection from `args`, whose first item is the program name.
    ///
    /// No further argument selects no mode; `--mode <name>` selects `name`;
    /// any other shape is a usage error.
    pub fn parse(args: &Vec<String>) -> (r: Result<Option<String>, String>)
        ensures
            selects_no_mode(arg_views(args@)) <==> r == Ok::<Option<String>, String>(None),
            selects_a_mode(arg_views(args@)) <==> (r is Ok && r->Ok_0 is Some),
            selects_a_mode(arg_views(args@)) ==> r->Ok_0->Some_0@ == args@[2]@,
            !selects_no_mode(arg_views(args@)) && !selects_a_mode(arg_views(args@)) <==> r is Err,
            r is Err ==> r->Err_0@ == USAGE@,
    {
        if args.len() == 1 {
            Ok(None)
        } else if args.len() == 3 && args[1] == String::from_str(MODE_FLAG) {
            Ok(Some(args[2].clone()))
        } else {
            Err(String::from_str(USAGE))
        }
    }
}

} // verus!
