//! Process-identity dispatch: what one run of the program does.
//!
//! The program behaves differently depending on the name it was invoked
//! under. Under its canonical name it selects a mode from its first
//! argument; under any other name it forwards the whole invocation to the
//! multi-call binary, with the invocation name prepended as the utility to
//! run. The caller derives the invocation name from its argument vector
//! and performs the chosen mode.

use vstd::prelude::*;

use crate::scan::bytes_eq;
use crate::scan::char_bytes;
use crate::scan::lit_bytes;

verus! {

/// What a run of the program should do, derived once from the invocation.
pub enum Mode {
    /// Install shims into the current directory.
    Link,
    /// Remove shims from the current directory.
    Drop,
    /// Print guidance for resolving shell alias conflicts.
    Pwsh,
    /// Print the usage text.
    Help,
    /// Run the multi-call binary with this argument vector, forwarding the
    /// standard streams and mirroring the child's exit code.
    Forward { argv: Vec<Vec<u8>> },
}

/// The canonical program name; any other invocation name forwards.
pub open spec fn canonical_name() -> Seq<u8> {
    char_bytes("coreutils-wrapper"@)
}

/// The flag that selects the install flow.
pub open spec fn is_link_flag(arg: Seq<u8>) -> bool {
    arg == char_bytes("-link"@) || arg == char_bytes("--link"@)
}

/// The flag that selects the uninstall flow.
pub open spec fn is_drop_flag(arg: Seq<u8>) -> bool {
    arg == char_bytes("-drop"@) || arg == char_bytes("--drop"@)
}

/// The flag that selects the alias-guidance text.
pub open spec fn is_pwsh_flag(arg: Seq<u8>) -> bool {
    arg == char_bytes("--pwsh"@)
}

/// Chooses the mode of a run from the invocation name and the remaining
/// arguments. Under the canonical name the first argument selects a flow,
/// anything else (a missing argument included) asks for the usage text;
/// under any other name the run forwards, with the invocation name
/// prepended to the arguments as the utility to invoke.
pub fn dispatch(invoked_as: &Vec<u8>, args: &Vec<Vec<u8>>) -> (m: Mode)
    ensures
        invoked_as@ == canonical_name() ==> m == (if args.deep_view().len() > 0 && is_link_flag(
            args.deep_view()[0],
        ) {
            Mode::Link
        } else if args.deep_view().len() > 0 && is_drop_flag(args.deep_view()[0]) {
            Mode::Drop
        } else if args.deep_view().len() > 0 && is_pwsh_flag(args.deep_view()[0]) {
            Mode::Pwsh
        } else {
            Mode::Help
        }),
        invoked_as@ != canonical_name() ==> (m matches Mode::Forward { argv } && argv.deep_view()
            == seq![invoked_as@] + args.deep_view()),
{
    proof {
        reveal_strlit("coreutils-wrapper");
        reveal_strlit("-link");
        reveal_strlit("--link");
        reveal_strlit("-drop");
        reveal_strlit("--drop");
        reveal_strlit("--pwsh");
    }
    let canon = lit_bytes("coreutils-wrapper");
    if bytes_eq(invoked_as, &canon) {
        if args.len() > 0 {
            let first = &args[0];
            proof {
                assert(args.deep_view()[0] =~= args@[0]@);
            }
            let link_short = lit_bytes("-link");
            let link_long = lit_bytes("--link");
            if bytes_eq(first, &link_short) || bytes_eq(first, &link_long) {
                return Mode::Link;
            }
            let drop_short = lit_bytes("-drop");
            let drop_long = lit_bytes("--drop");
            if bytes_eq(first, &drop_short) || bytes_eq(first, &drop_long) {
                return Mode::Drop;
            }
            let pwsh = lit_bytes("--pwsh");
            if bytes_eq(first, &pwsh) {
                return Mode::Pwsh;
            }
            Mode::Help
        } else {
            Mode::Help
        }
    } else {
        let mut argv: Vec<Vec<u8>> = Vec::new();
        argv.push(vstd::slice::slice_to_vec(invoked_as.as_slice()));
        proof {
            assert(argv.deep_view() =~~= seq![invoked_as@] + args.deep_view().take(0));
        }
        let mut i: usize = 0;
        while i < args.len()
            invariant
                i <= args@.len(),
                argv.deep_view() == seq![invoked_as@] + args.deep_view().take(i as int),
            decreases args@.len() - i,
        {
            let ghost old_deep = argv.deep_view();
            argv.push(vstd::slice::slice_to_vec(args[i].as_slice()));
            proof {
                assert(args.deep_view()[i as int] =~= args@[i as int]@);
                assert(argv.deep_view() =~~= old_deep.push(args.deep_view()[i as int]));
                assert(argv.deep_view() =~~= seq![invoked_as@] + args.deep_view().take(i + 1));
            }
            i += 1;
        }
        proof {
            assert(args.deep_view().take(args@.len() as int) =~~= args.deep_view());
        }
        Mode::Forward { argv }
    }
}

/// Exit code of a forwarding run whose child could not be started at all:
/// the child's own code is unavailable, and the failure to launch is
/// reported with this nonzero status.
pub const LAUNCH_FAILURE_EXIT_CODE: i32 = 1;

/// The exit code of a forwarding run: the child's own exit code, or 1 when
/// the child ended without one.
pub fn forward_exit_code(child_code: Option<i32>) -> (r: i32)
    ensures
        match child_code {
            Some(c) => r == c,
            None => r == 1,
        },
{
    match child_code {
        Some(c) => c,
        None => 1,
    }
}

} // verus!
