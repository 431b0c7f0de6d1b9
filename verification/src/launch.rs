//! Assembling the full invocation of the isolation primitive: the
//! "die with parent" token, the compiled policy, the identity
//! injection triples, a separator, then the target program and its
//! arguments verbatim. The spawn, the descriptor mappings and the
//! wait live outside the verified library; the exit-status decision
//! is made here.

use vstd::prelude::*;

use crate::config::{spec_sandbox_tokens, SandboxConfig};
use crate::exit::Exit;
use crate::strutil::{dec_seq, u32_to_dec};

verus! {

/// The fixed descriptor slot the passwd stream occupies in the child.
pub const PASSWD_FD: u32 = 10;

/// The fixed descriptor slot the group stream occupies in the child.
pub const GROUP_FD: u32 = 11;

/// The identity injection triples: "--file <fd> /etc/passwd" when
/// users are requested, then "--file <fd> /etc/group" when groups
/// are, in that fixed passwd-then-group order.
pub open spec fn spec_injection_tokens(c: SandboxConfig) -> Seq<Seq<char>> {
    (if c.users is Some {
        seq!["--file"@, dec_seq(PASSWD_FD as nat), "/etc/passwd"@]
    } else {
        Seq::empty()
    }) + (if c.groups is Some {
        seq!["--file"@, dec_seq(GROUP_FD as nat), "/etc/group"@]
    } else {
        Seq::empty()
    })
}

/// The whole argument sequence handed to the isolation primitive:
/// die-with-parent, the compiled policy, the injection triples, the
/// literal separator, the program, then its arguments in order.
pub open spec fn spec_invocation_tokens(
    c: SandboxConfig,
    program: Seq<char>,
    args: Seq<Seq<char>>,
) -> Seq<Seq<char>> {
    seq!["--die-with-parent"@] + spec_sandbox_tokens(c) + spec_injection_tokens(c)
        + seq!["--"@, program] + args
}

/// Builds the isolation primitive's argument vector for launching
/// `program` with `args` under policy `c`. The caller maps the
/// identity lookup streams to [`PASSWD_FD`] and [`GROUP_FD`] exactly
/// when `c.users` respectively `c.groups` is set.
pub fn bwrap_invocation(c: &SandboxConfig, program: &String, args: &Vec<String>) -> (r: Vec<
    String,
>)
    ensures
        r.deep_view() == spec_invocation_tokens(*c, program@, args.deep_view()),
{
    let mut r: Vec<String> = Vec::new();
    r.push("--die-with-parent".to_owned());
    let ghost mut expected: Seq<Seq<char>> = seq!["--die-with-parent"@];
    proof {
        assert(r.deep_view() =~= expected);
    }

    let mut policy = c.bwrap_args();
    r.append(&mut policy);
    proof {
        expected = expected + spec_sandbox_tokens(*c);
        assert(r.deep_view() =~= expected);
    }

    if c.users.is_some() {
        r.push("--file".to_owned());
        r.push(u32_to_dec(PASSWD_FD));
        r.push("/etc/passwd".to_owned());
    }
    proof {
        expected = expected + (if c.users is Some {
            seq!["--file"@, dec_seq(PASSWD_FD as nat), "/etc/passwd"@]
        } else {
            Seq::empty()
        });
        assert(r.deep_view() =~= expected);
    }

    if c.groups.is_some() {
        r.push("--file".to_owned());
        r.push(u32_to_dec(GROUP_FD));
        r.push("/etc/group".to_owned());
    }
    proof {
        expected = expected + (if c.groups is Some {
            seq!["--file"@, dec_seq(GROUP_FD as nat), "/etc/group"@]
        } else {
            Seq::empty()
        });
        assert(r.deep_view() =~= expected);
    }

    r.push("--".to_owned());
    r.push(program.clone());
    proof {
        expected = expected + seq!["--"@, program@];
        assert(r.deep_view() =~= expected);
    }

    let mut i: usize = 0;
    while i < args.len()
        invariant
            0 <= i <= args@.len(),
            r.deep_view() == expected + args.deep_view().take(i as int),
        decreases args@.len() - i,
    {
        r.push(args[i].clone());
        proof {
            let step: Seq<Seq<char>> = seq![args.deep_view()[i as int]];
            assert(args.deep_view().take(i + 1) =~= args.deep_view().take(i as int) + step);
            assert(r.deep_view() =~= (expected + args.deep_view().take(i as int)) + step);
            assert((expected + args.deep_view().take(i as int)) + step =~= expected + (
            args.deep_view().take(i as int) + step));
            assert(r.deep_view() == expected + args.deep_view().take(i + 1));
        }
        i += 1;
    }
    proof {
        assert(args.deep_view().take(args@.len() as int) =~= args.deep_view());
        assert(r.deep_view() =~= spec_invocation_tokens(*c, program@, args.deep_view()));
    }
    r
}

/// Maps the isolation primitive's observed termination to the launch
/// outcome: a known numeric exit code passes through unchanged, and a
/// termination without one (killed by a signal) is a launcher
/// failure.
pub fn interpret_exit_status(code: Option<i32>) -> (r: Exit)
    ensures
        match code {
            Some(c) => r == Exit::Program(c),
            None => r is Me && r->Me_0@ == "unknown exit code"@,
        },
{
    match code {
        Some(c) => Exit::Program(c),
        None => Exit::Me("unknown exit code".to_owned()),
    }
}

} // verus!
