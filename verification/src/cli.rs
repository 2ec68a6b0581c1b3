//! Mapping of the command-line argument onto the action to run.
//!
//! The argument is taken with its leading dashes stripped; anything that is
//! not one of the update, outdated or version spellings falls back to help.

use vstd::prelude::*;

use crate::bytes::bytes_eq;
use crate::bytes::first_where;
use crate::bytes::lemma_first_where;

verus! {

/// The action selected by the command-line argument.
#[derive(Clone, Copy, Debug, PartialEq, Eq, Structural)]
pub enum CliCommand {
    UpdateAll,
    ShowOutdated,
    Version,
    Help,
}

pub open spec fn lit_update() -> Seq<u8> {
    seq![117u8, 112u8, 100u8, 97u8, 116u8, 101u8]
}

pub open spec fn lit_upgrade() -> Seq<u8> {
    seq![117u8, 112u8, 103u8, 114u8, 97u8, 100u8, 101u8]
}

pub open spec fn lit_u() -> Seq<u8> {
    seq![117u8]
}

pub open spec fn lit_outdated() -> Seq<u8> {
    seq![111u8, 117u8, 116u8, 100u8, 97u8, 116u8, 101u8, 100u8]
}

pub open spec fn lit_list() -> Seq<u8> {
    seq![108u8, 105u8, 115u8, 116u8]
}

pub open spec fn lit_show() -> Seq<u8> {
    seq![115u8, 104u8, 111u8, 119u8]
}

pub open spec fn lit_o() -> Seq<u8> {
    seq![111u8]
}

pub open spec fn lit_l() -> Seq<u8> {
    seq![108u8]
}

pub open spec fn lit_version() -> Seq<u8> {
    seq![118u8, 101u8, 114u8, 115u8, 105u8, 111u8, 110u8]
}

pub open spec fn lit_v() -> Seq<u8> {
    seq![118u8]
}

/// Which action each argument spelling selects; anything unrecognized means
/// help.
pub open spec fn spec_run_command(cmd: Seq<u8>) -> CliCommand {
    if cmd == lit_update() || cmd == lit_upgrade() || cmd == lit_u() {
        CliCommand::UpdateAll
    } else if cmd == lit_outdated() || cmd == lit_list() || cmd == lit_show() || cmd == lit_o()
        || cmd == lit_l() {
        CliCommand::ShowOutdated
    } else if cmd == lit_version() || cmd == lit_v() {
        CliCommand::Version
    } else {
        CliCommand::Help
    }
}

/// Select the action for the dash-stripped command-line argument.
pub fn run_command(cmd: &[u8]) -> (r: CliCommand)
    ensures
        r == spec_run_command(cmd@),
{
    let mut w: Vec<u8> = Vec::new();
    w.push(117);
    w.push(112);
    w.push(100);
    w.push(97);
    w.push(116);
    w.push(101);
    proof {
        assert(w@ =~= lit_update());
    }
    if bytes_eq(cmd, w.as_slice()) {
        return CliCommand::UpdateAll;
    }
    let mut w: Vec<u8> = Vec::new();
    w.push(117);
    w.push(112);
    w.push(103);
    w.push(114);
    w.push(97);
    w.push(100);
    w.push(101);
    proof {
        assert(w@ =~= lit_upgrade());
    }
    if bytes_eq(cmd, w.as_slice()) {
        return CliCommand::UpdateAll;
    }
    let mut w: Vec<u8> = Vec::new();
    w.push(117);
    proof {
        assert(w@ =~= lit_u());
    }
    if bytes_eq(cmd, w.as_slice()) {
        return CliCommand::UpdateAll;
    }
    let mut w: Vec<u8> = Vec::new();
    w.push(111);
    w.push(117);
    w.push(116);
    w.push(100);
    w.push(97);
    w.push(116);
    w.push(101);
    w.push(100);
    proof {
        assert(w@ =~= lit_outdated());
    }
    if bytes_eq(cmd, w.as_slice()) {
        return CliCommand::ShowOutdated;
    }
    let mut w: Vec<u8> = Vec::new();
    w.push(108);
    w.push(105);
    w.push(115);
    w.push(116);
    proof {
        assert(w@ =~= lit_list());
    }
    if bytes_eq(cmd, w.as_slice()) {
        return CliCommand::ShowOutdated;
    }
    let mut w: Vec<u8> = Vec::new();
    w.push(115);
    w.push(104);
    w.push(111);
    w.push(119);
    proof {
        assert(w@ =~= lit_show());
    }
    if bytes_eq(cmd, w.as_slice()) {
        return CliCommand::ShowOutdated;
    }
    let mut w: Vec<u8> = Vec::new();
    w.push(111);
    proof {
        assert(w@ =~= lit_o());
    }
    if bytes_eq(cmd, w.as_slice()) {
        return CliCommand::ShowOutdated;
    }
    let mut w: Vec<u8> = Vec::new();
    w.push(108);
    proof {
        assert(w@ =~= lit_l());
    }
    if bytes_eq(cmd, w.as_slice()) {
        return CliCommand::ShowOutdated;
    }
    let mut w: Vec<u8> = Vec::new();
    w.push(118);
    w.push(101);
    w.push(114);
    w.push(115);
    w.push(105);
    w.push(111);
    w.push(110);
    proof {
        assert(w@ =~= lit_version());
    }
    if bytes_eq(cmd, w.as_slice()) {
        return CliCommand::Version;
    }
    let mut w: Vec<u8> = Vec::new();
    w.push(118);
    proof {
        assert(w@ =~= lit_v());
    }
    if bytes_eq(cmd, w.as_slice()) {
        return CliCommand::Version;
    }
    CliCommand::Help
}

/// `arg` with every leading dash removed, as done to the raw argument before
/// it is matched.
pub open spec fn spec_strip_dashes(s: Seq<u8>) -> Seq<u8> {
    s.skip(first_where(s, |b: u8| b != 45u8))
}

/// Strip the leading dashes off the raw command-line argument.
pub fn strip_dashes(arg: &[u8]) -> (r: Vec<u8>)
    ensures
        r@ == spec_strip_dashes(arg@),
{
    let mut lo: usize = 0;
    while lo < arg.len() && arg[lo] == 45
        invariant
            lo <= arg@.len(),
            forall|j: int| 0 <= j < lo ==> arg@[j] == 45,
        decreases arg@.len() - lo,
    {
        lo += 1;
    }
    proof {
        let p = |b: u8| b != 45u8;
        lemma_first_where(arg@, p);
        let f = first_where(arg@, p);
        assert(f == lo as int) by {
            if f < lo as int {
                assert(p(arg@[f]));
            }
            if (lo as int) < f {
                assert(!p(arg@[lo as int]));
            }
        }
        assert(arg@.subrange(lo as int, arg@.len() as int) =~= arg@.skip(lo as int));
    }
    vstd::slice::slice_to_vec(&arg[lo..arg.len()])
}

} // verus!
