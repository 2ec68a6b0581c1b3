//! The upgrade orchestration decisions: which packages of the outdated set
//! are upgraded, in what order, with what preparation, and how an upgrade
//! subprocess's exit is classified.
//!
//! The runner outside the library walks the plan in order, one step at a
//! time: it relocates the running executable when a step asks for it, prints
//! the separator and announcement, spawns the install subprocess, and hands
//! the exit code back to [`classify_exit`].

use vstd::prelude::*;

use crate::bytes::bytes_eq;
use crate::package::Package;
use crate::package::PackageV;

verus! {

/// Terminal status of one upgrade subprocess.
#[derive(Clone, Copy, Debug, PartialEq, Eq, Structural)]
pub enum UpgradeOutcome {
    Success,
    Failure,
    Warning,
}

/// Exit code 0 means success, 1 failure, anything else an ambiguous warning;
/// a subprocess killed without a code counts as failure.
pub open spec fn spec_classify_exit(code: Option<i32>) -> UpgradeOutcome {
    match code {
        Some(c) => if c == 0 {
            UpgradeOutcome::Success
        } else if c == 1 {
            UpgradeOutcome::Failure
        } else {
            UpgradeOutcome::Warning
        },
        None => UpgradeOutcome::Failure,
    }
}

/// Classify the exit code of an upgrade subprocess.
pub fn classify_exit(code: Option<i32>) -> (r: UpgradeOutcome)
    ensures
        r == spec_classify_exit(code),
{
    match code {
        Some(c) => {
            if c == 0 {
                UpgradeOutcome::Success
            } else if c == 1 {
                UpgradeOutcome::Failure
            } else {
                UpgradeOutcome::Warning
            }
        },
        None => UpgradeOutcome::Failure,
    }
}

/// One step of the upgrade plan.
pub enum PlanStep {
    /// The tool itself is outdated but runs as a debug build: its upgrade is
    /// skipped with a notice, and nothing else happens for it.
    SkipSelfDebug { name: Vec<u8> },
    /// Upgrade this package. When it is the running tool itself, the
    /// executable is relocated first; a separator line precedes the
    /// announcement when an upgrade was already announced before.
    Upgrade { package: Package, relocate_first: bool, separator_before: bool },
}

/// Mathematical model of a [`PlanStep`].
pub ghost enum PlanStepV {
    SkipSelfDebug { name: Seq<u8> },
    Upgrade { package: PackageV, relocate_first: bool, separator_before: bool },
}

impl View for PlanStep {
    type V = PlanStepV;

    open spec fn view(&self) -> PlanStepV {
        match self {
            PlanStep::SkipSelfDebug { name } => PlanStepV::SkipSelfDebug { name: name@ },
            PlanStep::Upgrade { package, relocate_first, separator_before } => PlanStepV::Upgrade {
                package: package@,
                relocate_first: *relocate_first,
                separator_before: *separator_before,
            },
        }
    }
}

/// The plan for an outdated set, walked front to back with `done_one`
/// saying whether an upgrade was already announced: unresolved records are
/// dropped, the tool itself is skipped in a debug build and relocated first
/// otherwise, and every other record becomes a plain upgrade step.
pub open spec fn spec_plan(
    ps: Seq<PackageV>,
    self_name: Seq<u8>,
    debug_build: bool,
    done_one: bool,
) -> Seq<PlanStepV>
    decreases ps.len(),
{
    if ps.len() == 0 {
        Seq::empty()
    } else {
        let head = ps[0];
        let rest = ps.skip(1);
        if head.new_version is None {
            spec_plan(rest, self_name, debug_build, done_one)
        } else if head.name == self_name && debug_build {
            seq![PlanStepV::SkipSelfDebug { name: head.name }] + spec_plan(
                rest,
                self_name,
                debug_build,
                done_one,
            )
        } else {
            seq![
                PlanStepV::Upgrade {
                    package: head,
                    relocate_first: head.name == self_name,
                    separator_before: done_one,
                },
            ] + spec_plan(rest, self_name, debug_build, true)
        }
    }
}

/// Lay out the sequential upgrade plan for the outdated set: one upgrade
/// step per resolved package, in inventory order, self-upgrades prepared or
/// skipped as the build configuration demands. No package is planned twice,
/// and the runner performing one step at a time never overlaps two installs.
pub fn plan_upgrades(packages: &Vec<Package>, self_name: &[u8], debug_build: bool) -> (plan: Vec<
    PlanStep,
>)
    ensures
        plan@.map_values(|s: PlanStep| s@) == spec_plan(
            packages@.map_values(|p: Package| p@),
            self_name@,
            debug_build,
            false,
        ),
{
    let ghost ps = packages@.map_values(|p: Package| p@);
    let mut plan: Vec<PlanStep> = Vec::new();
    let mut done_one = false;
    let mut i: usize = 0;
    proof {
        assert(ps.skip(0) =~= ps);
        assert(plan@.map_values(|s: PlanStep| s@) =~= Seq::<PlanStepV>::empty());
    }
    while i < packages.len()
        invariant
            i <= packages@.len(),
            ps == packages@.map_values(|p: Package| p@),
            spec_plan(ps, self_name@, debug_build, false) == plan@.map_values(|s: PlanStep| s@)
                + spec_plan(ps.skip(i as int), self_name@, debug_build, done_one),
        decreases packages@.len() - i,
    {
        let ghost prev = plan@.map_values(|s: PlanStep| s@);
        proof {
            assert(ps.skip(i as int)[0] == ps[i as int]);
            assert(ps.skip(i as int).skip(1) =~= ps.skip(i as int + 1));
        }
        let package = &packages[i];
        if package.new_version.is_none() {
        } else if bytes_eq(package.name.as_slice(), self_name) && debug_build {
            let step = PlanStep::SkipSelfDebug {
                name: vstd::slice::slice_to_vec(package.name.as_slice()),
            };
            proof {
                assert(plan@.push(step).map_values(|s: PlanStep| s@) =~= prev.push(step@));
                assert(prev.push(step@) + spec_plan(
                    ps.skip(i as int + 1),
                    self_name@,
                    debug_build,
                    done_one,
                ) =~= prev + (seq![step@] + spec_plan(
                    ps.skip(i as int + 1),
                    self_name@,
                    debug_build,
                    done_one,
                )));
            }
            plan.push(step);
        } else {
            let relocate_first = bytes_eq(package.name.as_slice(), self_name);
            let step = PlanStep::Upgrade {
                package: package.duplicate(),
                relocate_first,
                separator_before: done_one,
            };
            proof {
                assert(plan@.push(step).map_values(|s: PlanStep| s@) =~= prev.push(step@));
                assert(prev.push(step@) + spec_plan(
                    ps.skip(i as int + 1),
                    self_name@,
                    debug_build,
                    true,
                ) =~= prev + (seq![step@] + spec_plan(
                    ps.skip(i as int + 1),
                    self_name@,
                    debug_build,
                    true,
                )));
            }
            plan.push(step);
            done_one = true;
        }
        i += 1;
    }
    proof {
        assert(ps.skip(i as int) =~= Seq::<PackageV>::empty());
        assert(plan@.map_values(|s: PlanStep| s@) + Seq::<PlanStepV>::empty() =~= plan@.map_values(
            |s: PlanStep| s@,
        ));
    }
    plan
}

} // verus!
