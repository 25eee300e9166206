//! The decisions of a mutation-testing run that do not depend on its
//! processes: which phases a scenario goes through, with which timeout and
//! compiler wrapper, when it stops, and how many build directories run at
//! once.

use vstd::prelude::*;
use crate::cargo::{Phase, is_test_phase, pair_of, pair_views};
use crate::options::TestTool;
use crate::text::{chars_of, extend_chars, literal, string_of};

verus! {

/// The phases of a scenario: a check where only checking is asked for, else
/// the build and the test phase of the tool. There are none for `nextest`,
/// which is refused, nor for crate-level selection, which has no phases of
/// its own.
pub open spec fn phases_of(check_only: bool, tool: TestTool) -> Option<Seq<Phase>> {
    if check_only {
        Some(seq![Phase::Check])
    } else {
        match tool {
            TestTool::Cargo => Some(seq![Phase::Build, Phase::Test]),
            TestTool::Dynamic => Some(seq![Phase::BuildDynamic, Phase::Dynamic]),
            TestTool::Static => Some(seq![Phase::Build, Phase::Static]),
            TestTool::Nextest | TestTool::Basic => None,
        }
    }
}

/// The phases of a scenario, where the tool has them.
pub fn scenario_phases(check_only: bool, tool: TestTool) -> (r: Option<Vec<Phase>>)
    ensures
        match r {
            Some(v) => phases_of(check_only, tool) == Some(v@),
            None => phases_of(check_only, tool) is None,
        },
{
    if check_only {
        let v = vec![Phase::Check];
        assert(v@ =~= seq![Phase::Check]);
        return Some(v);
    }
    match tool {
        TestTool::Cargo => {
            let v = vec![Phase::Build, Phase::Test];
            assert(v@ =~= seq![Phase::Build, Phase::Test]);
            Some(v)
        },
        TestTool::Dynamic => {
            let v = vec![Phase::BuildDynamic, Phase::Dynamic];
            assert(v@ =~= seq![Phase::BuildDynamic, Phase::Dynamic]);
            Some(v)
        },
        TestTool::Static => {
            let v = vec![Phase::Build, Phase::Static];
            assert(v@ =~= seq![Phase::Build, Phase::Static]);
            Some(v)
        },
        _ => None,
    }
}

/// The timeout of a phase, in nanoseconds: the test timeout for a phase that
/// runs tests, none for the others.
pub fn phase_timeout(phase: Phase, test_timeout: u128) -> (r: Option<u128>)
    ensures
        r == (if is_test_phase(phase) { Some(test_timeout) } else { None::<u128> }),
{
    if phase.is_test_phase() {
        Some(test_timeout)
    } else {
        None
    }
}

/// Whether a scenario goes on after a phase: not after a failed phase, nor
/// after the check where only checking is asked for.
pub fn continue_after(phase: Phase, check_only: bool, success: bool) -> (r: bool)
    ensures
        r == !((phase == Phase::Check && check_only) || !success),
{
    !((phase == Phase::Check && check_only) || !success)
}

/// The target directory of a build directory.
pub open spec fn target_dir_of(build_dir: Seq<char>) -> Seq<char> {
    build_dir + "/target"@
}

/// The environment that a phase runs with besides the usual one: the
/// instrumenting compiler wrapper for the dynamic build, all tests for the
/// dynamic test phase while the tree is prepared, nothing else.
pub open spec fn wrapper_env_of(
    phase: Phase,
    preparing: bool,
    build_dir: Seq<char>,
    cargo_home: Seq<char>,
) -> Option<Seq<(Seq<char>, Seq<char>)>> {
    if phase == Phase::BuildDynamic {
        Some(
            seq![
                ("RUSTC_WRAPPER"@, cargo_home + "/bin/rustyrts-dynamic"@),
                ("CARGO_TARGET_DIR"@, target_dir_of(build_dir)),
                ("RUSTYRTS_ONLY_INSTRUMENTATION"@, "true"@),
            ],
        )
    } else if phase == Phase::Dynamic && preparing {
        Some(seq![("RUSTYRTS_RETEST_ALL"@, "true"@)])
    } else {
        None
    }
}

/// Two texts one after the other.
fn joined(a: &str, b: &str) -> (r: String)
    ensures
        r@ == a@ + b@,
{
    let mut v = chars_of(a);
    let w = chars_of(b);
    extend_chars(&mut v, w.as_slice());
    string_of(v.as_slice())
}

/// The environment that a phase runs with besides the usual one, for a
/// scenario in `build_dir`, with cargo's home at `cargo_home`; `preparing`
/// where the phase readies the tree before a mutant is applied.
pub fn phase_wrapper_env(phase: Phase, preparing: bool, build_dir: &str, cargo_home: &str) -> (r: Option<
    Vec<(String, String)>,
>)
    ensures
        match r {
            Some(v) => wrapper_env_of(phase, preparing, build_dir@, cargo_home@) == Some(pair_views(v@)),
            None => wrapper_env_of(phase, preparing, build_dir@, cargo_home@) is None,
        },
{
    if phase == Phase::BuildDynamic {
        let bin = joined(cargo_home, "/bin/rustyrts-dynamic");
        let target = joined(build_dir, "/target");
        let v = vec![
            pair_of("RUSTC_WRAPPER", bin.as_str()),
            pair_of("CARGO_TARGET_DIR", target.as_str()),
            pair_of("RUSTYRTS_ONLY_INSTRUMENTATION", "true"),
        ];
        assert(pair_views(v@) =~= wrapper_env_of(phase, preparing, build_dir@, cargo_home@).unwrap());
        Some(v)
    } else if phase == Phase::Dynamic && preparing {
        let v = vec![pair_of("RUSTYRTS_RETEST_ALL", "true")];
        assert(pair_views(v@) =~= wrapper_env_of(phase, preparing, build_dir@, cargo_home@).unwrap());
        Some(v)
    } else {
        None
    }
}

/// The cache directories that the dynamic build needs under the target
/// directory of `build_dir`.
pub fn instrumentation_dirs(build_dir: &str) -> (r: (String, String))
    ensures
        r.0@ == target_dir_of(build_dir@) + "/.rts"@,
        r.1@ == target_dir_of(build_dir@) + "/.rts_dynamic"@,
{
    let target = joined(build_dir, "/target");
    (joined(target.as_str(), "/.rts"), joined(target.as_str(), "/.rts_dynamic"))
}

/// The number of build directories that test mutants at once: the jobs asked
/// for (one by default), at most one per mutant, and at least one.
pub fn worker_count(jobs: Option<usize>, mutants: usize) -> (r: usize)
    ensures
        r == vstd::math::max(
            1,
            vstd::math::min(
                match jobs {
                    Some(j) => j as int,
                    None => 1,
                },
                mutants as int,
            ),
        ),
{
    let j = match jobs {
        Some(j) => j,
        None => 1,
    };
    let m = if j < mutants { j } else { mutants };
    if m < 1 { 1 } else { m }
}

} // verus!
