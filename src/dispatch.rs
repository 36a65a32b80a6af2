use vstd::prelude::*;
use crate::locator::{answered, lemma_answer_agrees, opt_view, reports};
use crate::paths::{join, join_path};
use crate::search::{
    first_match, lemma_first_match_at, lemma_first_match_none, lemma_views_push, views,
};

verus! {

/// The exit code used when the launcher itself fails, and when a child ends
/// without an exit code.
pub const EXIT_FAILURE: i32 = 1;

/// The program that configures and builds the project.
pub const BUILD_TOOL: &'static str = "cmake";

/// How a child process ended.
#[derive(Clone, Copy, Debug, PartialEq, Eq, Structural)]
pub enum ChildOutcome {
    /// It ran and exited with this code.
    Exited(i32),
    /// It ran and ended without an exit code (killed by a signal).
    NoCode,
    /// It could not be started or waited on.
    Unavailable,
}

/// The next thing the build-and-run fallback does.
#[derive(Clone, Copy, Debug, PartialEq, Eq, Structural)]
pub enum BuildStep {
    /// Run the build tool with [`configure_args`].
    Configure,
    /// Run the build tool with [`build_args`].
    Build,
    /// Stop, and exit the process with this code.
    Finish(i32),
}

/// Where a prebuilt executable may stand, in the order they are tried: the
/// macOS application bundle, the build output binary, the top-level binary.
pub open spec fn prebuilt_paths(root: Seq<char>) -> Seq<Seq<char>> {
    seq![
        join(root, "build/src/app/bin/WhatSon.app/Contents/MacOS/WhatSon"@),
        join(root, "build/src/app/bin/WhatSon"@),
        join(root, "build/src/app/WhatSon"@),
    ]
}

/// The build output directory under `root`.
pub open spec fn build_dir_of(root: Seq<char>) -> Seq<char> {
    join(root, "build"@)
}

/// The build target that builds and runs the application.
pub open spec fn run_target() -> Seq<char> {
    "whatson_run_app"@
}

/// Probing `paths` with `is_file` stops at index `k`: a file was found there
/// and none at any earlier path.
pub open spec fn found_at<F: Fn(&String) -> bool>(is_file: F, paths: Seq<Seq<char>>, k: int) -> bool {
    &&& 0 <= k < paths.len()
    &&& answered(is_file, paths[k], true)
    &&& forall|j: int| 0 <= j < k ==> answered(is_file, #[trigger] paths[j], false)
}

/// The exit code, if any, that a finished prebuilt run settles: only a
/// successful run ends the launch; anything else falls through to the build.
pub open spec fn prebuilt_exit_of(outcome: ChildOutcome) -> Option<i32> {
    if outcome == ChildOutcome::Exited(0) {
        Some(0)
    } else {
        None
    }
}

/// The exit code a child's outcome is passed on as.
pub open spec fn code_of(outcome: ChildOutcome) -> i32 {
    match outcome {
        ChildOutcome::Exited(c) => c,
        _ => EXIT_FAILURE,
    }
}

/// The first step of the fallback: configure unless the build directory exists.
pub open spec fn first_step_of(build_dir_exists: bool) -> BuildStep {
    if build_dir_exists {
        BuildStep::Build
    } else {
        BuildStep::Configure
    }
}

/// The step after configuring: build on success, else stop with its code.
pub open spec fn after_configure_of(outcome: ChildOutcome) -> BuildStep {
    if outcome == ChildOutcome::Exited(0) {
        BuildStep::Build
    } else {
        BuildStep::Finish(code_of(outcome))
    }
}

/// The candidate locations of a prebuilt executable under `root`.
pub fn prebuilt_candidates(root: &String) -> (r: Vec<String>)
    ensures
        views(r@) == prebuilt_paths(root@),
{
    let mut r: Vec<String> = Vec::new();
    let a = join_path(root, "build/src/app/bin/WhatSon.app/Contents/MacOS/WhatSon");
    proof {
        lemma_views_push(r@, a);
    }
    r.push(a);
    let b = join_path(root, "build/src/app/bin/WhatSon");
    proof {
        lemma_views_push(r@, b);
    }
    r.push(b);
    let c = join_path(root, "build/src/app/WhatSon");
    proof {
        lemma_views_push(r@, c);
    }
    r.push(c);
    assert(views(r@) =~= prebuilt_paths(root@));
    r
}

/// The prebuilt executable to launch: the first candidate location that
/// `is_file` reports as a file. Later locations are not probed.
pub fn find_prebuilt<F: Fn(&String) -> bool>(root: &String, is_file: &F) -> (r: Option<String>)
    requires
        forall|s: String| is_file.requires((&s,)),
    ensures
        match r {
            Some(p) => exists|k: int|
                #[trigger] found_at(*is_file, prebuilt_paths(root@), k) && prebuilt_paths(root@)[k]
                    == p@,
            None => forall|j: int|
                0 <= j < 3 ==> answered(*is_file, #[trigger] prebuilt_paths(root@)[j], false),
        },
        forall|fs: spec_fn(Seq<char>) -> bool|
            reports(*is_file, fs) ==> opt_view(r) == first_match(prebuilt_paths(root@), fs),
{
    let paths = prebuilt_candidates(root);
    let ghost seen = views(paths@);
    let mut i: usize = 0;
    while i < paths.len()
        invariant
            i <= paths.len(),
            seen == views(paths@),
            seen == prebuilt_paths(root@),
            forall|s: String| is_file.requires((&s,)),
            forall|j: int| 0 <= j < i ==> answered(*is_file, #[trigger] seen[j], false),
        decreases paths.len() - i,
    {
        let hit = is_file(&paths[i]);
        let found = paths[i].clone();
        proof {
            assert(seen[i as int] == found@);
            assert(answered(*is_file, seen[i as int], hit));
        }
        if hit {
            proof {
                assert(found_at(*is_file, seen, i as int));
                assert forall|fs: spec_fn(Seq<char>) -> bool| reports(*is_file, fs) implies Some(
                    found@,
                ) == first_match(seen, fs) by {
                    assert forall|j: int| 0 <= j < i implies !fs(#[trigger] seen[j]) by {
                        lemma_answer_agrees(*is_file, fs, seen[j], false);
                    }
                    lemma_answer_agrees(*is_file, fs, found@, true);
                    lemma_first_match_at(seen, fs, i as int);
                }
            }
            return Some(found);
        }
        i += 1;
    }
    proof {
        assert forall|fs: spec_fn(Seq<char>) -> bool| reports(*is_file, fs) implies first_match(
            seen,
            fs,
        ) is None by {
            assert forall|j: int| 0 <= j < seen.len() implies !fs(#[trigger] seen[j]) by {
                lemma_answer_agrees(*is_file, fs, seen[j], false);
            }
            lemma_first_match_none(seen, fs);
        }
    }
    None
}

/// Whether a finished prebuilt run ends the launch, and with which code.
pub fn prebuilt_exit(outcome: ChildOutcome) -> (r: Option<i32>)
    ensures
        r == prebuilt_exit_of(outcome),
{
    match outcome {
        ChildOutcome::Exited(0) => Some(0),
        _ => None,
    }
}

/// The build output directory under `root`.
pub fn build_dir(root: &String) -> (r: String)
    ensures
        r@ == build_dir_of(root@),
{
    join_path(root, "build")
}

/// The arguments of the configure step: source root and build directory.
pub fn configure_args(root: &String) -> (r: Vec<String>)
    ensures
        views(r@) == seq!["-S"@, root@, "-B"@, build_dir_of(root@)],
{
    let mut r: Vec<String> = Vec::new();
    let a = String::from_str("-S");
    proof {
        lemma_views_push(r@, a);
    }
    r.push(a);
    let b = root.clone();
    proof {
        lemma_views_push(r@, b);
    }
    r.push(b);
    let c = String::from_str("-B");
    proof {
        lemma_views_push(r@, c);
    }
    r.push(c);
    let d = build_dir(root);
    proof {
        lemma_views_push(r@, d);
    }
    r.push(d);
    assert(views(r@) =~= seq!["-S"@, root@, "-B"@, build_dir_of(root@)]);
    r
}

/// The arguments of the build step: build directory and the target that
/// builds and runs the application.
pub fn build_args(root: &String) -> (r: Vec<String>)
    ensures
        views(r@) == seq!["--build"@, build_dir_of(root@), "--target"@, run_target()],
{
    let mut r: Vec<String> = Vec::new();
    let a = String::from_str("--build");
    proof {
        lemma_views_push(r@, a);
    }
    r.push(a);
    let b = build_dir(root);
    proof {
        lemma_views_push(r@, b);
    }
    r.push(b);
    let c = String::from_str("--target");
    proof {
        lemma_views_push(r@, c);
    }
    r.push(c);
    let d = String::from_str("whatson_run_app");
    proof {
        lemma_views_push(r@, d);
    }
    r.push(d);
    assert(views(r@) =~= seq!["--build"@, build_dir_of(root@), "--target"@, run_target()]);
    r
}

/// The first step of the build-and-run fallback: configure only when
/// `dir_exists` reports no build directory.
pub fn first_build_step<F: Fn(&String) -> bool>(root: &String, dir_exists: &F) -> (r: BuildStep)
    requires
        forall|s: String| dir_exists.requires((&s,)),
    ensures
        r == BuildStep::Build ==> answered(*dir_exists, build_dir_of(root@), true),
        r == BuildStep::Configure ==> answered(*dir_exists, build_dir_of(root@), false),
        forall|fs: spec_fn(Seq<char>) -> bool|
            reports(*dir_exists, fs) ==> r == first_step_of(fs(build_dir_of(root@))),
{
    let dir = build_dir(root);
    let present = dir_exists(&dir);
    proof {
        assert forall|fs: spec_fn(Seq<char>) -> bool| reports(*dir_exists, fs) implies present == fs(
            build_dir_of(root@),
        ) by {
            lemma_answer_agrees(*dir_exists, fs, build_dir_of(root@), present);
        }
    }
    if present {
        BuildStep::Build
    } else {
        BuildStep::Configure
    }
}

/// The step after the configure step ended with `outcome`.
pub fn after_configure(outcome: ChildOutcome) -> (r: BuildStep)
    ensures
        r == after_configure_of(outcome),
{
    match outcome {
        ChildOutcome::Exited(0) => BuildStep::Build,
        _ => BuildStep::Finish(exit_code(outcome)),
    }
}

/// The process exit code after the build step ended with `outcome`.
pub fn exit_code(outcome: ChildOutcome) -> (r: i32)
    ensures
        r == code_of(outcome),
{
    match outcome {
        ChildOutcome::Exited(c) => c,
        _ => EXIT_FAILURE,
    }
}

/// When a prebuilt executable stands at the first location, it is the one
/// chosen, and a successful run of it ends the launch with code 0.
pub proof fn law_first_prebuilt_chosen(root: Seq<char>, fs: spec_fn(Seq<char>) -> bool)
    requires
        fs(prebuilt_paths(root)[0]),
    ensures
        first_match(prebuilt_paths(root), fs) == Some(prebuilt_paths(root)[0]),
        prebuilt_exit_of(ChildOutcome::Exited(0)) == Some(0i32),
{
    lemma_first_match_at(prebuilt_paths(root), fs, 0);
}

/// Without a build directory the fallback configures first, and a configure
/// step that does not succeed ends the launch with its own code: the build
/// step is never reached.
pub proof fn law_failed_configure_is_final(outcome: ChildOutcome)
    requires
        outcome != ChildOutcome::Exited(0),
    ensures
        first_step_of(false) == BuildStep::Configure,
        after_configure_of(outcome) == BuildStep::Finish(code_of(outcome)),
        after_configure_of(outcome) != BuildStep::Build,
{
}

/// With a build directory in place the fallback builds at once, and the
/// launch ends with the build step's exit code.
pub proof fn law_existing_build_dir_builds(code: i32)
    ensures
        first_step_of(true) == BuildStep::Build,
        code_of(ChildOutcome::Exited(code)) == code,
{
}

} // verus!
