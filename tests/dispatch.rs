use std::cell::RefCell;
use whatson_launcher::dispatch::{
    after_configure, build_args, build_dir, configure_args, exit_code, find_prebuilt,
    first_build_step, prebuilt_candidates, prebuilt_exit, BuildStep, ChildOutcome, BUILD_TOOL,
    EXIT_FAILURE,
};

fn s(x: &str) -> String {
    x.to_string()
}

fn strings(list: &[&str]) -> Vec<String> {
    list.iter().map(|x| x.to_string()).collect()
}

#[test]
fn prebuilt_locations_in_priority_order() {
    assert_eq!(
        prebuilt_candidates(&s("/p")),
        strings(&[
            "/p/build/src/app/bin/WhatSon.app/Contents/MacOS/WhatSon",
            "/p/build/src/app/bin/WhatSon",
            "/p/build/src/app/WhatSon",
        ])
    );
}

#[test]
fn first_priority_prebuilt_is_launched() {
    let fs = strings(&[
        "/p/build/src/app/bin/WhatSon.app/Contents/MacOS/WhatSon",
        "/p/build/src/app/bin/WhatSon",
        "/p/build/src/app/WhatSon",
    ]);
    let probes: RefCell<Vec<String>> = RefCell::new(Vec::new());
    let exe = find_prebuilt(&s("/p"), &|p: &String| {
        probes.borrow_mut().push(p.clone());
        fs.contains(p)
    });
    assert_eq!(exe, Some(s("/p/build/src/app/bin/WhatSon.app/Contents/MacOS/WhatSon")));
    assert_eq!(probes.into_inner().len(), 1);
    assert_eq!(prebuilt_exit(ChildOutcome::Exited(0)), Some(0));
}

#[test]
fn later_prebuilt_location_is_used_when_earlier_missing() {
    let fs = strings(&["/p/build/src/app/WhatSon"]);
    let exe = find_prebuilt(&s("/p"), &|p: &String| fs.contains(p));
    assert_eq!(exe, Some(s("/p/build/src/app/WhatSon")));
}

#[test]
fn no_prebuilt_gives_none() {
    let exe = find_prebuilt(&s("/p"), &|_p: &String| false);
    assert_eq!(exe, None);
}

#[test]
fn unsuccessful_prebuilt_falls_through() {
    assert_eq!(prebuilt_exit(ChildOutcome::Exited(3)), None);
    assert_eq!(prebuilt_exit(ChildOutcome::NoCode), None);
    assert_eq!(prebuilt_exit(ChildOutcome::Unavailable), None);
}

#[test]
fn build_dir_and_arguments() {
    assert_eq!(BUILD_TOOL, "cmake");
    assert_eq!(build_dir(&s("/p")), "/p/build");
    assert_eq!(configure_args(&s("/p")), strings(&["-S", "/p", "-B", "/p/build"]));
    assert_eq!(
        build_args(&s("/p")),
        strings(&["--build", "/p/build", "--target", "whatson_run_app"])
    );
}

#[test]
fn missing_build_dir_configures_and_failure_stops() {
    let step = first_build_step(&s("/p"), &|_p: &String| false);
    assert_eq!(step, BuildStep::Configure);
    assert_eq!(after_configure(ChildOutcome::Exited(2)), BuildStep::Finish(2));
    assert_eq!(after_configure(ChildOutcome::NoCode), BuildStep::Finish(EXIT_FAILURE));
    assert_eq!(after_configure(ChildOutcome::Unavailable), BuildStep::Finish(1));
}

#[test]
fn successful_configure_goes_on_to_build() {
    assert_eq!(after_configure(ChildOutcome::Exited(0)), BuildStep::Build);
}

#[test]
fn existing_build_dir_builds_directly() {
    let probes: RefCell<Vec<String>> = RefCell::new(Vec::new());
    let step = first_build_step(&s("/p"), &|p: &String| {
        probes.borrow_mut().push(p.clone());
        p == "/p/build"
    });
    assert_eq!(step, BuildStep::Build);
    assert_eq!(probes.into_inner(), strings(&["/p/build"]));
    assert_eq!(exit_code(ChildOutcome::Exited(7)), 7);
    assert_eq!(exit_code(ChildOutcome::Exited(0)), 0);
}

#[test]
fn child_without_code_exits_with_failure() {
    assert_eq!(exit_code(ChildOutcome::NoCode), 1);
    assert_eq!(exit_code(ChildOutcome::Unavailable), 1);
}
