use extension_installer::unpack::{plan_unpack, UnpackPlan};

fn path(text: &str) -> Option<Vec<u8>> {
    Some(text.as_bytes().to_vec())
}

#[test]
fn plan_strips_the_wrapper_of_each_member() {
    let listing = vec![path("pkg/"), path("pkg/index.js"), path("pkg/lib/a.js"), path("index.js")];
    assert_eq!(
        plan_unpack(&listing),
        UnpackPlan {
            targets: vec![None, path("index.js"), path("lib/a.js"), None],
            complete: true,
        }
    );
}

#[test]
fn plan_of_an_empty_archive() {
    assert_eq!(plan_unpack(&vec![]), UnpackPlan { targets: vec![], complete: true });
}

#[test]
fn plan_stops_at_the_first_unreadable_member() {
    let listing = vec![path("pkg/a"), None];
    assert_eq!(plan_unpack(&listing), UnpackPlan { targets: vec![path("a")], complete: false });
    let listing = vec![None, path("pkg/a")];
    assert_eq!(plan_unpack(&listing), UnpackPlan { targets: vec![], complete: false });
}

#[test]
fn planned_targets_are_relative() {
    let listing = vec![path("/pkg/a"), path("pkg//a"), path("./pkg/a"), path("pkg/./a/")];
    for target in plan_unpack(&listing).targets {
        let target = target.unwrap();
        assert!(!target.is_empty());
        assert_ne!(target[0], b'/');
    }
}
