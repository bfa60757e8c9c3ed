use extension_installer::archive::{extract_extension_manifest, list_archive};
use extension_installer::install::{
    build_record, extension_dir, is_package_file, plan_install, record_package, record_pass,
    resolve_flags, InstallFlags, InstalledState, PackageOutcome,
};
use extension_installer::json::parse_json;
use extension_installer::manifest::Manifest;
use extension_installer::registry::Registry;
use extension_installer::unpack::plan_unpack;
use std::io::Write;

fn tgz(members: &[(&str, &str)]) -> Vec<u8> {
    let mut builder = tar::Builder::new(Vec::new());
    for (path, content) in members {
        let mut header = tar::Header::new_gnu();
        header.as_old_mut().name[..path.len()].copy_from_slice(path.as_bytes());
        header.set_size(content.len() as u64);
        header.set_mode(0o644);
        header.set_cksum();
        builder.append(&header, content.as_bytes()).unwrap();
    }
    let tar = builder.into_inner().unwrap();
    let mut encoder = flate2::write::GzEncoder::new(Vec::new(), flate2::Compression::default());
    encoder.write_all(&tar).unwrap();
    encoder.finish().unwrap()
}

fn manifest(name: &str, version: &str) -> Manifest {
    Manifest {
        name: Some(name.to_string()),
        version: version.to_string(),
        main: "index.js".to_string(),
        description: String::new(),
        product_name: String::new(),
    }
}

fn absent() -> InstalledState {
    InstalledState { dir_exists: false, descriptor: None, modified: None }
}

fn present(version: &str, modified: i128) -> InstalledState {
    InstalledState {
        dir_exists: true,
        descriptor: Some(format!("{{\"name\":\"x\",\"version\":\"{}\"}}", version)),
        modified: Some(modified),
    }
}

const RELAXED: InstallFlags = InstallFlags { clean_up: false, replacements_disabled: false };

/// One package of a pass: its manifest, the time of its archive, and what is on disk for it.
struct Bundled {
    manifest: Manifest,
    modified: Option<i128>,
    installed: InstalledState,
}

/// Runs the decisions of a pass and gives the registry text and the decisions taken.
fn run_pass(
    existing: Option<&str>,
    flags: InstallFlags,
    root: &str,
    packages: &[Bundled],
) -> (String, Vec<bool>) {
    let mut registry = Registry::load(existing, flags.clean_up);
    let mut decisions = Vec::new();
    for package in packages {
        let name = package.manifest.name.as_ref().unwrap();
        let install = plan_install(flags, &package.manifest, package.modified, &package.installed);
        record_package(&mut registry, root, name, &package.manifest, install);
        decisions.push(install);
    }
    (registry.render().unwrap(), decisions)
}

#[test]
fn flags_take_force_or_the_standing_wish() {
    assert_eq!(resolve_flags(false, false, false), RELAXED);
    assert!(resolve_flags(true, false, false).clean_up);
    assert!(resolve_flags(false, true, false).clean_up);
    assert!(resolve_flags(true, true, false).clean_up);
    assert!(!resolve_flags(true, true, false).replacements_disabled);
    assert_eq!(
        resolve_flags(false, false, true),
        InstallFlags { clean_up: false, replacements_disabled: true }
    );
}

#[test]
fn package_files_end_in_tgz() {
    assert!(is_package_file("foo-1.2.0.tgz"));
    assert!(is_package_file("a.tgz"));
    assert!(is_package_file("..tgz"));
    assert!(is_package_file("é.tgz"));
    assert!(!is_package_file(".tgz"));
    assert!(!is_package_file("tgz"));
    assert!(!is_package_file("foo.tar.gz"));
    assert!(!is_package_file("foo.TGZ"));
    assert!(!is_package_file("foo.tgz.bak"));
    assert!(!is_package_file("foo.tgz "));
    assert!(!is_package_file(""));
}

#[test]
fn package_files_agree_with_std_extension() {
    for name in ["a.tgz", ".tgz", "..tgz", "a.b.tgz", "tgz", "a.tgzz", "a.tg", "x.tgz.", "日本.tgz"] {
        let expected = std::path::Path::new(name).extension().is_some_and(|ext| ext == "tgz");
        assert_eq!(is_package_file(name), expected, "{:?}", name);
    }
}

#[test]
fn extension_directory_is_under_the_root() {
    assert_eq!(extension_dir("/data/extensions", "foo"), "/data/extensions/foo");
    assert_eq!(extension_dir("/data/extensions/", "@scope/foo"), "/data/extensions/@scope/foo");
}

#[test]
fn plan_installs_what_is_not_there() {
    assert!(plan_install(RELAXED, &manifest("foo", "1.2.0"), Some(5), &absent()));
    assert!(plan_install(RELAXED, &manifest("foo", "1.2.0"), None, &absent()));
}

#[test]
fn plan_reads_the_installed_version() {
    let bundled = manifest("foo", "1.2.0");
    assert!(plan_install(RELAXED, &bundled, Some(5), &present("1.0.0", 9)));
    assert!(!plan_install(RELAXED, &bundled, Some(5), &present("1.2.0", 9)));
    assert!(!plan_install(RELAXED, &bundled, Some(5), &present("1.3.0", 9)));
}

#[test]
fn plan_takes_an_unreadable_descriptor_for_the_oldest_version() {
    let bundled = manifest("foo", "0.0.1");
    let broken =
        InstalledState { dir_exists: true, descriptor: Some("{".to_string()), modified: Some(9) };
    let missing = InstalledState { dir_exists: true, descriptor: None, modified: Some(9) };
    assert!(plan_install(RELAXED, &bundled, Some(5), &broken));
    assert!(plan_install(RELAXED, &bundled, Some(5), &missing));
    assert!(!plan_install(RELAXED, &manifest("foo", "0.0.0"), Some(5), &missing));
}

#[test]
fn plan_obeys_the_flags() {
    let bundled = manifest("foo", "1.2.0");
    let clean = InstallFlags { clean_up: true, replacements_disabled: false };
    let frozen = InstallFlags { clean_up: false, replacements_disabled: true };
    let both = InstallFlags { clean_up: true, replacements_disabled: true };
    assert!(plan_install(clean, &bundled, Some(5), &present("1.2.0", 9)));
    assert!(!plan_install(frozen, &bundled, Some(5), &present("1.0.0", 1)));
    assert!(!plan_install(frozen, &bundled, Some(5), &absent()));
    assert!(!plan_install(both, &bundled, Some(5), &absent()));
}

#[test]
fn record_holds_the_seven_fields() {
    let manifest = Manifest {
        name: Some("foo".to_string()),
        version: "1.2.0".to_string(),
        main: "dist/index.js".to_string(),
        description: "A thing".to_string(),
        product_name: "Foo".to_string(),
    };
    let record = build_record("foo", "/ext/foo", &manifest);
    let expected = parse_json(
        "{\"url\":\"/ext/foo/dist/index.js\",\"name\":\"foo\",\"origin\":\"/ext/foo\",\
         \"active\":true,\"description\":\"A thing\",\"version\":\"1.2.0\",\"productName\":\"Foo\"}",
    )
    .unwrap();
    assert_eq!(record, expected);
}

#[test]
fn record_package_uses_the_directory_after_an_install() {
    let mut registry = Registry::load(Some("[{\"name\":\"foo\",\"origin\":\"/elsewhere\"}]"), false);
    record_package(&mut registry, "/ext", "foo", &manifest("foo", "1.2.0"), true);
    assert_eq!(registry.origin_of("foo"), Some("/ext/foo"));
    assert_eq!(registry.get("foo").unwrap().str_field("url"), Some("/ext/foo/index.js"));
}

#[test]
fn record_package_keeps_the_known_origin_without_an_install() {
    let mut registry = Registry::load(Some("[{\"name\":\"foo\",\"origin\":\"/elsewhere\"}]"), false);
    record_package(&mut registry, "/ext", "foo", &manifest("foo", "1.2.0"), false);
    assert_eq!(registry.origin_of("foo"), Some("/elsewhere"));
    assert_eq!(registry.get("foo").unwrap().str_field("url"), Some("/elsewhere/index.js"));
    assert_eq!(registry.get("foo").unwrap().str_field("version"), Some("1.2.0"));
}

#[test]
fn record_package_falls_back_to_the_directory() {
    let mut registry = Registry::load(Some("[{\"name\":\"foo\",\"origin\":5}]"), false);
    record_package(&mut registry, "/ext", "foo", &manifest("foo", "1.2.0"), false);
    record_package(&mut registry, "/ext", "bar", &manifest("bar", "1.0.0"), false);
    assert_eq!(registry.origin_of("foo"), Some("/ext/foo"));
    assert_eq!(registry.origin_of("bar"), Some("/ext/bar"));
}

#[test]
fn record_package_leaves_other_records_alone() {
    let source = "[{\"name\":\"other\",\"origin\":\"/o\",\"active\":false,\"custom\":[1]}]";
    let mut registry = Registry::load(Some(source), false);
    record_package(&mut registry, "/ext", "foo", &manifest("foo", "1.2.0"), true);
    assert_eq!(registry.len(), 2);
    assert_eq!(
        registry.get("other"),
        Some(&parse_json("{\"name\":\"other\",\"origin\":\"/o\",\"active\":false,\"custom\":[1]}").unwrap())
    );
}

#[test]
fn first_install_of_a_bundled_package() {
    let package = tgz(&[
        ("package/package.json", "{\"name\":\"foo\",\"version\":\"1.2.0\",\"main\":\"index.js\"}"),
        ("package/index.js", "module.exports = {}"),
    ]);
    assert!(is_package_file("foo-1.2.0.tgz"));
    let document = extract_extension_manifest(&package).unwrap().unwrap();
    let manifest = Manifest::from_json(&document);
    let name = manifest.name.clone().unwrap();
    assert_eq!(name, "foo");
    let dir = extension_dir("extensions", &name);
    assert_eq!(dir, "extensions/foo");

    let install = plan_install(RELAXED, &manifest, Some(100), &absent());
    assert!(install);
    let plan = plan_unpack(&list_archive(&package).unwrap());
    assert!(plan.complete);
    assert_eq!(plan.targets, vec![Some(b"package.json".to_vec()), Some(b"index.js".to_vec())]);

    let mut registry = Registry::load(None, false);
    record_package(&mut registry, "extensions", &name, &manifest, install);
    assert_eq!(registry.len(), 1);
    let record = registry.get("foo").unwrap();
    assert_eq!(record.str_field("version"), Some("1.2.0"));
    assert!(record.str_field("url").unwrap().ends_with("foo/index.js"));
    assert_eq!(
        registry.render().unwrap(),
        "[\n  {\n    \"active\": true,\n    \"description\": \"\",\n    \"name\": \"foo\",\n    \
         \"origin\": \"extensions/foo\",\n    \"productName\": \"\",\n    \
         \"url\": \"extensions/foo/index.js\",\n    \"version\": \"1.2.0\"\n  }\n]"
    );
}

#[test]
fn upgrade_of_an_installed_package() {
    let package = tgz(&[("package/package.json", "{\"name\":\"foo\",\"version\":\"1.2.0\"}")]);
    let manifest = Manifest::from_json(&extract_extension_manifest(&package).unwrap().unwrap());
    let existing = "[{\"name\":\"foo\",\"origin\":\"/old/foo\",\"version\":\"1.0.0\"}]";
    let install = plan_install(RELAXED, &manifest, Some(100), &present("1.0.0", 200));
    assert!(install);
    let mut registry = Registry::load(Some(existing), false);
    record_package(&mut registry, "/ext", "foo", &manifest, install);
    let record = registry.get("foo").unwrap();
    assert_eq!(record.str_field("version"), Some("1.2.0"));
    assert_eq!(record.str_field("origin"), Some("/ext/foo"));
}

#[test]
fn current_package_is_kept() {
    let package = tgz(&[("package/package.json", "{\"name\":\"foo\",\"version\":\"1.2.0\"}")]);
    let manifest = Manifest::from_json(&extract_extension_manifest(&package).unwrap().unwrap());
    let existing = "[{\"name\":\"foo\",\"origin\":\"/known/foo\",\"version\":\"1.2.0\"}]";
    let install = plan_install(RELAXED, &manifest, Some(100), &present("1.2.0", 200));
    assert!(!install);
    let mut registry = Registry::load(Some(existing), false);
    record_package(&mut registry, "/ext", "foo", &manifest, install);
    assert_eq!(registry.origin_of("foo"), Some("/known/foo"));
}

#[test]
fn second_pass_gives_the_same_registry_text() {
    let root = "/ext";
    let first_packages = [
        Bundled { manifest: manifest("foo", "1.2.0"), modified: Some(100), installed: absent() },
        Bundled {
            manifest: manifest("bar", "2.0.0"),
            modified: Some(100),
            installed: present("2.0.0", 300),
        },
    ];
    let existing = "[{\"name\":\"bar\",\"origin\":\"/known/bar\"},{\"name\":\"zed\",\"origin\":\"/z\"}]";
    let (first_text, first) = run_pass(Some(existing), RELAXED, root, &first_packages);
    assert_eq!(first, vec![true, false]);

    let second_packages = [
        Bundled {
            manifest: manifest("foo", "1.2.0"),
            modified: Some(100),
            installed: present("1.2.0", 150),
        },
        Bundled {
            manifest: manifest("bar", "2.0.0"),
            modified: Some(100),
            installed: present("2.0.0", 300),
        },
    ];
    let (second_text, second) = run_pass(Some(&first_text), RELAXED, root, &second_packages);
    assert_eq!(second, vec![false, false]);
    assert_eq!(second_text, first_text);
    assert!(first_text.contains("\"origin\": \"/known/bar\""));
    assert!(first_text.contains("\"origin\": \"/ext/foo\""));
    assert!(first_text.contains("\"name\": \"zed\""));
}

#[test]
fn clean_pass_names_the_bundled_packages_only() {
    let clean = InstallFlags { clean_up: true, replacements_disabled: false };
    let packages = [
        Bundled {
            manifest: manifest("foo", "1.2.0"),
            modified: Some(1),
            installed: present("9.9.9", 500),
        },
        Bundled { manifest: manifest("bar", "0.1.0"), modified: None, installed: absent() },
    ];
    let existing = "[{\"name\":\"gone\",\"origin\":\"/gone\"},{\"name\":\"foo\",\"origin\":\"/old\"}]";
    let (text, decisions) = run_pass(Some(existing), clean, "/ext", &packages);
    assert_eq!(decisions, vec![true, true]);
    let registry = Registry::load(Some(&text), false);
    assert_eq!(registry.len(), 2);
    assert_eq!(registry.name_at(0), "bar");
    assert_eq!(registry.name_at(1), "foo");
    assert_eq!(registry.origin_of("foo"), Some("/ext/foo"));
    assert_eq!(registry.origin_of("bar"), Some("/ext/bar"));
}

#[test]
fn disabled_replacements_install_nothing_in_a_pass() {
    let frozen = InstallFlags { clean_up: true, replacements_disabled: true };
    let packages = [
        Bundled {
            manifest: manifest("foo", "2.0.0"),
            modified: Some(900),
            installed: present("1.0.0", 1),
        },
        Bundled { manifest: manifest("bar", ""), modified: Some(900), installed: absent() },
    ];
    let (_, decisions) = run_pass(None, frozen, "/ext", &packages);
    assert_eq!(decisions, vec![false, false]);
}

#[test]
fn last_package_of_a_name_wins() {
    let packages = [
        Bundled { manifest: manifest("foo", "1.0.0"), modified: Some(1), installed: absent() },
        Bundled {
            manifest: manifest("foo", "2.0.0"),
            modified: Some(1),
            installed: present("1.0.0", 5),
        },
    ];
    let (text, decisions) = run_pass(None, RELAXED, "/ext", &packages);
    assert_eq!(decisions, vec![true, true]);
    let registry = Registry::load(Some(&text), false);
    assert_eq!(registry.len(), 1);
    assert_eq!(registry.get("foo").unwrap().str_field("version"), Some("2.0.0"));
}

#[test]
fn record_pass_records_each_package_in_turn() {
    let existing = "[{\"name\":\"bar\",\"origin\":\"/known/bar\"},{\"name\":\"zed\",\"origin\":\"/z\"}]";
    let outcomes = vec![
        PackageOutcome { name: "foo".to_string(), manifest: manifest("foo", "1.0.0"), installed: true },
        PackageOutcome { name: "bar".to_string(), manifest: manifest("bar", "2.0.0"), installed: false },
        PackageOutcome { name: "foo".to_string(), manifest: manifest("foo", "1.1.0"), installed: false },
    ];
    let mut all_at_once = Registry::load(Some(existing), false);
    record_pass(&mut all_at_once, "/ext", &outcomes);

    let mut one_by_one = Registry::load(Some(existing), false);
    for outcome in &outcomes {
        record_package(&mut one_by_one, "/ext", &outcome.name, &outcome.manifest, outcome.installed);
    }
    assert_eq!(all_at_once.len(), 3);
    assert_eq!(all_at_once.origin_of("foo"), Some("/ext/foo"));
    assert_eq!(all_at_once.origin_of("bar"), Some("/known/bar"));
    assert_eq!(all_at_once.get("foo").unwrap().str_field("version"), Some("1.1.0"));
    assert_eq!(all_at_once.render().unwrap(), one_by_one.render().unwrap());
}

#[test]
fn record_pass_without_packages_changes_nothing() {
    let existing = "[{\"name\":\"zed\",\"origin\":\"/z\"}]";
    let mut registry = Registry::load(Some(existing), false);
    record_pass(&mut registry, "/ext", &Vec::new());
    assert_eq!(registry.render().unwrap(), Registry::load(Some(existing), false).render().unwrap());
}
