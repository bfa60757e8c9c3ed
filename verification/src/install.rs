//! One pass of the installer over the bundled packages: what is decided for
//! each package and what the registry holds afterwards. Reading the disk and
//! writing to it is the caller's part; every decision is taken here.

use vstd::prelude::*;
use crate::decision::{decide, should_install, ModifiedTime};
use crate::json::{lemma_object_view, last_member, Field, Json, JsonValue, Member};
use crate::manifest::{
    installed_version_of, read_installed_extension_version, Manifest, ManifestModel,
};
use crate::paths::{join_path, joined_path};
use crate::text::chars_of;
use crate::registry::{
    known_origin, lemma_entry_is_found, lemma_merged_is_sorted, lemma_merged_lookup,
    lemma_merged_names_agree, lemma_sorted_registry_is_canonical, lookup, merged, names_agree,
    registry_text, sorted_by_name, starting_registry, RecordModel, Registry,
};

verus! {

/// The two switches of a pass.
#[derive(Clone, Copy, Debug, PartialEq, Eq, Structural)]
pub struct InstallFlags {
    /// Discard the registry and every installed extension before the pass.
    pub clean_up: bool,
    /// Never replace what is installed.
    pub replacements_disabled: bool,
}

/// Settles the switches of a pass: a clean reinstall is asked for by the
/// caller's `force` or by the environment's standing wish for one.
pub fn resolve_flags(force: bool, always_clean: bool, replacements_disabled: bool) -> (flags:
    InstallFlags)
    ensures
        flags.clean_up == (force || always_clean),
        flags.replacements_disabled == replacements_disabled,
{
    InstallFlags { clean_up: force || always_clean, replacements_disabled }
}

/// Whether a file of the bundle directory is a package: its name ends in
/// `.tgz` and has something before that.
pub open spec fn is_package_name(file_name: Seq<char>) -> bool {
    file_name.len() > 4 && file_name.skip(file_name.len() - 4) == ".tgz"@
}

/// Whether a file of the bundle directory is a package, going by its name.
pub fn is_package_file(file_name: &str) -> (hit: bool)
    ensures
        hit == is_package_name(file_name@),
{
    let chars = chars_of(file_name);
    let n = chars.len();
    proof {
        reveal_strlit(".tgz");
    }
    if n <= 4 {
        return false;
    }
    let hit = chars[n - 4] == '.' && chars[n - 3] == 't' && chars[n - 2] == 'g' && chars[n - 1]
        == 'z';
    proof {
        let tail = file_name@.skip(n - 4);
        assert(tail.len() == 4);
        assert(tail[0] == chars@[n - 4] && tail[1] == chars@[n - 3] && tail[2] == chars@[n - 2]
            && tail[3] == chars@[n - 1]);
        if hit {
            assert(tail =~= ".tgz"@);
        }
    }
    hit
}

/// What was found on disk for one extension.
#[derive(Debug, PartialEq, Eq)]
pub struct InstalledState {
    /// Whether the extension's directory exists.
    pub dir_exists: bool,
    /// The text of the installed descriptor, where it could be read.
    pub descriptor: Option<String>,
    /// When the installed descriptor was last modified.
    pub modified: ModifiedTime,
}

/// The version that an installed state stands for: the one its descriptor
/// declares, or the empty version where none can be read.
pub open spec fn installed_version(descriptor: Option<Seq<char>>) -> Seq<char> {
    match installed_version_of(descriptor) {
        Some(version) => version,
        None => Seq::empty(),
    }
}

/// The text of an optional string.
pub open spec fn optional_text(text: Option<String>) -> Option<Seq<char>> {
    match text {
        Some(s) => Some(s@),
        None => None,
    }
}

/// The directory of the extension called `name` under the extensions root.
pub open spec fn extension_dir_of(extensions_root: Seq<char>, name: Seq<char>) -> Seq<char> {
    joined_path(extensions_root, name)
}

/// The directory of the extension called `name` under the extensions root.
pub fn extension_dir(extensions_root: &str, name: &str) -> (dir: String)
    ensures
        dir@ == extension_dir_of(extensions_root@, name@),
{
    join_path(extensions_root, name)
}

/// Decides whether a bundled package is to be installed, given what was
/// found on disk for it.
pub fn plan_install(
    flags: InstallFlags,
    manifest: &Manifest,
    bundled_modified: ModifiedTime,
    installed: &InstalledState,
) -> (install: bool)
    ensures
        install == should_install(
            flags.clean_up,
            flags.replacements_disabled,
            installed.dir_exists,
            manifest@.version,
            installed_version(optional_text(installed.descriptor)),
            bundled_modified,
            installed.modified,
        ),
{
    let descriptor: Option<&str> = match &installed.descriptor {
        Some(text) => Some(text.as_str()),
        None => None,
    };
    let version = match read_installed_extension_version(descriptor) {
        Some(version) => version,
        None => String::new(),
    };
    decide(
        flags.clean_up,
        flags.replacements_disabled,
        installed.dir_exists,
        manifest.version.as_str(),
        version.as_str(),
        bundled_modified,
        installed.modified,
    )
}

/// The registry record of an extension: its name, where it is installed, the
/// address of its entry point below that, and what its descriptor says of it.
/// A freshly processed extension is active.
pub open spec fn record_of(name: Seq<char>, origin: Seq<char>, manifest: ManifestModel) -> Json {
    Json::Object(
        seq![
            Field { key: "active"@, value: Json::Bool(true) },
            Field { key: "description"@, value: Json::Text(manifest.description) },
            Field { key: "name"@, value: Json::Text(name) },
            Field { key: "origin"@, value: Json::Text(origin) },
            Field { key: "productName"@, value: Json::Text(manifest.product_name) },
            Field { key: "url"@, value: Json::Text(joined_path(origin, manifest.main)) },
            Field { key: "version"@, value: Json::Text(manifest.version) },
        ],
    )
}

/// A record gives back the name and the origin that it was built with.
pub proof fn lemma_record_members(name: Seq<char>, origin: Seq<char>, manifest: ManifestModel)
    ensures
        record_of(name, origin, manifest).text_member("name"@) == Some(name),
        record_of(name, origin, manifest).text_member("origin"@) == Some(origin),
        record_of(name, origin, manifest).text_member("version"@) == Some(manifest.version),
        record_of(name, origin, manifest).text_member("url"@) == Some(
            joined_path(origin, manifest.main),
        ),
{
    reveal_strlit("active");
    reveal_strlit("description");
    reveal_strlit("name");
    reveal_strlit("origin");
    reveal_strlit("productName");
    reveal_strlit("url");
    reveal_strlit("version");
    reveal_with_fuel(last_member, 8);
    let fields = record_of(name, origin, manifest)->Object_0;
    assert("version"@[0] != "name"@[0]);
    assert("version"@[0] != "origin"@[0]);
    assert("version"@[0] != "url"@[0]);
    assert("url"@[0] != "name"@[0]);
    assert("url"@[0] != "origin"@[0]);
    assert("productName"@[0] != "name"@[0]);
    assert("productName"@[0] != "origin"@[0]);
    assert("origin"@[0] != "name"@[0]);
    assert(fields.drop_last().last() == fields[5]);
    assert(fields.drop_last().drop_last().last() == fields[4]);
    assert(fields.drop_last().drop_last().drop_last().last() == fields[3]);
    assert(fields.drop_last().drop_last().drop_last().drop_last().last() == fields[2]);
}

/// A text member of a JSON object.
fn text_entry(key: &str, text: &str) -> (member: Member)
    ensures
        member.key@ == key@,
        member.value@ == Json::Text(text@),
{
    Member { key: key.to_owned(), value: JsonValue::Text(text.to_owned()) }
}

/// Builds the registry record of an extension.
pub fn build_record(name: &str, origin: &str, manifest: &Manifest) -> (record: JsonValue)
    ensures
        record@ == record_of(name@, origin@, manifest@),
{
    let url = join_path(origin, manifest.main.as_str());
    let mut members: Vec<Member> = Vec::new();
    members.push(Member { key: "active".to_owned(), value: JsonValue::Bool(true) });
    members.push(text_entry("description", manifest.description.as_str()));
    members.push(text_entry("name", name));
    members.push(text_entry("origin", origin));
    members.push(text_entry("productName", manifest.product_name.as_str()));
    members.push(text_entry("url", url.as_str()));
    members.push(text_entry("version", manifest.version.as_str()));
    proof {
        lemma_object_view(members);
        assert(JsonValue::Object(members)@->Object_0 =~= record_of(
            name@,
            origin@,
            manifest@,
        )->Object_0);
    }
    JsonValue::Object(members)
}

/// The origin to record for a package. An installed package lives in its
/// directory; one that was left alone keeps the origin that the registry
/// knows for it, and where it knows none, the directory stands in.
pub open spec fn recorded_origin(
    registry: Seq<RecordModel>,
    name: Seq<char>,
    dir: Seq<char>,
    installed: bool,
) -> Seq<char> {
    if installed {
        dir
    } else {
        match known_origin(registry, name) {
            Some(origin) => origin,
            None => dir,
        }
    }
}

/// The registry after a package was processed: its fresh record replaces
/// whatever was held under its name.
pub open spec fn recorded(
    registry: Seq<RecordModel>,
    extensions_root: Seq<char>,
    name: Seq<char>,
    manifest: ManifestModel,
    installed: bool,
) -> Seq<RecordModel> {
    let dir = extension_dir_of(extensions_root, name);
    let origin = recorded_origin(registry, name, dir, installed);
    merged(registry, name, record_of(name, origin, manifest))
}

/// Records a processed package in the registry. `installed` says whether the
/// package was unpacked into its directory in this pass.
pub fn record_package(
    registry: &mut Registry,
    extensions_root: &str,
    name: &str,
    manifest: &Manifest,
    installed: bool,
)
    ensures
        final(registry)@ == recorded(
            old(registry)@,
            extensions_root@,
            name@,
            manifest@,
            installed,
        ),
        sorted_by_name(final(registry)@),
{
    let dir = extension_dir(extensions_root, name);
    let origin: String = if installed {
        dir
    } else {
        match registry.origin_of(name) {
            Some(origin) => origin.to_owned(),
            None => dir,
        }
    };
    let record = build_record(name, origin.as_str(), manifest);
    registry.merge(name.to_owned(), record);
}

/// A bundled package whose descriptor gives a name.
pub struct PackageModel {
    pub name: Seq<char>,
    pub manifest: ManifestModel,
}

/// The registry after a pass over `packages`, processed in order, where
/// `installs` says of each whether it was installed in this pass.
pub open spec fn pass(
    registry: Seq<RecordModel>,
    extensions_root: Seq<char>,
    packages: Seq<PackageModel>,
    installs: Seq<bool>,
) -> Seq<RecordModel>
    recommends
        installs.len() == packages.len(),
    decreases packages.len(),
{
    if packages.len() == 0 {
        registry
    } else {
        recorded(
            pass(registry, extensions_root, packages.drop_last(), installs.drop_last()),
            extensions_root,
            packages.last().name,
            packages.last().manifest,
            installs.last(),
        )
    }
}

/// A package that a pass has dealt with.
#[derive(Debug, PartialEq, Eq)]
pub struct PackageOutcome {
    /// The name that the package's descriptor gives.
    pub name: String,
    pub manifest: Manifest,
    /// Whether the package was unpacked into its directory in this pass.
    pub installed: bool,
}

/// The packages that a list of outcomes speaks of.
pub open spec fn packages_of(outcomes: Seq<PackageOutcome>) -> Seq<PackageModel> {
    outcomes.map_values(
        |outcome: PackageOutcome| PackageModel { name: outcome.name@, manifest: outcome.manifest@ },
    )
}

/// What a list of outcomes says of each package: whether it was installed.
pub open spec fn installs_of(outcomes: Seq<PackageOutcome>) -> Seq<bool> {
    outcomes.map_values(|outcome: PackageOutcome| outcome.installed)
}

/// Records the packages of a pass in the registry, in the order in which
/// they were dealt with.
pub fn record_pass(registry: &mut Registry, extensions_root: &str, outcomes: &Vec<PackageOutcome>)
    ensures
        final(registry)@ == pass(
            old(registry)@,
            extensions_root@,
            packages_of(outcomes@),
            installs_of(outcomes@),
        ),
        sorted_by_name(final(registry)@),
{
    let ghost start = registry@;
    let ghost packages = packages_of(outcomes@);
    let ghost installs = installs_of(outcomes@);
    let mut i: usize = 0;
    // Asking for the length also tells that the registry is sorted by name.
    let _ = registry.len();
    while i < outcomes.len()
        invariant
            0 <= i <= outcomes.len(),
            packages == packages_of(outcomes@),
            installs == installs_of(outcomes@),
            registry@ == pass(
                start,
                extensions_root@,
                packages.take(i as int),
                installs.take(i as int),
            ),
            sorted_by_name(registry@),
        decreases outcomes.len() - i,
    {
        let outcome = &outcomes[i];
        proof {
            assert(packages.take(i + 1).drop_last() == packages.take(i as int));
            assert(installs.take(i + 1).drop_last() == installs.take(i as int));
            assert(packages.take(i + 1).last() == packages[i as int]);
            assert(installs.take(i + 1).last() == installs[i as int]);
        }
        record_package(
            registry,
            extensions_root,
            outcome.name.as_str(),
            &outcome.manifest,
            outcome.installed,
        );
        i = i + 1;
    }
    proof {
        assert(packages.take(outcomes.len() as int) == packages);
        assert(installs.take(outcomes.len() as int) == installs);
    }
}

/// The descriptor of the last package called `name`, if there is one.
pub open spec fn last_manifest(packages: Seq<PackageModel>, name: Seq<char>) -> Option<
    ManifestModel,
>
    decreases packages.len(),
{
    if packages.len() == 0 {
        None
    } else if packages.last().name == name {
        Some(packages.last().manifest)
    } else {
        last_manifest(packages.drop_last(), name)
    }
}

/// Whether some package called `name` was installed.
pub open spec fn any_installed(
    packages: Seq<PackageModel>,
    installs: Seq<bool>,
    name: Seq<char>,
) -> bool
    recommends
        installs.len() == packages.len(),
    decreases packages.len(),
{
    if packages.len() == 0 {
        false
    } else {
        (packages.last().name == name && installs.last()) || any_installed(
            packages.drop_last(),
            installs.drop_last(),
            name,
        )
    }
}

/// The origin that a pass leaves for a name that it has a package for: the
/// extension's directory where a package of that name was installed, and
/// otherwise the origin known before the pass, for which the directory stands
/// in where none was known.
pub open spec fn origin_after(
    registry: Seq<RecordModel>,
    extensions_root: Seq<char>,
    packages: Seq<PackageModel>,
    installs: Seq<bool>,
    name: Seq<char>,
) -> Seq<char> {
    recorded_origin(
        registry,
        name,
        extension_dir_of(extensions_root, name),
        any_installed(packages, installs, name),
    )
}

/// A package called `name` is among the packages exactly where there is a
/// last one.
pub proof fn lemma_last_manifest_exists(packages: Seq<PackageModel>, name: Seq<char>)
    ensures
        last_manifest(packages, name) is Some <==> exists|k: int|
            0 <= k < packages.len() && (#[trigger] packages[k]).name == name,
        any_installed(packages, Seq::new(packages.len(), |k: int| true), name) == (last_manifest(
            packages,
            name,
        ) is Some),
    decreases packages.len(),
{
    let all = Seq::new(packages.len(), |k: int| true);
    if packages.len() > 0 {
        let shorter = packages.drop_last();
        lemma_last_manifest_exists(shorter, name);
        assert(all.drop_last() =~= Seq::new(shorter.len(), |k: int| true));
        if packages.last().name == name {
            assert(packages[packages.len() - 1].name == name);
        } else if last_manifest(shorter, name) is Some {
            let k = choose|k: int| 0 <= k < shorter.len() && (#[trigger] shorter[k]).name == name;
            assert(packages[k] == shorter[k]);
        } else if exists|k: int| 0 <= k < packages.len() && (#[trigger] packages[k]).name == name {
            let k = choose|k: int| 0 <= k < packages.len() && (#[trigger] packages[k]).name == name;
            assert(shorter[k] == packages[k]);
        }
    }
}

/// Where a package called `name` was installed, there is a package of that
/// name; and what is installed under one list of decisions is installed under
/// every list that decides for an install wherever the first does.
pub proof fn lemma_any_installed(
    packages: Seq<PackageModel>,
    fewer: Seq<bool>,
    more: Seq<bool>,
    name: Seq<char>,
)
    requires
        fewer.len() == packages.len(),
        more.len() == packages.len(),
        forall|k: int| 0 <= k < packages.len() && fewer[k] ==> more[k],
    ensures
        any_installed(packages, fewer, name) ==> any_installed(packages, more, name),
        any_installed(packages, fewer, name) ==> last_manifest(packages, name) is Some,
    decreases packages.len(),
{
    if packages.len() > 0 {
        lemma_any_installed(packages.drop_last(), fewer.drop_last(), more.drop_last(), name);
        lemma_last_manifest_exists(packages, name);
        lemma_last_manifest_exists(packages.drop_last(), name);
    }
}

/// One processed package: the registry stays sorted, holds the package's
/// fresh record under its name, and holds under every other name what it held.
pub proof fn lemma_recorded(
    registry: Seq<RecordModel>,
    extensions_root: Seq<char>,
    name: Seq<char>,
    manifest: ManifestModel,
    installed: bool,
    other: Seq<char>,
)
    requires
        sorted_by_name(registry),
    ensures
        sorted_by_name(recorded(registry, extensions_root, name, manifest, installed)),
        lookup(recorded(registry, extensions_root, name, manifest, installed), other) == if other
            == name {
            Some(
                record_of(
                    name,
                    recorded_origin(
                        registry,
                        name,
                        extension_dir_of(extensions_root, name),
                        installed,
                    ),
                    manifest,
                ),
            )
        } else {
            lookup(registry, other)
        },
{
    let dir = extension_dir_of(extensions_root, name);
    let origin = recorded_origin(registry, name, dir, installed);
    lemma_merged_is_sorted(registry, name, record_of(name, origin, manifest));
    lemma_merged_lookup(registry, name, record_of(name, origin, manifest), other);
}

/// A pass keeps the registry sorted by name.
pub proof fn lemma_pass_is_sorted(
    registry: Seq<RecordModel>,
    extensions_root: Seq<char>,
    packages: Seq<PackageModel>,
    installs: Seq<bool>,
)
    requires
        sorted_by_name(registry),
        installs.len() == packages.len(),
    ensures
        sorted_by_name(pass(registry, extensions_root, packages, installs)),
    decreases packages.len(),
{
    if packages.len() > 0 {
        lemma_pass_is_sorted(registry, extensions_root, packages.drop_last(), installs.drop_last());
        lemma_recorded(
            pass(registry, extensions_root, packages.drop_last(), installs.drop_last()),
            extensions_root,
            packages.last().name,
            packages.last().manifest,
            installs.last(),
            packages.last().name,
        );
    }
}

/// A pass keeps records and names in agreement: what it files under a name
/// carries that name. With `lemma_pass_is_sorted` this says that the registry
/// file is an array sorted by name in which no name occurs twice.
pub proof fn lemma_pass_names_agree(
    registry: Seq<RecordModel>,
    extensions_root: Seq<char>,
    packages: Seq<PackageModel>,
    installs: Seq<bool>,
)
    requires
        names_agree(registry),
        installs.len() == packages.len(),
    ensures
        names_agree(pass(registry, extensions_root, packages, installs)),
    decreases packages.len(),
{
    if packages.len() > 0 {
        let before = pass(registry, extensions_root, packages.drop_last(), installs.drop_last());
        lemma_pass_names_agree(
            registry,
            extensions_root,
            packages.drop_last(),
            installs.drop_last(),
        );
        let last = packages.last();
        let origin = recorded_origin(
            before,
            last.name,
            extension_dir_of(extensions_root, last.name),
            installs.last(),
        );
        lemma_record_members(last.name, origin, last.manifest);
        lemma_merged_names_agree(before, last.name, record_of(last.name, origin, last.manifest));
    }
}

/// What the registry holds under a name after a pass. Where no package has
/// that name, it holds what it held before. Otherwise it holds the record
/// built from the last package of that name, with the origin that
/// `origin_after` gives.
pub proof fn lemma_pass_lookup(
    registry: Seq<RecordModel>,
    extensions_root: Seq<char>,
    packages: Seq<PackageModel>,
    installs: Seq<bool>,
    name: Seq<char>,
)
    requires
        sorted_by_name(registry),
        installs.len() == packages.len(),
    ensures
        lookup(pass(registry, extensions_root, packages, installs), name) == match last_manifest(
            packages,
            name,
        ) {
            Some(manifest) => Some(
                record_of(
                    name,
                    origin_after(registry, extensions_root, packages, installs, name),
                    manifest,
                ),
            ),
            None => lookup(registry, name),
        },
    decreases packages.len(),
{
    if packages.len() > 0 {
        let shorter = packages.drop_last();
        let earlier = installs.drop_last();
        let before = pass(registry, extensions_root, shorter, earlier);
        let last = packages.last();
        lemma_pass_lookup(registry, extensions_root, shorter, earlier, name);
        lemma_pass_is_sorted(registry, extensions_root, shorter, earlier);
        lemma_recorded(before, extensions_root, last.name, last.manifest, installs.last(), name);
        if last.name == name && !installs.last() {
            let all_true = Seq::new(shorter.len(), |k: int| true);
            lemma_any_installed(shorter, earlier, all_true, name);
            match last_manifest(shorter, name) {
                Some(manifest) => {
                    lemma_record_members(
                        name,
                        origin_after(registry, extensions_root, shorter, earlier, name),
                        manifest,
                    );
                },
                None => {},
            }
        }
    }
}

/// Running the pass a second time leaves the registry, and so the text of
/// the registry file, as the first pass left it, provided that the second
/// pass installs no package that the first pass left alone. That is so where
/// neither the bundled packages nor the installed extensions were touched in
/// between and each name is bundled once.
pub proof fn lemma_second_pass_keeps_registry(
    registry: Seq<RecordModel>,
    extensions_root: Seq<char>,
    packages: Seq<PackageModel>,
    first: Seq<bool>,
    second: Seq<bool>,
)
    requires
        sorted_by_name(registry),
        first.len() == packages.len(),
        second.len() == packages.len(),
        forall|k: int| 0 <= k < packages.len() && second[k] ==> first[k],
    ensures
        pass(pass(registry, extensions_root, packages, first), extensions_root, packages, second)
            == pass(registry, extensions_root, packages, first),
        registry_text(
            pass(
                pass(registry, extensions_root, packages, first),
                extensions_root,
                packages,
                second,
            ),
        ) == registry_text(pass(registry, extensions_root, packages, first)),
{
    let once = pass(registry, extensions_root, packages, first);
    let twice = pass(once, extensions_root, packages, second);
    lemma_pass_is_sorted(registry, extensions_root, packages, first);
    lemma_pass_is_sorted(once, extensions_root, packages, second);
    assert forall|name: Seq<char>| #[trigger] lookup(twice, name) == lookup(once, name) by {
        lemma_pass_lookup(registry, extensions_root, packages, first, name);
        lemma_pass_lookup(once, extensions_root, packages, second, name);
        lemma_any_installed(packages, second, first, name);
        match last_manifest(packages, name) {
            Some(manifest) => {
                lemma_record_members(
                    name,
                    origin_after(registry, extensions_root, packages, first, name),
                    manifest,
                );
            },
            None => {},
        }
    }
    lemma_sorted_registry_is_canonical(twice, once);
}

/// After a clean reinstall the registry names exactly the bundled packages:
/// whatever the registry file held, the pass starts from the empty registry,
/// so every entry carries the name of a package of this pass, and every
/// package of this pass has an entry.
pub proof fn lemma_clean_pass_names_bundled_only(
    existing: Option<Seq<char>>,
    extensions_root: Seq<char>,
    packages: Seq<PackageModel>,
    installs: Seq<bool>,
)
    requires
        installs.len() == packages.len(),
    ensures
        ({
            let after = pass(
                starting_registry(existing, true),
                extensions_root,
                packages,
                installs,
            );
            &&& sorted_by_name(after)
            &&& forall|i: int|
                0 <= i < after.len() ==> exists|k: int|
                    0 <= k < packages.len() && (#[trigger] packages[k]).name == (
                    #[trigger] after[i]).name
            &&& forall|k: int|
                0 <= k < packages.len() ==> lookup(after, (#[trigger] packages[k]).name) is Some
        }),
{
    let empty = Seq::<RecordModel>::empty();
    assert(starting_registry(existing, true) == empty);
    let after = pass(empty, extensions_root, packages, installs);
    lemma_pass_is_sorted(empty, extensions_root, packages, installs);
    assert forall|i: int| 0 <= i < after.len() implies exists|k: int|
        0 <= k < packages.len() && (#[trigger] packages[k]).name == (#[trigger] after[i]).name by {
        let name = after[i].name;
        lemma_entry_is_found(after, i);
        lemma_pass_lookup(empty, extensions_root, packages, installs, name);
        lemma_last_manifest_exists(packages, name);
    }
    assert forall|k: int| 0 <= k < packages.len() implies lookup(
        after,
        (#[trigger] packages[k]).name,
    ) is Some by {
        let name = packages[k].name;
        lemma_pass_lookup(empty, extensions_root, packages, installs, name);
        lemma_last_manifest_exists(packages, name);
    }
}

/// A pass that installs every package records each under its own directory.
/// A clean reinstall with replacements allowed is such a pass.
pub proof fn lemma_installed_packages_live_in_their_directory(
    registry: Seq<RecordModel>,
    extensions_root: Seq<char>,
    packages: Seq<PackageModel>,
    installs: Seq<bool>,
    index: int,
)
    requires
        sorted_by_name(registry),
        installs.len() == packages.len(),
        0 <= index < packages.len(),
        forall|k: int| 0 <= k < packages.len() ==> installs[k],
    ensures
        known_origin(
            pass(registry, extensions_root, packages, installs),
            packages[index].name,
        ) == Some(extension_dir_of(extensions_root, packages[index].name)),
{
    let name = packages[index].name;
    lemma_pass_lookup(registry, extensions_root, packages, installs, name);
    lemma_last_manifest_exists(packages, name);
    assert(installs =~= Seq::new(packages.len(), |k: int| true));
    match last_manifest(packages, name) {
        Some(manifest) => {
            lemma_record_members(
                name,
                origin_after(registry, extensions_root, packages, installs, name),
                manifest,
            );
        },
        None => {},
    }
}

} // verus!
