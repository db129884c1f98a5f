//! What the repository must and must not hold, and the checks that find
//! the first violation in the contents the caller read.

use vstd::prelude::*;
use vstd::string::StringSliceAdditionalSpecFns;
use crate::text::{contains, contains_bytes, occurs_at, lines, line_ranges, matches_at};
use crate::repository::scan::{first_missing, first_present, find_missing, find_present,
    has_trimmed_line, contains_trimmed_line, standalone_from, crate_path_token,
    contains_standalone_crate_path, bytes_eq};

verus! {

/// The first rule of the repository that its contents break.
#[derive(Debug, Clone, PartialEq, Eq)]
pub enum RepositoryViolation {
    /// A required file is missing.
    MissingRequiredFile { path: &'static str },
    /// A retired file or directory is present.
    RetiredSurfacePresent { path: &'static str },
    /// The set of manifests differs from the expected one.
    ManifestInventoryMismatch,
    /// A file lacks a text it must contain.
    MissingRequiredText { file: &'static str, required: &'static str },
    /// The adapter manifest claims the core toolchain version.
    AdapterClaimsRustVersion,
    /// The lock file still names the retired spatial-index package.
    RetiredIndexPackageInLockfile,
    /// Manifest `manifest` declares a retired package name.
    RetiredPackageName { manifest: usize, package: &'static str },
    /// Manifest `manifest` names the retired spatial-index package.
    RetiredIndexPackageInManifest { manifest: usize },
    /// Manifest `manifest` names the retired broad prelude package.
    RetiredPreludeInManifest { manifest: usize },
    /// Source `source` names a retired API.
    RetiredApiInSource { source: usize, name: &'static str },
    /// Source `source` imports the retired spatial-index crate.
    RetiredIndexImportInSource { source: usize },
    /// Source `source` uses a path into a retired crate.
    RetiredCratePath { source: usize, package: &'static str },
    /// The workflow file is not the expected caller of the shared workflow.
    WorkflowChanged,
    /// An active document names stale or live authority.
    StaleAuthority { doc: &'static str, text: &'static str },
    /// Source `source` pulls in other files at compile time.
    SourceInclusion { source: usize },
    /// The file is a symbolic link.
    SymbolicLink,
    /// The authored text file is larger than the limit.
    OversizedText { len: u64 },
    /// Line `line` of the index listing is a submodule entry.
    SubmoduleEntry { line: usize },
}

/// Files the repository must hold.
pub open spec fn required_files() -> Seq<&'static str> {
    seq![
        ".cargo/config.toml",
        ".github/workflows/validation.yml",
        "AGENTS.md",
        "ARCHITECTURE.md",
        "Cargo.lock",
        "Cargo.toml",
        "LICENSE",
        "LICENSING.md",
        "README.md",
        "ROADMAP.md",
        "SECURITY.md",
        "TESTING.md",
        "docs/documentation-architecture.md",
        "docs/provenance/repository-transfer.md",
        "rust-toolchain.toml",
        "xtask/Cargo.toml",
        "xtask/src/main.rs",
    ]
}

/// Files and directories that must stay absent.
pub open spec fn retired_paths() -> Seq<&'static str> {
    seq![
        "LICENSE-MIT",
        "LICENSE-APACHE",
        "docs/architecture.md",
        "docs/chunking-model.md",
        "docs/crate-boundaries.md",
        "docs/full-roadmap-goal-prompt.md",
        "docs/investigations/runenspatial-extraction-boundary.md",
        "docs/package-boundaries.md",
        "docs/roadmap.md",
        "docs/runenwerk-integration.md",
        "docs/tooling/validation.md",
        "crates/runen_spatial_index",
        "crates/runen_spatial/src/bounds.rs",
        "crates/world_core_prelude",
        "demos/chunk_streaming_demo",
    ]
}

/// Files the repository must hold.
pub fn required_file_list() -> (r: Vec<&'static str>)
    ensures
        r@ == required_files(),
{
    let r = vec![
        ".cargo/config.toml",
        ".github/workflows/validation.yml",
        "AGENTS.md",
        "ARCHITECTURE.md",
        "Cargo.lock",
        "Cargo.toml",
        "LICENSE",
        "LICENSING.md",
        "README.md",
        "ROADMAP.md",
        "SECURITY.md",
        "TESTING.md",
        "docs/documentation-architecture.md",
        "docs/provenance/repository-transfer.md",
        "rust-toolchain.toml",
        "xtask/Cargo.toml",
        "xtask/src/main.rs",
    ];
    assert(r@ =~= required_files());
    r
}

/// Files and directories that must stay absent.
pub fn retired_path_list() -> (r: Vec<&'static str>)
    ensures
        r@ == retired_paths(),
{
    let r = vec![
        "LICENSE-MIT",
        "LICENSE-APACHE",
        "docs/architecture.md",
        "docs/chunking-model.md",
        "docs/crate-boundaries.md",
        "docs/full-roadmap-goal-prompt.md",
        "docs/investigations/runenspatial-extraction-boundary.md",
        "docs/package-boundaries.md",
        "docs/roadmap.md",
        "docs/runenwerk-integration.md",
        "docs/tooling/validation.md",
        "crates/runen_spatial_index",
        "crates/runen_spatial/src/bounds.rs",
        "crates/world_core_prelude",
        "demos/chunk_streaming_demo",
    ];
    assert(r@ =~= retired_paths());
    r
}

/// The first index at or after `k` where `flags` is `value`.
pub open spec fn first_flag_from(flags: Seq<bool>, value: bool, k: int) -> Option<int>
    decreases flags.len() - k,
{
    if k < 0 || k >= flags.len() {
        None
    } else if flags[k] == value {
        Some(k)
    } else {
        first_flag_from(flags, value, k + 1)
    }
}

fn find_flag(flags: &[bool], value: bool) -> (r: Option<usize>)
    ensures
        r is None <==> first_flag_from(flags@, value, 0) is None,
        r matches Some(k) ==> first_flag_from(flags@, value, 0) == Some(k as int) && k < flags@.len(),
{
    let mut k: usize = 0;
    while k < flags.len()
        invariant
            k <= flags@.len(),
            first_flag_from(flags@, value, 0) == first_flag_from(flags@, value, k as int),
        decreases flags@.len() - k,
    {
        if flags[k] == value {
            return Some(k);
        }
        k += 1;
    }
    None
}

/// The first missing required file, then the first present retired path.
pub open spec fn paths_violation(required_present: Seq<bool>, retired_present: Seq<bool>) -> Option<RepositoryViolation> {
    match first_flag_from(required_present, false, 0) {
        Some(k) => Some(RepositoryViolation::MissingRequiredFile { path: required_files()[k] }),
        None => match first_flag_from(retired_present, true, 0) {
            Some(k) => Some(RepositoryViolation::RetiredSurfacePresent { path: retired_paths()[k] }),
            None => None,
        },
    }
}

/// Checks which required files are present (`required_present[k]` for
/// `required_files()[k]`) and which retired paths are (`retired_present[k]`
/// for `retired_paths()[k]`).
pub fn check_required_and_retired_paths(required_present: &[bool], retired_present: &[bool]) -> (r: Result<(), RepositoryViolation>)
    requires
        required_present@.len() == required_files().len(),
        retired_present@.len() == retired_paths().len(),
    ensures
        match paths_violation(required_present@, retired_present@) {
            None => r is Ok,
            Some(v) => r == Err::<(), RepositoryViolation>(v),
        },
{
    let required = required_file_list();
    let retired = retired_path_list();
    if let Some(k) = find_flag(required_present, false) {
        return Err(RepositoryViolation::MissingRequiredFile { path: required[k] });
    }
    if let Some(k) = find_flag(retired_present, true) {
        return Err(RepositoryViolation::RetiredSurfacePresent { path: retired[k] });
    }
    Ok(())
}

/// The manifests the repository holds, by path.
pub open spec fn expected_manifests() -> Seq<&'static str> {
    seq![
        "Cargo.toml",
        "adapters/godot_world_streaming/Cargo.toml",
        "crates/runen_spatial/Cargo.toml",
        "crates/runen_spatial_demand/Cargo.toml",
        "crates/runen_spatial_streaming/Cargo.toml",
        "xtask/Cargo.toml",
    ]
}

/// Whether `b` is the path of an expected manifest.
pub open spec fn is_expected_manifest(b: Seq<u8>) -> bool {
    exists|j: int| 0 <= j < expected_manifests().len() && (#[trigger] expected_manifests()[j]).spec_bytes() == b
}

/// Whether `b` is among `items`.
pub open spec fn listed(items: Seq<Seq<u8>>, b: Seq<u8>) -> bool {
    exists|i: int| 0 <= i < items.len() && items[i] == b
}

/// Whether the manifests found (by relative path) are exactly the expected
/// ones, as sets.
pub open spec fn inventory_matches(actual: Seq<Seq<u8>>) -> bool {
    &&& forall|i: int| 0 <= i < actual.len() ==> is_expected_manifest(#[trigger] actual[i])
    &&& forall|j: int| 0 <= j < expected_manifests().len() ==> listed(actual, (#[trigger] expected_manifests()[j]).spec_bytes())
}

fn is_expected_manifest_exec(b: &[u8]) -> (r: bool)
    ensures
        r == is_expected_manifest(b@),
{
    let expected = vec![
        "Cargo.toml",
        "adapters/godot_world_streaming/Cargo.toml",
        "crates/runen_spatial/Cargo.toml",
        "crates/runen_spatial_demand/Cargo.toml",
        "crates/runen_spatial_streaming/Cargo.toml",
        "xtask/Cargo.toml",
    ];
    assert(expected@ =~= expected_manifests());
    let mut k: usize = 0;
    while k < expected.len()
        invariant
            k <= expected@.len(),
            expected@ == expected_manifests(),
            forall|j: int| 0 <= j < k ==> (#[trigger] expected_manifests()[j]).spec_bytes() != b@,
        decreases expected@.len() - k,
    {
        if bytes_eq(expected[k].as_bytes(), b) {
            return true;
        }
        k += 1;
    }
    false
}

fn is_listed(items: &Vec<Vec<u8>>, b: &[u8]) -> (r: bool)
    ensures
        r == listed(Seq::new(items@.len(), |i: int| items@[i]@), b@),
{
    let ghost av = Seq::new(items@.len(), |i: int| items@[i]@);
    let mut i: usize = 0;
    while i < items.len()
        invariant
            i <= items@.len(),
            av == Seq::new(items@.len(), |i: int| items@[i]@),
            forall|m: int| 0 <= m < i ==> av[m] != b@,
        decreases items@.len() - i,
    {
        if bytes_eq(items[i].as_slice(), b) {
            assert(av[i as int] == b@);
            return true;
        }
        i += 1;
    }
    false
}

/// Checks that the manifests found, by relative path, are exactly the
/// expected ones.
pub fn check_manifest_inventory(actual: &Vec<Vec<u8>>) -> (r: Result<(), RepositoryViolation>)
    ensures
        inventory_matches(Seq::new(actual@.len(), |i: int| actual@[i]@)) ==> r is Ok,
        !inventory_matches(Seq::new(actual@.len(), |i: int| actual@[i]@)) ==> r == Err::<(), RepositoryViolation>(
            RepositoryViolation::ManifestInventoryMismatch,
        ),
{
    let expected = vec![
        "Cargo.toml",
        "adapters/godot_world_streaming/Cargo.toml",
        "crates/runen_spatial/Cargo.toml",
        "crates/runen_spatial_demand/Cargo.toml",
        "crates/runen_spatial_streaming/Cargo.toml",
        "xtask/Cargo.toml",
    ];
    assert(expected@ =~= expected_manifests());
    let ghost av = Seq::new(actual@.len(), |i: int| actual@[i]@);
    let mut j: usize = 0;
    while j < expected.len()
        invariant
            j <= expected@.len(),
            expected@ == expected_manifests(),
            av == Seq::new(actual@.len(), |i: int| actual@[i]@),
            forall|m: int| 0 <= m < j ==> listed(av, (#[trigger] expected_manifests()[m]).spec_bytes()),
        decreases expected@.len() - j,
    {
        if !is_listed(actual, expected[j].as_bytes()) {
            return Err(RepositoryViolation::ManifestInventoryMismatch);
        }
        j += 1;
    }
    let mut i: usize = 0;
    while i < actual.len()
        invariant
            i <= actual@.len(),
            av == Seq::new(actual@.len(), |i: int| actual@[i]@),
            forall|m: int| 0 <= m < expected_manifests().len() ==> listed(av, (#[trigger] expected_manifests()[m]).spec_bytes()),
            forall|m: int| 0 <= m < i ==> is_expected_manifest(#[trigger] av[m]),
        decreases actual@.len() - i,
    {
        if !is_expected_manifest_exec(actual[i].as_slice()) {
            assert(!is_expected_manifest(av[i as int]));
            return Err(RepositoryViolation::ManifestInventoryMismatch);
        }
        assert(is_expected_manifest(av[i as int]));
        i += 1;
    }
    Ok(())
}

/// The violation for the first of `required` that `text` lacks.
pub open spec fn missing_violation(text: Seq<u8>, file: &'static str, required: Seq<&'static str>) -> Option<RepositoryViolation> {
    match first_missing(text, required) {
        Some(k) => Some(RepositoryViolation::MissingRequiredText { file, required: required[k] }),
        None => None,
    }
}

fn require_all(text: &[u8], file: &'static str, required: &Vec<&'static str>) -> (r: Result<(), RepositoryViolation>)
    ensures
        match missing_violation(text@, file, required@) {
            None => r is Ok,
            Some(v) => r == Err::<(), RepositoryViolation>(v),
        },
{
    let list = required.as_slice();
    assert(list@ == required@);
    match find_missing(text, list) {
        Some(k) => {
            assert(first_missing(text@, required@) == Some(k as int));
            Err(RepositoryViolation::MissingRequiredText { file, required: list[k] })
        },
        None => Ok(()),
    }
}

/// What the root manifest must say.
pub open spec fn root_manifest_required() -> Seq<&'static str> {
    seq![
        "\"xtask\"",
        "rust-version = \"1.93.0\"",
        "license = \"GPL-3.0-only\"",
        "repository = \"https://github.com/dornglut/runen-spatial\"",
        "publish = false",
        "unsafe_code = \"forbid\"",
        "all = { level = \"deny\", priority = -1 }",
    ]
}

/// What each core crate manifest must say.
pub open spec fn core_manifest_required() -> Seq<&'static str> {
    seq![
        "rust-version.workspace = true",
        "license.workspace = true",
        "repository.workspace = true",
        "publish.workspace = true",
        "[lints]\nworkspace = true",
    ]
}

/// What the adapter manifest must say.
pub open spec fn adapter_manifest_required() -> Seq<&'static str> {
    seq![
        "license.workspace = true",
        "repository.workspace = true",
        "publish.workspace = true",
        "[lints.rust]\nunsafe_code = \"allow\"",
        "[lints.clippy]\nall = { level = \"deny\", priority = -1 }",
    ]
}

/// What the tool manifest must say.
pub open spec fn tool_manifest_required() -> Seq<&'static str> {
    seq!["license.workspace = true", "publish = false", "[lints]\nworkspace = true"]
}

/// The manifests of the three core crates, by path.
pub open spec fn core_manifests() -> Seq<&'static str> {
    seq![
        "crates/runen_spatial/Cargo.toml",
        "crates/runen_spatial_demand/Cargo.toml",
        "crates/runen_spatial_streaming/Cargo.toml",
    ]
}

/// The first break of the manifest policy: the root manifest, the core
/// crate manifests in order, the adapter manifest (which must also not
/// claim a toolchain version), the tool manifest, then the lock file.
pub open spec fn manifest_policy_violation(
    root: Seq<u8>,
    core: Seq<Seq<u8>>,
    adapter: Seq<u8>,
    tool: Seq<u8>,
    lockfile: Seq<u8>,
) -> Option<RepositoryViolation> {
    if missing_violation(root, "Cargo.toml", root_manifest_required()) is Some {
        missing_violation(root, "Cargo.toml", root_manifest_required())
    } else if missing_violation(core[0], core_manifests()[0], core_manifest_required()) is Some {
        missing_violation(core[0], core_manifests()[0], core_manifest_required())
    } else if missing_violation(core[1], core_manifests()[1], core_manifest_required()) is Some {
        missing_violation(core[1], core_manifests()[1], core_manifest_required())
    } else if missing_violation(core[2], core_manifests()[2], core_manifest_required()) is Some {
        missing_violation(core[2], core_manifests()[2], core_manifest_required())
    } else if missing_violation(adapter, "adapters/godot_world_streaming/Cargo.toml", adapter_manifest_required()) is Some {
        missing_violation(adapter, "adapters/godot_world_streaming/Cargo.toml", adapter_manifest_required())
    } else if contains(adapter, "rust-version".spec_bytes()) {
        Some(RepositoryViolation::AdapterClaimsRustVersion)
    } else if missing_violation(tool, "xtask/Cargo.toml", tool_manifest_required()) is Some {
        missing_violation(tool, "xtask/Cargo.toml", tool_manifest_required())
    } else if contains(lockfile, "name = \"runen-spatial-index\"".spec_bytes()) {
        Some(RepositoryViolation::RetiredIndexPackageInLockfile)
    } else {
        None
    }
}

/// Checks the manifests and the lock file against the manifest policy;
/// `core` holds the core crate manifests in the order of `core_manifests()`.
pub fn check_manifest_policy(
    root: &[u8],
    core: &Vec<Vec<u8>>,
    adapter: &[u8],
    tool: &[u8],
    lockfile: &[u8],
) -> (r: Result<(), RepositoryViolation>)
    requires
        core@.len() == 3,
    ensures
        match manifest_policy_violation(
            root@,
            Seq::new(core@.len(), |i: int| core@[i]@),
            adapter@,
            tool@,
            lockfile@,
        ) {
            None => r is Ok,
            Some(v) => r == Err::<(), RepositoryViolation>(v),
        },
{
    let ghost cv = Seq::new(core@.len(), |i: int| core@[i]@);
    let root_required = vec![
        "\"xtask\"",
        "rust-version = \"1.93.0\"",
        "license = \"GPL-3.0-only\"",
        "repository = \"https://github.com/dornglut/runen-spatial\"",
        "publish = false",
        "unsafe_code = \"forbid\"",
        "all = { level = \"deny\", priority = -1 }",
    ];
    let core_required = vec![
        "rust-version.workspace = true",
        "license.workspace = true",
        "repository.workspace = true",
        "publish.workspace = true",
        "[lints]\nworkspace = true",
    ];
    let core_paths = vec![
        "crates/runen_spatial/Cargo.toml",
        "crates/runen_spatial_demand/Cargo.toml",
        "crates/runen_spatial_streaming/Cargo.toml",
    ];
    let adapter_required = vec![
        "license.workspace = true",
        "repository.workspace = true",
        "publish.workspace = true",
        "[lints.rust]\nunsafe_code = \"allow\"",
        "[lints.clippy]\nall = { level = \"deny\", priority = -1 }",
    ];
    let tool_required = vec!["license.workspace = true", "publish = false", "[lints]\nworkspace = true"];
    proof {
        assert(root_required@ =~= root_manifest_required());
        assert(core_required@ =~= core_manifest_required());
        assert(core_paths@ =~= core_manifests());
        assert(adapter_required@ =~= adapter_manifest_required());
        assert(tool_required@ =~= tool_manifest_required());
        assert(cv[0] == core@[0]@ && cv[1] == core@[1]@ && cv[2] == core@[2]@);
    }
    if let Err(v) = require_all(root, "Cargo.toml", &root_required) {
        return Err(v);
    }
    if let Err(v) = require_all(core[0].as_slice(), core_paths[0], &core_required) {
        return Err(v);
    }
    if let Err(v) = require_all(core[1].as_slice(), core_paths[1], &core_required) {
        return Err(v);
    }
    if let Err(v) = require_all(core[2].as_slice(), core_paths[2], &core_required) {
        return Err(v);
    }
    if let Err(v) = require_all(adapter, "adapters/godot_world_streaming/Cargo.toml", &adapter_required) {
        return Err(v);
    }
    if contains_bytes(adapter, "rust-version".as_bytes()) {
        return Err(RepositoryViolation::AdapterClaimsRustVersion);
    }
    if let Err(v) = require_all(tool, "xtask/Cargo.toml", &tool_required) {
        return Err(v);
    }
    if contains_bytes(lockfile, "name = \"runen-spatial-index\"".as_bytes()) {
        return Err(RepositoryViolation::RetiredIndexPackageInLockfile);
    }
    Ok(())
}

/// Where the workflow file lives.
pub open spec fn workflow_path() -> &'static str {
    ".github/workflows/validation.yml"
}

/// The shared workflow revision that the workflow file must pin.
pub open spec fn workflow_revision() -> &'static str {
    "624cb41adeed21a6461eb838bc7330bd0a5079fd"
}

/// The exact workflow file: a read-only caller of the shared workflow.
pub open spec fn expected_workflow() -> &'static str {
    "name: RunenSpatial Validation\n\non:\n  pull_request:\n    branches:\n      - main\n  push:\n    branches:\n      - main\n  workflow_dispatch:\n\npermissions:\n  contents: read\n\nconcurrency:\n  group: runen-spatial-validation-${{ github.workflow }}-${{ github.ref }}\n  cancel-in-progress: true\n\njobs:\n  validate:\n    name: Validate standalone framework\n    uses: dornglut/github-workflows/.github/workflows/reusable-rust-cargo-validate.yml@624cb41adeed21a6461eb838bc7330bd0a5079fd\n"
}

/// Checks that the workflow file is exactly the expected one and pins the
/// shared workflow's revision.
pub fn check_workflow(text: &[u8]) -> (r: Result<(), RepositoryViolation>)
    ensures
        text@ != expected_workflow().spec_bytes() ==> r == Err::<(), RepositoryViolation>(
            RepositoryViolation::WorkflowChanged,
        ),
        text@ == expected_workflow().spec_bytes() ==> match missing_violation(text@, workflow_path(), seq![workflow_revision()]) {
            None => r is Ok,
            Some(v) => r == Err::<(), RepositoryViolation>(v),
        },
{
    let expected = "name: RunenSpatial Validation\n\non:\n  pull_request:\n    branches:\n      - main\n  push:\n    branches:\n      - main\n  workflow_dispatch:\n\npermissions:\n  contents: read\n\nconcurrency:\n  group: runen-spatial-validation-${{ github.workflow }}-${{ github.ref }}\n  cancel-in-progress: true\n\njobs:\n  validate:\n    name: Validate standalone framework\n    uses: dornglut/github-workflows/.github/workflows/reusable-rust-cargo-validate.yml@624cb41adeed21a6461eb838bc7330bd0a5079fd\n";
    if !bytes_eq(text, expected.as_bytes()) {
        return Err(RepositoryViolation::WorkflowChanged);
    }
    let revision = vec!["624cb41adeed21a6461eb838bc7330bd0a5079fd"];
    proof {
        assert(revision@ =~= seq![workflow_revision()]);
    }
    require_all(text, ".github/workflows/validation.yml", &revision)
}

/// What the provenance record must say.
pub open spec fn provenance_required() -> Seq<&'static str> {
    seq![
        "aschenrot/spatial_streaming",
        "dornglut/runen-spatial",
        "2a87094cb4ca4ed48238b416f4d4121cb5e074a1",
        "8d5dae4123dd3e67f572f3c0c32aac7362975aaf",
        "private normalization",
        "not a complete full-history secret scan",
        "public",
    ]
}

/// Checks that the provenance record says what it must.
pub fn check_provenance(text: &[u8]) -> (r: Result<(), RepositoryViolation>)
    ensures
        match missing_violation(text@, "docs/provenance/repository-transfer.md", provenance_required()) {
            None => r is Ok,
            Some(v) => r == Err::<(), RepositoryViolation>(v),
        },
{
    let required = vec![
        "aschenrot/spatial_streaming",
        "dornglut/runen-spatial",
        "2a87094cb4ca4ed48238b416f4d4121cb5e074a1",
        "8d5dae4123dd3e67f572f3c0c32aac7362975aaf",
        "private normalization",
        "not a complete full-history secret scan",
        "public",
    ];
    proof {
        assert(required@ =~= provenance_required());
    }
    require_all(text, "docs/provenance/repository-transfer.md", &required)
}

/// The first line of an index listing that starts with the submodule mode
/// `160000 `, from line `k` on.
pub open spec fn first_submodule_line_from(b: Seq<u8>, k: int) -> Option<int>
    decreases lines(b).len() - k,
{
    if k < 0 || k >= lines(b).len() {
        None
    } else if occurs_at(b.take(lines(b)[k].1), "160000 ".spec_bytes(), lines(b)[k].0) {
        Some(k)
    } else {
        first_submodule_line_from(b, k + 1)
    }
}

/// Checks an index listing (`git ls-files --stage`) for submodule entries.
pub fn check_index_listing(listing: &[u8]) -> (r: Result<(), RepositoryViolation>)
    ensures
        match first_submodule_line_from(listing@, 0) {
            None => r is Ok,
            Some(k) => r == Err::<(), RepositoryViolation>(RepositoryViolation::SubmoduleEntry { line: k as usize }),
        },
{
    let ranges = line_ranges(listing);
    let mut k: usize = 0;
    while k < ranges.len()
        invariant
            k <= ranges@.len(),
            ranges@.len() == lines(listing@).len(),
            forall|m: int| 0 <= m < ranges@.len() ==> (#[trigger] ranges@[m]).0 as int == lines(listing@)[m].0
                && ranges@[m].1 as int == lines(listing@)[m].1,
            forall|m: int| 0 <= m < ranges@.len() ==> (#[trigger] ranges@[m]).0 <= ranges@[m].1 <= listing@.len(),
            first_submodule_line_from(listing@, 0) == first_submodule_line_from(listing@, k as int),
        decreases ranges@.len() - k,
    {
        let (s, e) = ranges[k];
        let line = vstd::slice::slice_subrange(listing, 0, e);
        proof {
            assert(line@ =~= listing@.take(e as int));
            let _ = ranges@[k as int];
        }
        if matches_at(line, "160000 ".as_bytes(), s) {
            return Err(RepositoryViolation::SubmoduleEntry { line: k });
        }
        k += 1;
    }
    Ok(())
}

/// The size limit of an authored text file, in bytes.
pub open spec fn max_authored_bytes() -> u64 {
    131_072
}

/// Checks one file of the repository: no symbolic link, and no authored
/// text file larger than the limit.
pub fn check_repository_file(name: &[u8], is_symlink: bool, len: u64) -> (r: Result<(), RepositoryViolation>)
    ensures
        is_symlink ==> r == Err::<(), RepositoryViolation>(RepositoryViolation::SymbolicLink),
        !is_symlink && crate::repository::scan::authored_text(name@) && len > max_authored_bytes() ==> r
            == Err::<(), RepositoryViolation>(RepositoryViolation::OversizedText { len }),
        !is_symlink && !(crate::repository::scan::authored_text(name@) && len > max_authored_bytes()) ==> r is Ok,
{
    if is_symlink {
        return Err(RepositoryViolation::SymbolicLink);
    }
    if crate::repository::scan::is_authored_text(name) && len > 131_072 {
        return Err(RepositoryViolation::OversizedText { len });
    }
    Ok(())
}

/// Package names that no manifest may declare, and whose crate paths no
/// source may use.
pub open spec fn retired_packages() -> Seq<&'static str> {
    seq!["spatial", "spatial_index", "chunking", "world_streaming"]
}

/// The manifest lines that declare the retired package names, in the
/// order of `retired_packages()`.
pub open spec fn retired_package_lines() -> Seq<&'static str> {
    seq![
        "name = \"spatial\"",
        "name = \"spatial_index\"",
        "name = \"chunking\"",
        "name = \"world_streaming\"",
    ]
}

/// Names of retired APIs that no source may mention.
pub open spec fn retired_api() -> Seq<&'static str> {
    seq![
        "WorldLocalPosition",
        "CameraRelativeFrame",
        "build_camera_relative_frame",
        "fixed_point_scale",
        "quantization_scale",
        "SpatialAabb3",
        "SpatialPoint3",
        "ChunkStreamer",
        "ChunkStreamingConfig",
        "ChunkStreamingMode",
        "ChunkLoadOrder",
        "StreamingFocus",
        "ChunkSetDiff",
        "FarthestFirst",
    ]
}

/// The repository tool's own source, which the source scans skip.
pub open spec fn tool_source() -> &'static str {
    "xtask/src/main.rs"
}

/// The first retired package name that a line of `m` declares, from `k` on.
pub open spec fn first_declared_from(m: Seq<u8>, k: int) -> Option<int>
    decreases retired_package_lines().len() - k,
{
    if k < 0 || k >= retired_package_lines().len() {
        None
    } else if has_trimmed_line(m, retired_package_lines()[k].spec_bytes()) {
        Some(k)
    } else {
        first_declared_from(m, k + 1)
    }
}

/// What retires manifest `i`, if anything.
pub open spec fn manifest_retired(m: Seq<u8>, i: int) -> Option<RepositoryViolation> {
    match first_declared_from(m, 0) {
        Some(k) => Some(RepositoryViolation::RetiredPackageName { manifest: i as usize, package: retired_packages()[k] }),
        None => if contains(m, "runen-spatial-index".spec_bytes()) {
            Some(RepositoryViolation::RetiredIndexPackageInManifest { manifest: i as usize })
        } else if contains(m, "world_core_prelude".spec_bytes()) {
            Some(RepositoryViolation::RetiredPreludeInManifest { manifest: i as usize })
        } else {
            None
        },
    }
}

/// The first retired package whose crate path `text` uses, from `k` on.
pub open spec fn first_crate_path_from(text: Seq<u8>, k: int) -> Option<int>
    decreases retired_packages().len() - k,
{
    if k < 0 || k >= retired_packages().len() {
        None
    } else if standalone_from(text, crate_path_token(retired_packages()[k].spec_bytes()), 0) {
        Some(k)
    } else {
        first_crate_path_from(text, k + 1)
    }
}

/// What retires source `i` (at `path`), if anything; the tool's own source
/// is skipped.
pub open spec fn source_retired(path: Seq<u8>, text: Seq<u8>, i: int) -> Option<RepositoryViolation> {
    if path == tool_source().spec_bytes() {
        None
    } else {
        match first_present(text, retired_api()) {
            Some(k) => Some(RepositoryViolation::RetiredApiInSource { source: i as usize, name: retired_api()[k] }),
            None => if contains(text, "runen_spatial_index".spec_bytes()) {
                Some(RepositoryViolation::RetiredIndexImportInSource { source: i as usize })
            } else {
                match first_crate_path_from(text, 0) {
                    Some(k) => Some(RepositoryViolation::RetiredCratePath { source: i as usize, package: retired_packages()[k] }),
                    None => None,
                }
            },
        }
    }
}

/// The first retired manifest from `i` on.
pub open spec fn manifests_retired_from(ms: Seq<Seq<u8>>, i: int) -> Option<RepositoryViolation>
    decreases ms.len() - i,
{
    if i < 0 || i >= ms.len() {
        None
    } else if manifest_retired(ms[i], i) is Some {
        manifest_retired(ms[i], i)
    } else {
        manifests_retired_from(ms, i + 1)
    }
}

/// The first retired source from `i` on.
pub open spec fn sources_retired_from(ss: Seq<(Seq<u8>, Seq<u8>)>, i: int) -> Option<RepositoryViolation>
    decreases ss.len() - i,
{
    if i < 0 || i >= ss.len() {
        None
    } else if source_retired(ss[i].0, ss[i].1, i) is Some {
        source_retired(ss[i].0, ss[i].1, i)
    } else {
        sources_retired_from(ss, i + 1)
    }
}

/// The contents of byte strings.
pub open spec fn texts(v: Seq<Vec<u8>>) -> Seq<Seq<u8>> {
    Seq::new(v.len(), |i: int| v[i]@)
}

/// The contents of (path, text) pairs.
pub open spec fn files(v: Seq<(Vec<u8>, Vec<u8>)>) -> Seq<(Seq<u8>, Seq<u8>)> {
    Seq::new(v.len(), |i: int| (v[i].0@, v[i].1@))
}

fn manifest_retired_exec(m: &[u8], i: usize) -> (r: Option<RepositoryViolation>)
    ensures
        r == manifest_retired(m@, i as int),
{
    let names = vec!["spatial", "spatial_index", "chunking", "world_streaming"];
    let decls = vec![
        "name = \"spatial\"",
        "name = \"spatial_index\"",
        "name = \"chunking\"",
        "name = \"world_streaming\"",
    ];
    proof {
        assert(names@ =~= retired_packages());
        assert(decls@ =~= retired_package_lines());
    }
    let mut k: usize = 0;
    while k < decls.len()
        invariant
            k <= decls@.len(),
            decls@ == retired_package_lines(),
            names@ == retired_packages(),
            first_declared_from(m@, 0) == first_declared_from(m@, k as int),
        decreases decls@.len() - k,
    {
        if contains_trimmed_line(m, decls[k].as_bytes()) {
            return Some(RepositoryViolation::RetiredPackageName { manifest: i, package: names[k] });
        }
        k += 1;
    }
    if contains_bytes(m, "runen-spatial-index".as_bytes()) {
        return Some(RepositoryViolation::RetiredIndexPackageInManifest { manifest: i });
    }
    if contains_bytes(m, "world_core_prelude".as_bytes()) {
        return Some(RepositoryViolation::RetiredPreludeInManifest { manifest: i });
    }
    None
}

fn source_retired_exec(path: &[u8], text: &[u8], i: usize) -> (r: Option<RepositoryViolation>)
    ensures
        r == source_retired(path@, text@, i as int),
{
    if bytes_eq(path, "xtask/src/main.rs".as_bytes()) {
        return None;
    }
    let api = vec![
        "WorldLocalPosition",
        "CameraRelativeFrame",
        "build_camera_relative_frame",
        "fixed_point_scale",
        "quantization_scale",
        "SpatialAabb3",
        "SpatialPoint3",
        "ChunkStreamer",
        "ChunkStreamingConfig",
        "ChunkStreamingMode",
        "ChunkLoadOrder",
        "StreamingFocus",
        "ChunkSetDiff",
        "FarthestFirst",
    ];
    let names = vec!["spatial", "spatial_index", "chunking", "world_streaming"];
    proof {
        assert(api@ =~= retired_api());
        assert(names@ =~= retired_packages());
    }
    let list = api.as_slice();
    assert(list@ == retired_api());
    if let Some(k) = find_present(text, list) {
        return Some(RepositoryViolation::RetiredApiInSource { source: i, name: list[k] });
    }
    if contains_bytes(text, "runen_spatial_index".as_bytes()) {
        return Some(RepositoryViolation::RetiredIndexImportInSource { source: i });
    }
    let mut k: usize = 0;
    while k < names.len()
        invariant
            k <= names@.len(),
            names@ == retired_packages(),
            path@ != tool_source().spec_bytes(),
            first_present(text@, retired_api()) is None,
            !contains(text@, "runen_spatial_index".spec_bytes()),
            first_crate_path_from(text@, 0) == first_crate_path_from(text@, k as int),
        decreases names@.len() - k,
    {
        if contains_standalone_crate_path(text, names[k].as_bytes()) {
            return Some(RepositoryViolation::RetiredCratePath { source: i, package: names[k] });
        }
        k += 1;
    }
    None
}

/// The first retired surface: a manifest (in order) that declares a
/// retired package or names a retired package, then a source (in order,
/// the tool's own skipped) that names a retired API, imports the retired
/// index crate or uses a path into a retired crate.
pub open spec fn retired_surfaces_violation(ms: Seq<Seq<u8>>, ss: Seq<(Seq<u8>, Seq<u8>)>) -> Option<RepositoryViolation> {
    if manifests_retired_from(ms, 0) is Some {
        manifests_retired_from(ms, 0)
    } else {
        sources_retired_from(ss, 0)
    }
}

/// Checks manifests and sources (as relative path and text) for retired
/// surfaces.
pub fn check_retired_surfaces(manifests: &Vec<Vec<u8>>, sources: &Vec<(Vec<u8>, Vec<u8>)>) -> (r: Result<(), RepositoryViolation>)
    ensures
        match retired_surfaces_violation(texts(manifests@), files(sources@)) {
            None => r is Ok,
            Some(v) => r == Err::<(), RepositoryViolation>(v),
        },
{
    let ghost ms = texts(manifests@);
    let ghost ss = files(sources@);
    let mut i: usize = 0;
    while i < manifests.len()
        invariant
            i <= manifests@.len(),
            ms == texts(manifests@),
            manifests_retired_from(ms, 0) == manifests_retired_from(ms, i as int),
        decreases manifests@.len() - i,
    {
        assert(ms[i as int] == manifests@[i as int]@);
        if let Some(v) = manifest_retired_exec(manifests[i].as_slice(), i) {
            return Err(v);
        }
        i += 1;
    }
    let mut j: usize = 0;
    while j < sources.len()
        invariant
            j <= sources@.len(),
            ss == files(sources@),
            ms == texts(manifests@),
            manifests_retired_from(ms, 0) is None,
            sources_retired_from(ss, 0) == sources_retired_from(ss, j as int),
        decreases sources@.len() - j,
    {
        assert(ss[j as int] == (sources@[j as int].0@, sources@[j as int].1@));
        if let Some(v) = source_retired_exec(sources[j].0.as_slice(), sources[j].1.as_slice(), j) {
            return Err(v);
        }
        j += 1;
    }
    Ok(())
}

/// The active documents, by path.
pub open spec fn active_docs() -> Seq<&'static str> {
    seq![
        "README.md",
        "AGENTS.md",
        "ARCHITECTURE.md",
        "ROADMAP.md",
        "TESTING.md",
        "SECURITY.md",
        "docs/documentation-architecture.md",
        "docs/godot-integration.md",
        "docs/grid-composition.md",
        "docs/spatial-demand.md",
        "docs/spatial-model.md",
        "docs/streaming-lifecycle.md",
    ]
}

/// The active documents, by path.
pub fn active_doc_list() -> (r: Vec<&'static str>)
    ensures
        r@ == active_docs(),
{
    let r = vec![
        "README.md",
        "AGENTS.md",
        "ARCHITECTURE.md",
        "ROADMAP.md",
        "TESTING.md",
        "SECURITY.md",
        "docs/documentation-architecture.md",
        "docs/godot-integration.md",
        "docs/grid-composition.md",
        "docs/spatial-demand.md",
        "docs/spatial-model.md",
        "docs/streaming-lifecycle.md",
    ];
    assert(r@ =~= active_docs());
    r
}

/// Text that names stale or live authority, which no active document may hold.
pub open spec fn stale_authority() -> Seq<&'static str> {
    seq![
        "Crystonix/",
        "aschenrot/spatial_streaming",
        "## Current child",
        "Accepted base: `",
        "Current PR:",
        "CI run ",
        "runen-spatial-index",
        "SpatialAabb3",
        "SpatialPoint3",
        "ChunkStreamer",
        "ChunkStreamingConfig",
        "ChunkStreamingMode",
        "ChunkLoadOrder",
        "StreamingFocus",
        "ChunkSetDiff",
        "FarthestFirst",
    ]
}

/// The compile-time file inclusion macro, with its opening parenthesis.
pub open spec fn inclusion_macro() -> Seq<u8> {
    seq![0x69u8, 0x6Eu8, 0x63u8, 0x6Cu8, 0x75u8, 0x64u8, 0x65u8, 0x21u8, 0x28u8]
}

/// The compile-time byte inclusion macro, with its opening parenthesis.
pub open spec fn byte_inclusion_macro() -> Seq<u8> {
    seq![
        0x69u8, 0x6Eu8, 0x63u8, 0x6Cu8, 0x75u8, 0x64u8, 0x65u8, 0x5Fu8, 0x62u8, 0x79u8, 0x74u8,
        0x65u8, 0x73u8, 0x21u8, 0x28u8,
    ]
}

/// The first active document, from `i` on, that holds stale authority.
pub open spec fn stale_docs_from(docs: Seq<Seq<u8>>, i: int) -> Option<RepositoryViolation>
    decreases docs.len() - i,
{
    if i < 0 || i >= docs.len() {
        None
    } else {
        match first_present(docs[i], stale_authority()) {
            Some(k) => Some(RepositoryViolation::StaleAuthority { doc: active_docs()[i], text: stale_authority()[k] }),
            None => stale_docs_from(docs, i + 1),
        }
    }
}

/// The first source, from `i` on and the tool's own skipped, that includes
/// other files at compile time.
pub open spec fn inclusions_from(ss: Seq<(Seq<u8>, Seq<u8>)>, i: int) -> Option<RepositoryViolation>
    decreases ss.len() - i,
{
    if i < 0 || i >= ss.len() {
        None
    } else if ss[i].0 != tool_source().spec_bytes() && (contains(ss[i].1, inclusion_macro()) || contains(
        ss[i].1,
        byte_inclusion_macro(),
    )) {
        Some(RepositoryViolation::SourceInclusion { source: i as usize })
    } else {
        inclusions_from(ss, i + 1)
    }
}

/// Checks the active documents (in the order of `active_docs()`) for stale
/// authority, then the sources for compile-time inclusion.
pub fn check_current_authority(docs: &Vec<Vec<u8>>, sources: &Vec<(Vec<u8>, Vec<u8>)>) -> (r: Result<(), RepositoryViolation>)
    requires
        docs@.len() == active_docs().len(),
    ensures
        match stale_docs_from(texts(docs@), 0) {
            Some(v) => r == Err::<(), RepositoryViolation>(v),
            None => match inclusions_from(files(sources@), 0) {
                None => r is Ok,
                Some(v) => r == Err::<(), RepositoryViolation>(v),
            },
        },
{
    let names = active_doc_list();
    let stale = vec![
        "Crystonix/",
        "aschenrot/spatial_streaming",
        "## Current child",
        "Accepted base: `",
        "Current PR:",
        "CI run ",
        "runen-spatial-index",
        "SpatialAabb3",
        "SpatialPoint3",
        "ChunkStreamer",
        "ChunkStreamingConfig",
        "ChunkStreamingMode",
        "ChunkLoadOrder",
        "StreamingFocus",
        "ChunkSetDiff",
        "FarthestFirst",
    ];
    let inclusion: [u8; 9] = [0x69, 0x6E, 0x63, 0x6C, 0x75, 0x64, 0x65, 0x21, 0x28];
    let byte_inclusion: [u8; 15] = [0x69, 0x6E, 0x63, 0x6C, 0x75, 0x64, 0x65, 0x5F, 0x62, 0x79, 0x74, 0x65, 0x73, 0x21, 0x28];
    proof {
        assert(stale@ =~= stale_authority());
        assert(inclusion@ =~= inclusion_macro());
        assert(byte_inclusion@ =~= byte_inclusion_macro());
    }
    let stale_list = stale.as_slice();
    assert(stale_list@ == stale_authority());
    let ghost ds = texts(docs@);
    let ghost ss = files(sources@);
    let mut i: usize = 0;
    while i < docs.len()
        invariant
            i <= docs@.len(),
            docs@.len() == active_docs().len(),
            names@ == active_docs(),
            stale_list@ == stale_authority(),
            ds == texts(docs@),
            stale_docs_from(ds, 0) == stale_docs_from(ds, i as int),
        decreases docs@.len() - i,
    {
        assert(ds[i as int] == docs@[i as int]@);
        if let Some(k) = find_present(docs[i].as_slice(), stale_list) {
            return Err(RepositoryViolation::StaleAuthority { doc: names[i], text: stale_list[k] });
        }
        i += 1;
    }
    let mut j: usize = 0;
    while j < sources.len()
        invariant
            j <= sources@.len(),
            ss == files(sources@),
            inclusion@ == inclusion_macro(),
            byte_inclusion@ == byte_inclusion_macro(),
            ds == texts(docs@),
            stale_docs_from(ds, 0) is None,
            inclusions_from(ss, 0) == inclusions_from(ss, j as int),
        decreases sources@.len() - j,
    {
        assert(ss[j as int] == (sources@[j as int].0@, sources@[j as int].1@));
        let path = sources[j].0.as_slice();
        let text = sources[j].1.as_slice();
        if !bytes_eq(path, "xtask/src/main.rs".as_bytes()) && (contains_bytes(text, &inclusion)
            || contains_bytes(text, &byte_inclusion)) {
            return Err(RepositoryViolation::SourceInclusion { source: j });
        }
        j += 1;
    }
    Ok(())
}

} // verus!
