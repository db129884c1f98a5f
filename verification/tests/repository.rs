use runen_spatial::repository::markdown::{
    local_markdown_target, markdown_link_targets, markdown_lines_outside_fences,
    normalized_markdown_target, reference_definition_target, reference_style_local_targets,
};
use runen_spatial::repository::policy::{
    RepositoryViolation, check_current_authority, check_index_listing, check_manifest_inventory,
    check_manifest_policy, check_provenance, check_repository_file,
    check_required_and_retired_paths, check_retired_surfaces, check_workflow,
    required_file_list, retired_path_list,
};
use runen_spatial::repository::scan::{
    contains_standalone_crate_path, contains_trimmed_line, is_authored_text, toml_inline_path,
};
use runen_spatial::text::{line_ranges, trim_end, trim_start};

fn pieces(text: &str, ranges: &[(usize, usize)]) -> Vec<String> {
    ranges
        .iter()
        .map(|&(s, e)| text[s..e].to_owned())
        .collect()
}

#[test]
fn crate_paths_count_only_when_they_stand_alone() {
    assert!(contains_standalone_crate_path(b"use spatial::X;", b"spatial"));
    assert!(contains_standalone_crate_path(b"spatial::X", b"spatial"));
    assert!(!contains_standalone_crate_path(b"use runen_spatial::X;", b"spatial"));
    assert!(contains_standalone_crate_path(
        b"runen_spatial::a; (spatial::b)",
        b"spatial"
    ));
    assert!(!contains_standalone_crate_path(b"spatial:X", b"spatial"));
    assert!(contains_standalone_crate_path("échunking::x".as_bytes(), b"chunking"));
}

#[test]
fn inline_path_dependencies_are_found_by_their_marker() {
    let line = b"runen-spatial = { path = \"../crates/runen_spatial\" }";
    let (s, e) = toml_inline_path(line).unwrap();
    assert_eq!(&line[s..e], b"../crates/runen_spatial");
    assert_eq!(toml_inline_path(b"version = \"1\""), None);
    assert_eq!(toml_inline_path(b"path = \"unterminated"), None);
}

#[test]
fn authored_text_is_recognised_by_extension_or_name() {
    assert!(is_authored_text(b"README.md"));
    assert!(is_authored_text(b"lib.rs"));
    assert!(is_authored_text(b"archive.tar.json"));
    assert!(is_authored_text(b"LICENSE"));
    assert!(!is_authored_text(b"Cargo.lock"));
    assert!(!is_authored_text(b".md"));
    assert!(!is_authored_text(b"image.png"));
    assert!(!is_authored_text(b"Makefile"));
}

#[test]
fn lines_and_trimming_follow_the_text_conventions() {
    let text = "a\r\n  b \n\nc";
    assert_eq!(pieces(text, &line_ranges(text.as_bytes())), ["a", "  b ", "", "c"]);
    assert_eq!(line_ranges(b"x\n").len(), 1);
    let bare = "a\r\nb\r";
    assert_eq!(pieces(bare, &line_ranges(bare.as_bytes())), ["a", "b\r"]);
    let spaced = "\u{a0} \tword\u{3000} ";
    let s = trim_start(spaced.as_bytes(), 0, spaced.len());
    let e = trim_end(spaced.as_bytes(), s, spaced.len());
    assert_eq!(&spaced[s..e], "word");
    assert!(contains_trimmed_line(
        b"[package]\n   name = \"chunking\"\n",
        b"name = \"chunking\""
    ));
    assert!(!contains_trimmed_line(
        b"name = \"chunking\" # note",
        b"name = \"chunking\""
    ));
}

#[test]
fn markdown_links_skip_fenced_blocks() {
    let doc = "See [a](docs/a.md) and [b](<docs/b c.md> \"t\").\n```\n[x](skip.md)\n~~~\n[y](skip2.md)\n```\n[z](  z.md  title)\n";
    let targets = markdown_link_targets(doc.as_bytes());
    assert_eq!(pieces(doc, &targets), ["docs/a.md", "docs/b c.md", "z.md"]);
    let lines = markdown_lines_outside_fences(doc.as_bytes());
    assert_eq!(lines.len(), 2);
    let (s, e) = normalized_markdown_target(b"  <>  ", 0, 6).map_or((0, 0), |r| r);
    assert_eq!((s, e), (0, 0));
}

#[test]
fn reference_definitions_and_local_targets() {
    let line = b"  [guide]: ./guide.md#intro";
    let (s, e) = reference_definition_target(line, 0, line.len()).unwrap();
    assert_eq!(&line[s..e], b"./guide.md#intro");
    let (ps, pe) = local_markdown_target(line, s, e).unwrap();
    assert_eq!(&line[ps..pe], b"./guide.md");
    assert_eq!(reference_definition_target(b"[^note]: text", 0, 13), None);
    for remote in ["#anchor", "https://x.org", "http://x.org", "mailto:a@b", "data:x", "/abs/path"] {
        assert_eq!(local_markdown_target(remote.as_bytes(), 0, remote.len()), None);
    }
    let doc = "[a]: https://example.org\n[b]: local.md\n";
    assert_eq!(pieces(doc, &reference_style_local_targets(doc.as_bytes())), ["local.md"]);
}

#[test]
fn required_and_retired_paths_report_the_first_violation() {
    let required = vec![true; required_file_list().len()];
    let mut retired = vec![false; retired_path_list().len()];
    assert_eq!(check_required_and_retired_paths(&required, &retired), Ok(()));
    retired[11] = true;
    assert_eq!(
        check_required_and_retired_paths(&required, &retired),
        Err(RepositoryViolation::RetiredSurfacePresent {
            path: "crates/runen_spatial_index"
        })
    );
    let mut missing = required.clone();
    missing[2] = false;
    assert_eq!(
        check_required_and_retired_paths(&missing, &retired),
        Err(RepositoryViolation::MissingRequiredFile { path: "AGENTS.md" })
    );
}

#[test]
fn manifest_inventory_is_compared_as_a_set() {
    let mut actual: Vec<Vec<u8>> = [
        "xtask/Cargo.toml",
        "Cargo.toml",
        "adapters/godot_world_streaming/Cargo.toml",
        "crates/runen_spatial/Cargo.toml",
        "crates/runen_spatial_demand/Cargo.toml",
        "crates/runen_spatial_streaming/Cargo.toml",
    ]
    .iter()
    .map(|p| p.as_bytes().to_vec())
    .collect();
    assert_eq!(check_manifest_inventory(&actual), Ok(()));
    actual.push(b"extra/Cargo.toml".to_vec());
    assert_eq!(
        check_manifest_inventory(&actual),
        Err(RepositoryViolation::ManifestInventoryMismatch)
    );
    actual.truncate(2);
    assert_eq!(
        check_manifest_inventory(&actual),
        Err(RepositoryViolation::ManifestInventoryMismatch)
    );
}

#[test]
fn manifest_policy_names_the_missing_text() {
    let root = "members = [\"xtask\"]\nrust-version = \"1.93.0\"\nlicense = \"GPL-3.0-only\"\nrepository = \"https://github.com/dornglut/runen-spatial\"\npublish = false\nunsafe_code = \"forbid\"\nall = { level = \"deny\", priority = -1 }\n";
    let core = "rust-version.workspace = true\nlicense.workspace = true\nrepository.workspace = true\npublish.workspace = true\n[lints]\nworkspace = true\n";
    let adapter = "license.workspace = true\nrepository.workspace = true\npublish.workspace = true\n[lints.rust]\nunsafe_code = \"allow\"\n[lints.clippy]\nall = { level = \"deny\", priority = -1 }\n";
    let tool = "license.workspace = true\npublish = false\n[lints]\nworkspace = true\n";
    let cores = vec![core.as_bytes().to_vec(); 3];
    assert_eq!(
        check_manifest_policy(root.as_bytes(), &cores, adapter.as_bytes(), tool.as_bytes(), b""),
        Ok(())
    );
    let mut broken = cores.clone();
    broken[1] = b"license.workspace = true".to_vec();
    assert_eq!(
        check_manifest_policy(root.as_bytes(), &broken, adapter.as_bytes(), tool.as_bytes(), b""),
        Err(RepositoryViolation::MissingRequiredText {
            file: "crates/runen_spatial_demand/Cargo.toml",
            required: "rust-version.workspace = true"
        })
    );
    let claims = format!("{adapter}rust-version = \"1.93.0\"\n");
    assert_eq!(
        check_manifest_policy(root.as_bytes(), &cores, claims.as_bytes(), tool.as_bytes(), b""),
        Err(RepositoryViolation::AdapterClaimsRustVersion)
    );
    assert_eq!(
        check_manifest_policy(
            root.as_bytes(),
            &cores,
            adapter.as_bytes(),
            tool.as_bytes(),
            b"name = \"runen-spatial-index\""
        ),
        Err(RepositoryViolation::RetiredIndexPackageInLockfile)
    );
}

#[test]
fn workflow_and_provenance_checks() {
    assert_eq!(
        check_workflow(b"name: other\n"),
        Err(RepositoryViolation::WorkflowChanged)
    );
    let workflow = "name: RunenSpatial Validation\n\non:\n  pull_request:\n    branches:\n      - main\n  push:\n    branches:\n      - main\n  workflow_dispatch:\n\npermissions:\n  contents: read\n\nconcurrency:\n  group: runen-spatial-validation-${{ github.workflow }}-${{ github.ref }}\n  cancel-in-progress: true\n\njobs:\n  validate:\n    name: Validate standalone framework\n    uses: dornglut/github-workflows/.github/workflows/reusable-rust-cargo-validate.yml@624cb41adeed21a6461eb838bc7330bd0a5079fd\n";
    assert_eq!(check_workflow(workflow.as_bytes()), Ok(()));
    assert_eq!(
        check_provenance(b"aschenrot/spatial_streaming dornglut/runen-spatial"),
        Err(RepositoryViolation::MissingRequiredText {
            file: "docs/provenance/repository-transfer.md",
            required: "2a87094cb4ca4ed48238b416f4d4121cb5e074a1"
        })
    );
}

#[test]
fn retired_surfaces_are_found_in_manifests_then_sources() {
    let manifests = vec![b"[package]\nname = \"demo\"\n".to_vec()];
    let sources = vec![
        (b"xtask/src/main.rs".to_vec(), b"ChunkStreamer".to_vec()),
        (b"src/lib.rs".to_vec(), b"use runen_spatial::X;".to_vec()),
    ];
    assert_eq!(check_retired_surfaces(&manifests, &sources), Ok(()));
    let stale = vec![
        sources[0].clone(),
        (b"src/a.rs".to_vec(), b"fn f() { chunking::run() }".to_vec()),
    ];
    assert_eq!(
        check_retired_surfaces(&manifests, &stale),
        Err(RepositoryViolation::RetiredCratePath {
            source: 1,
            package: "chunking"
        })
    );
    let api = vec![(b"src/b.rs".to_vec(), b"let f: StreamingFocus;".to_vec())];
    assert_eq!(
        check_retired_surfaces(&manifests, &api),
        Err(RepositoryViolation::RetiredApiInSource {
            source: 0,
            name: "StreamingFocus"
        })
    );
    let declared = vec![manifests[0].clone(), b"  name = \"world_streaming\"\n".to_vec()];
    assert_eq!(
        check_retired_surfaces(&declared, &sources),
        Err(RepositoryViolation::RetiredPackageName {
            manifest: 1,
            package: "world_streaming"
        })
    );
}

#[test]
fn current_authority_rejects_stale_documents_and_inclusions() {
    let docs = vec![b"clean".to_vec(); 12];
    let clean = vec![(b"src/lib.rs".to_vec(), b"fn main() {}".to_vec())];
    assert_eq!(check_current_authority(&docs, &clean), Ok(()));
    let mut stale = docs.clone();
    stale[3] = b"see Current PR: 12".to_vec();
    assert_eq!(
        check_current_authority(&stale, &clean),
        Err(RepositoryViolation::StaleAuthority {
            doc: "ROADMAP.md",
            text: "Current PR:"
        })
    );
    let macro_call = ["inc", "lude_bytes!(\"x\")"].concat();
    let sources = vec![(b"src/x.rs".to_vec(), macro_call.into_bytes())];
    assert_eq!(
        check_current_authority(&docs, &sources),
        Err(RepositoryViolation::SourceInclusion { source: 0 })
    );
}

#[test]
fn index_listing_and_file_checks() {
    assert_eq!(check_index_listing(b"100644 abc 0\tREADME.md\n"), Ok(()));
    assert_eq!(
        check_index_listing(b"100644 abc 0\tREADME.md\n160000 def 0\tsub\n"),
        Err(RepositoryViolation::SubmoduleEntry { line: 1 })
    );
    assert_eq!(
        check_repository_file(b"a.md", true, 1),
        Err(RepositoryViolation::SymbolicLink)
    );
    assert_eq!(
        check_repository_file(b"a.md", false, 131_073),
        Err(RepositoryViolation::OversizedText { len: 131_073 })
    );
    assert_eq!(check_repository_file(b"a.md", false, 131_072), Ok(()));
    assert_eq!(check_repository_file(b"a.bin", false, 1 << 40), Ok(()));
}
