use godot_lsp_bridge::json::{array, object, Json};
use godot_lsp_bridge::update::{
    added_to_path_message, already_on_path_message, archive_suffix, asset_name, binary_name,
    binary_not_found_message, current_target, dir_on_path, export_line, is_binary_entry, plan_update,
    powershell_path_script, rc_mentions_dir, select_rc_file, RcFile, TargetArch, TargetOs, UpdateError, UpdatePlan,
};

fn obj(fields: Vec<(&str, Json)>) -> Json {
    object(fields.into_iter().map(|(k, v)| (k.to_owned(), v)).collect())
}

fn release(tag: &str, assets: Vec<(&str, &str)>) -> Json {
    obj(vec![
        ("tag_name", Json::string(tag)),
        (
            "assets",
            array(
                assets
                    .into_iter()
                    .map(|(n, u)| obj(vec![("name", Json::string(n)), ("browser_download_url", Json::string(u))]))
                    .collect(),
            ),
        ),
    ])
}

#[test]
fn target_triples() {
    assert_eq!(current_target(TargetOs::Windows, TargetArch::X86_64), "x86_64-pc-windows-msvc");
    assert_eq!(current_target(TargetOs::MacOs, TargetArch::Aarch64), "aarch64-apple-darwin");
    assert_eq!(current_target(TargetOs::MacOs, TargetArch::X86_64), "x86_64-apple-darwin");
    assert_eq!(current_target(TargetOs::Linux, TargetArch::Aarch64), "aarch64-unknown-linux-musl");
    assert_eq!(current_target(TargetOs::Linux, TargetArch::X86_64), "x86_64-unknown-linux-musl");
    assert_eq!(current_target(TargetOs::Windows, TargetArch::Aarch64), "x86_64-unknown-linux-musl");
}

#[test]
fn suffix_and_names() {
    assert_eq!(archive_suffix(TargetOs::Windows), ".zip");
    assert_eq!(archive_suffix(TargetOs::Linux), ".tar.gz");
    assert_eq!(binary_name(TargetOs::Windows), "godot-lsp-bridge.exe");
    assert_eq!(binary_name(TargetOs::MacOs), "godot-lsp-bridge");
    assert_eq!(
        asset_name("x86_64-unknown-linux-musl", ".tar.gz"),
        "godot-lsp-bridge-x86_64-unknown-linux-musl.tar.gz"
    );
}

#[test]
fn plan_up_to_date() {
    let r = release("v0.1.0", vec![]);
    assert!(matches!(plan_update(&r, "v0.1.0", "t", ".zip"), Ok(UpdatePlan::UpToDate)));
}

#[test]
fn plan_download_picks_matching_asset() {
    let r = release(
        "v0.2.0",
        vec![
            ("godot-lsp-bridge-x86_64-pc-windows-msvc.zip", "https://w"),
            ("godot-lsp-bridge-x86_64-unknown-linux-musl.tar.gz", "https://l"),
        ],
    );
    match plan_update(&r, "v0.1.0", "x86_64-unknown-linux-musl", ".tar.gz") {
        Ok(UpdatePlan::Download { tag, url }) => {
            assert_eq!(tag, "v0.2.0");
            assert_eq!(url, "https://l");
        }
        other => panic!("unexpected plan: {other:?}"),
    }
}

#[test]
fn plan_errors() {
    let no_tag = obj(vec![("assets", array(vec![]))]);
    let e = plan_update(&no_tag, "v1", "t", ".zip").unwrap_err();
    assert!(matches!(e, UpdateError::MissingTag));
    assert_eq!(e.tag(), None);
    assert_eq!(e.message(), "release metadata missing tag_name");

    let no_assets = obj(vec![("tag_name", Json::string("v2"))]);
    let e = plan_update(&no_assets, "v1", "t", ".zip").unwrap_err();
    assert!(matches!(e, UpdateError::MissingAssets { ref tag } if tag == "v2"));
    assert_eq!(e.tag(), Some("v2"));
    assert_eq!(e.message(), "release metadata missing assets array");

    let r = release("v2", vec![("other.zip", "u")]);
    let e = plan_update(&r, "v1", "x86_64-pc-windows-msvc", ".zip").unwrap_err();
    assert_eq!(
        e.message(),
        "no release asset found for target x86_64-pc-windows-msvc (looked for godot-lsp-bridge-x86_64-pc-windows-msvc.zip)"
    );

    let no_url = obj(vec![
        ("tag_name", Json::string("v2")),
        ("assets", array(vec![obj(vec![("name", Json::string("godot-lsp-bridge-t.zip"))])])),
    ]);
    let e = plan_update(&no_url, "v1", "t", ".zip").unwrap_err();
    assert!(matches!(e, UpdateError::MissingUrl { .. }));
    assert_eq!(e.tag(), Some("v2"));
    assert_eq!(e.message(), "asset is missing browser_download_url");
}

#[test]
fn binary_entry_matching() {
    assert!(is_binary_entry("godot-lsp-bridge", "godot-lsp-bridge"));
    assert!(is_binary_entry("dist/godot-lsp-bridge", "godot-lsp-bridge"));
    assert!(!is_binary_entry("dist/godot-lsp-bridge.sig", "godot-lsp-bridge"));
    assert!(!is_binary_entry("godot-lsp-bridge/..", "godot-lsp-bridge"));
    assert_eq!(
        binary_not_found_message("godot-lsp-bridge"),
        "binary godot-lsp-bridge not found in the downloaded archive; the release asset may be malformed"
    );
}

#[test]
fn rc_file_choice() {
    assert_eq!(select_rc_file(true, false, false, false), RcFile::Zshrc);
    assert_eq!(select_rc_file(true, false, true, false), RcFile::BashProfile);
    assert_eq!(select_rc_file(true, true, true, false), RcFile::Zshrc);
    assert_eq!(select_rc_file(false, false, false, false), RcFile::Bashrc);
    assert_eq!(select_rc_file(false, true, false, false), RcFile::Zshrc);
    assert_eq!(select_rc_file(false, true, false, true), RcFile::Bashrc);
    assert_eq!(RcFile::BashProfile.file_name(), ".bash_profile");
}

#[test]
fn path_checks() {
    assert!(dir_on_path("/usr/bin:/home/u/.local/bin", "/home/u/.local/bin"));
    assert!(!dir_on_path("/usr/bin:/home/u/.local/bin", "/home/u"));
    assert!(!dir_on_path("", "/usr/bin"));
    assert!(dir_on_path("/a::/b", ""));
    assert!(rc_mentions_dir("export PATH=\"$PATH:/opt/x\"\n", "/opt/x"));
    assert!(!rc_mentions_dir("alias ll='ls -l'\n", "/opt/x"));
}

#[test]
fn path_texts() {
    assert_eq!(export_line("/opt/x"), "\nexport PATH=\"$PATH:/opt/x\"\n");
    assert_eq!(already_on_path_message("/opt/x"), "/opt/x is already on PATH.");
    assert_eq!(
        added_to_path_message("/opt/x", "/home/u/.bashrc"),
        "Added /opt/x to PATH in /home/u/.bashrc.\nRun `source /home/u/.bashrc` or restart your terminal to apply."
    );
    let script = powershell_path_script("C:\\bin");
    assert!(script.starts_with("\n$p = [Environment]::GetEnvironmentVariable('PATH', 'User')\n"));
    assert!(script.contains("if ($p -notlike '*C:\\bin*') {"));
    assert!(script.contains("Write-Host \"C:\\bin is already on User PATH.\""));
    assert!(script.ends_with("}\n"));
}

#[test]
fn export_line_makes_rc_mention_dir() {
    let before = "alias ll='ls -l'\n".to_owned();
    assert!(!rc_mentions_dir(&before, "/opt/x"));
    let after = before + &export_line("/opt/x");
    assert!(rc_mentions_dir(&after, "/opt/x"));
}
