//! The `update` subcommand's decisions: which release asset fits this platform,
//! whether the latest release is newer, which entry of the archive is the binary,
//! and how the install directory is put on `PATH`.
//!
//! Fetching, extracting and writing files are the caller's; this module holds what
//! is decided between those steps.

use vstd::prelude::*;
use crate::json::{jarray, jindex, jstr, Json, JsonV};
use crate::text::{chars_of, contains_chars, contains_seq, find_from, has_prefix, push_str, split_char, split_on};

verus! {

/// An operating system that release assets are built for.
#[derive(Debug, Clone, Copy, PartialEq, Eq, Structural)]
pub enum TargetOs {
    Windows,
    MacOs,
    Linux,
    /// Any other system (served the Linux build).
    Other,
}

/// A processor architecture that release assets are built for.
#[derive(Debug, Clone, Copy, PartialEq, Eq, Structural)]
pub enum TargetArch {
    X86_64,
    Aarch64,
    /// Any other architecture (served the x86-64 build).
    Other,
}

/// The target triple of the release asset for `os` on `arch`.
pub open spec fn spec_target(os: TargetOs, arch: TargetArch) -> Seq<char> {
    if os == TargetOs::Windows && arch == TargetArch::X86_64 {
        "x86_64-pc-windows-msvc"@
    } else if os == TargetOs::MacOs && arch == TargetArch::Aarch64 {
        "aarch64-apple-darwin"@
    } else if os == TargetOs::MacOs && arch == TargetArch::X86_64 {
        "x86_64-apple-darwin"@
    } else if os == TargetOs::Linux && arch == TargetArch::Aarch64 {
        "aarch64-unknown-linux-musl"@
    } else {
        "x86_64-unknown-linux-musl"@
    }
}

/// Target triple for a build on `os` / `arch`, matching the release asset naming
/// convention.
pub fn current_target(os: TargetOs, arch: TargetArch) -> (r: &'static str)
    ensures
        r@ == spec_target(os, arch),
{
    if os == TargetOs::Windows && arch == TargetArch::X86_64 {
        "x86_64-pc-windows-msvc"
    } else if os == TargetOs::MacOs && arch == TargetArch::Aarch64 {
        "aarch64-apple-darwin"
    } else if os == TargetOs::MacOs && arch == TargetArch::X86_64 {
        "x86_64-apple-darwin"
    } else if os == TargetOs::Linux && arch == TargetArch::Aarch64 {
        "aarch64-unknown-linux-musl"
    } else {
        "x86_64-unknown-linux-musl"
    }
}

/// Archive suffix of the release asset: `.zip` on Windows, `.tar.gz` elsewhere.
pub fn archive_suffix(os: TargetOs) -> (r: &'static str)
    ensures
        os == TargetOs::Windows ==> r@ == ".zip"@,
        os != TargetOs::Windows ==> r@ == ".tar.gz"@,
{
    if os == TargetOs::Windows {
        ".zip"
    } else {
        ".tar.gz"
    }
}

/// File name of the executable inside the archive.
pub fn binary_name(os: TargetOs) -> (r: &'static str)
    ensures
        os == TargetOs::Windows ==> r@ == "godot-lsp-bridge.exe"@,
        os != TargetOs::Windows ==> r@ == "godot-lsp-bridge"@,
{
    if os == TargetOs::Windows {
        "godot-lsp-bridge.exe"
    } else {
        "godot-lsp-bridge"
    }
}

/// Name of the release asset for `target` packed as `suffix`.
pub fn asset_name(target: &str, suffix: &str) -> (r: String)
    ensures
        r@ == "godot-lsp-bridge-"@ + target@ + suffix@,
{
    let mut s = "godot-lsp-bridge-".to_owned();
    push_str(&mut s, target);
    push_str(&mut s, suffix);
    s
}

/// What to do after reading the latest release's metadata.
#[derive(Debug)]
pub enum UpdatePlan {
    /// The running version is the latest one.
    UpToDate,
    /// Download `url`, the asset of release `tag`.
    Download { tag: String, url: String },
}

/// Why the release metadata cannot be used.
#[derive(Debug)]
pub enum UpdateError {
    /// No string `tag_name`.
    MissingTag,
    /// Release `tag` has no `assets` array.
    MissingAssets { tag: String },
    /// Release `tag` has no asset named `asset` (built for `target`).
    NoAsset { tag: String, target: String, asset: String },
    /// The asset of release `tag` has no string `browser_download_url`.
    MissingUrl { tag: String },
}

/// The view of an [`UpdatePlan`] or an [`UpdateError`].
pub enum PlanV {
    UpToDate,
    Download { tag: Seq<char>, url: Seq<char> },
    MissingTag,
    MissingAssets { tag: Seq<char> },
    NoAsset { tag: Seq<char>, target: Seq<char>, asset: Seq<char> },
    MissingUrl { tag: Seq<char> },
}

/// The view of the result of [`plan_update`].
pub open spec fn plan_view(r: Result<UpdatePlan, UpdateError>) -> PlanV {
    match r {
        Ok(UpdatePlan::UpToDate) => PlanV::UpToDate,
        Ok(UpdatePlan::Download { tag, url }) => PlanV::Download { tag: tag@, url: url@ },
        Err(UpdateError::MissingTag) => PlanV::MissingTag,
        Err(UpdateError::MissingAssets { tag }) => PlanV::MissingAssets { tag: tag@ },
        Err(UpdateError::NoAsset { tag, target, asset }) => PlanV::NoAsset {
            tag: tag@,
            target: target@,
            asset: asset@,
        },
        Err(UpdateError::MissingUrl { tag }) => PlanV::MissingUrl { tag: tag@ },
    }
}

/// The index of the first asset at or after `i` whose `name` is `name`.
pub open spec fn asset_index_from(assets: Seq<JsonV>, name: Seq<char>, i: int) -> Option<int>
    decreases assets.len() - i,
{
    if i < 0 || i >= assets.len() {
        None
    } else if jstr(jindex(assets[i], "name"@)) == Some(name) {
        Some(i)
    } else {
        asset_index_from(assets, name, i + 1)
    }
}

/// The plan for `release` (the GitHub "latest release" object) when the running
/// version's tag is `current` and the asset wanted is the one for `target` packed as
/// `suffix`.
pub open spec fn spec_plan_update(release: JsonV, current: Seq<char>, target: Seq<char>, suffix: Seq<char>) -> PlanV {
    let asset = "godot-lsp-bridge-"@ + target + suffix;
    match jstr(jindex(release, "tag_name"@)) {
        None => PlanV::MissingTag,
        Some(tag) => if tag == current {
            PlanV::UpToDate
        } else {
            match jarray(jindex(release, "assets"@)) {
                None => PlanV::MissingAssets { tag },
                Some(assets) => match asset_index_from(assets, asset, 0) {
                    None => PlanV::NoAsset { tag, target, asset },
                    Some(i) => match jstr(jindex(assets[i], "browser_download_url"@)) {
                        None => PlanV::MissingUrl { tag },
                        Some(url) => PlanV::Download { tag, url },
                    },
                },
            }
        },
    }
}

/// A string member of `v`, as `v[key].as_str()` reads it.
fn str_member<'a>(v: &'a Json, key: &str) -> (r: Option<&'a str>)
    ensures
        match r {
            Some(s) => jstr(jindex(v.jv(), key@)) == Some(s@),
            None => jstr(jindex(v.jv(), key@)) is None,
        },
{
    match v.get(key) {
        Some(x) => x.as_str(),
        None => None,
    }
}

/// Decides the update from the latest release's metadata: up to date, or the URL
/// of the asset to download, or why the metadata cannot be used.
pub fn plan_update(release: &Json, current: &str, target: &str, suffix: &str) -> (r: Result<UpdatePlan, UpdateError>)
    ensures
        plan_view(r) == spec_plan_update(release.jv(), current@, target@, suffix@),
{
    let tag = match str_member(release, "tag_name") {
        Some(t) => t,
        None => return Err(UpdateError::MissingTag),
    };
    let cur = current.to_owned();
    if tag.to_owned() == cur {
        return Ok(UpdatePlan::UpToDate);
    }
    let assets = match release.get("assets") {
        Some(a) => match a.as_array() {
            Some(v) => v,
            None => return Err(UpdateError::MissingAssets { tag: tag.to_owned() }),
        },
        None => return Err(UpdateError::MissingAssets { tag: tag.to_owned() }),
    };
    let ghost av = jarray(jindex(release.jv(), "assets"@))->Some_0;
    proof {
        crate::json::lemma_array_jv(assets);
    }
    assert(av == crate::json::jvs(assets@));
    let name = asset_name(target, suffix);
    let mut i: usize = 0;
    while i < assets.len()
        invariant
            i <= assets@.len(),
            av == crate::json::jvs(assets@),
            asset_index_from(av, name@, 0) == asset_index_from(av, name@, i as int),
            jstr(jindex(release.jv(), "tag_name"@)) == Some(tag@),
            tag@ != current@,
            jarray(jindex(release.jv(), "assets"@)) == Some(av),
            name@ == "godot-lsp-bridge-"@ + target@ + suffix@,
        decreases assets.len() - i,
    {
        let n = str_member(&assets[i], "name");
        assert(av[i as int] == assets@[i as int].jv());
        match n {
            Some(s) => {
                if s.to_owned() == name {
                    assert(jstr(jindex(av[i as int], "name"@)) == Some(name@));
                    assert(asset_index_from(av, name@, i as int) == Some(i as int));
                    return match str_member(&assets[i], "browser_download_url") {
                        Some(url) => Ok(UpdatePlan::Download { tag: tag.to_owned(), url: url.to_owned() }),
                        None => Err(UpdateError::MissingUrl { tag: tag.to_owned() }),
                    };
                }
            },
            None => {},
        }
        i = i + 1;
    }
    Err(UpdateError::NoAsset { tag: tag.to_owned(), target: target.to_owned(), asset: name })
}

/// The message of an [`UpdateError`].
pub open spec fn spec_update_error_text(e: PlanV) -> Seq<char> {
    match e {
        PlanV::MissingTag => "release metadata missing tag_name"@,
        PlanV::MissingAssets { .. } => "release metadata missing assets array"@,
        PlanV::NoAsset { target, asset, .. } => "no release asset found for target "@ + target + " (looked for "@
            + asset + ")"@,
        PlanV::MissingUrl { .. } => "asset is missing browser_download_url"@,
        _ => Seq::empty(),
    }
}

impl UpdateError {
    /// The tag of the latest release, when the metadata named it.
    pub fn tag(&self) -> (r: Option<&str>)
        ensures
            match plan_view(Err(*self)) {
                PlanV::MissingAssets { tag } => r matches Some(t) && t@ == tag,
                PlanV::NoAsset { tag, .. } => r matches Some(t) && t@ == tag,
                PlanV::MissingUrl { tag } => r matches Some(t) && t@ == tag,
                _ => r is None,
            },
    {
        match self {
            UpdateError::MissingTag => None,
            UpdateError::MissingAssets { tag } => Some(tag.as_str()),
            UpdateError::NoAsset { tag, .. } => Some(tag.as_str()),
            UpdateError::MissingUrl { tag } => Some(tag.as_str()),
        }
    }

    /// A human-readable description of the error.
    pub fn message(&self) -> (r: String)
        ensures
            r@ == spec_update_error_text(plan_view(Err(*self))),
    {
        match self {
            UpdateError::MissingTag => "release metadata missing tag_name".to_owned(),
            UpdateError::MissingAssets { .. } => "release metadata missing assets array".to_owned(),
            UpdateError::NoAsset { target, asset, .. } => {
                let mut s = "no release asset found for target ".to_owned();
                push_str(&mut s, target.as_str());
                push_str(&mut s, " (looked for ");
                push_str(&mut s, asset.as_str());
                push_str(&mut s, ")");
                s
            },
            UpdateError::MissingUrl { .. } => "asset is missing browser_download_url".to_owned(),
        }
    }
}


// ── The binary inside the archive ───────────────────────────────────────────

/// What `std::path::Path::file_name` gives for `p`, as text, under the path syntax
/// of the platform the crate is built for.
pub uninterp spec fn path_file_name(p: Seq<char>) -> Option<Seq<char>>;

/// Calls std's `Path::file_name` on `p`.  The contract names the result
/// `path_file_name(p@)` and claims nothing else of it; std documents it as the final
/// component of `p`, or `None` when `p` ends in `..` or is a root.
#[verifier::external_body]
fn file_name_of(p: &str) -> (r: Option<String>)
    ensures
        match r {
            Some(n) => path_file_name(p@) == Some(n@),
            None => path_file_name(p@) is None,
        },
{
    std::path::Path::new(p).file_name().map(|n| n.to_string_lossy().into_owned())
}

/// Whether the archive entry at `entry_path` is the executable `binary_name`: its
/// file name is exactly that name, in whatever directory it stands.
pub fn is_binary_entry(entry_path: &str, binary_name: &str) -> (r: bool)
    ensures
        r == (path_file_name(entry_path@) == Some(binary_name@)),
{
    match file_name_of(entry_path) {
        Some(n) => n == binary_name.to_owned(),
        None => false,
    }
}

/// The error when no entry of the archive is the executable.
pub fn binary_not_found_message(binary_name: &str) -> (r: String)
    ensures
        r@ == "binary "@ + binary_name@ + " not found in the downloaded archive; the release asset may be malformed"@,
{
    let mut s = "binary ".to_owned();
    push_str(&mut s, binary_name);
    push_str(&mut s, " not found in the downloaded archive; the release asset may be malformed");
    s
}

// ── PATH ─────────────────────────────────────────────────────────────────────

/// The shell start-up file that receives the `PATH` line.
#[derive(Debug, Clone, Copy, PartialEq, Eq, Structural)]
pub enum RcFile {
    Zshrc,
    BashProfile,
    Bashrc,
}

/// Picks the rc file: on macOS `.zshrc` (zsh is the default shell) unless only
/// `.bash_profile` exists; elsewhere `.bashrc` unless only `.zshrc` exists.
pub fn select_rc_file(macos: bool, zshrc_exists: bool, bash_profile_exists: bool, bashrc_exists: bool) -> (r: RcFile)
    ensures
        macos ==> r == (if zshrc_exists || !bash_profile_exists {
            RcFile::Zshrc
        } else {
            RcFile::BashProfile
        }),
        !macos ==> r == (if bashrc_exists || !zshrc_exists {
            RcFile::Bashrc
        } else {
            RcFile::Zshrc
        }),
{
    if macos {
        if zshrc_exists || !bash_profile_exists {
            RcFile::Zshrc
        } else {
            RcFile::BashProfile
        }
    } else {
        if bashrc_exists || !zshrc_exists {
            RcFile::Bashrc
        } else {
            RcFile::Zshrc
        }
    }
}

impl RcFile {
    /// The file's name in the home directory.
    pub fn file_name(&self) -> (r: &'static str)
        ensures
            *self == RcFile::Zshrc ==> r@ == ".zshrc"@,
            *self == RcFile::BashProfile ==> r@ == ".bash_profile"@,
            *self == RcFile::Bashrc ==> r@ == ".bashrc"@,
    {
        match self {
            RcFile::Zshrc => ".zshrc",
            RcFile::BashProfile => ".bash_profile",
            RcFile::Bashrc => ".bashrc",
        }
    }
}

/// Whether `dir` is one of the `:`-separated entries of the `PATH` value `path_var`.
pub fn dir_on_path(path_var: &str, dir: &str) -> (r: bool)
    ensures
        r == split_char(path_var@, ':').contains(dir@),
{
    let entries = split_on(path_var, ':');
    let d = dir.to_owned();
    let mut i: usize = 0;
    while i < entries.len()
        invariant
            i <= entries@.len(),
            d@ == dir@,
            entries@.len() == split_char(path_var@, ':').len(),
            forall|j: int| 0 <= j < entries@.len() ==> #[trigger] entries@[j]@ == split_char(path_var@, ':')[j],
            forall|j: int| 0 <= j < i ==> split_char(path_var@, ':')[j] != dir@,
        decreases entries.len() - i,
    {
        if entries[i] == d {
            assert(split_char(path_var@, ':')[i as int] == dir@);
            return true;
        }
        i = i + 1;
    }
    false
}

/// Whether the rc file's `contents` already mention `dir`.
pub fn rc_mentions_dir(contents: &str, dir: &str) -> (r: bool)
    ensures
        r == contains_seq(contents@, dir@),
{
    let c = chars_of(contents);
    let d = chars_of(dir);
    contains_chars(&c, &d)
}

/// The line appended to the rc file to put `dir` on `PATH`.
pub open spec fn spec_export_line(dir: Seq<char>) -> Seq<char> {
    "\nexport PATH=\"$PATH:"@ + dir + "\"\n"@
}

/// The line appended to the rc file to put `dir` on `PATH`.
pub fn export_line(dir: &str) -> (r: String)
    ensures
        r@ == spec_export_line(dir@),
{
    let mut s = "\nexport PATH=\"$PATH:".to_owned();
    push_str(&mut s, dir);
    push_str(&mut s, "\"\n");
    s
}

/// The report when `dir` is already on `PATH`.
pub fn already_on_path_message(dir: &str) -> (r: String)
    ensures
        r@ == dir@ + " is already on PATH."@,
{
    let mut s = dir.to_owned();
    push_str(&mut s, " is already on PATH.");
    s
}

/// The report after the `PATH` line for `dir` was appended to `rc_path`.
pub fn added_to_path_message(dir: &str, rc_path: &str) -> (r: String)
    ensures
        r@ == "Added "@ + dir@ + " to PATH in "@ + rc_path@ + ".\nRun `source "@ + rc_path@
            + "` or restart your terminal to apply."@,
{
    let mut s = "Added ".to_owned();
    push_str(&mut s, dir);
    push_str(&mut s, " to PATH in ");
    push_str(&mut s, rc_path);
    push_str(&mut s, ".\nRun `source ");
    push_str(&mut s, rc_path);
    push_str(&mut s, "` or restart your terminal to apply.");
    s
}

/// The PowerShell script that appends `dir` to the Windows user `PATH` unless the
/// user `PATH` already mentions it.
pub open spec fn spec_powershell_script(dir: Seq<char>) -> Seq<char> {
    "\n$p = [Environment]::GetEnvironmentVariable('PATH', 'User')\nif ($p -notlike '*"@ + dir
        + "*') {\n    [Environment]::SetEnvironmentVariable('PATH', \"$p;"@ + dir
        + "\", 'User')\n    Write-Host \"Added "@ + dir
        + " to User PATH. Restart your terminal to apply.\"\n} else {\n    Write-Host \""@ + dir
        + " is already on User PATH.\"\n}\n"@
}

/// The PowerShell script run on Windows to put `dir` on the user `PATH`.
pub fn powershell_path_script(dir: &str) -> (r: String)
    ensures
        r@ == spec_powershell_script(dir@),
{
    let mut s = "\n$p = [Environment]::GetEnvironmentVariable('PATH', 'User')\nif ($p -notlike '*".to_owned();
    push_str(&mut s, dir);
    push_str(&mut s, "*') {\n    [Environment]::SetEnvironmentVariable('PATH', \"$p;");
    push_str(&mut s, dir);
    push_str(&mut s, "\", 'User')\n    Write-Host \"Added ");
    push_str(&mut s, dir);
    push_str(&mut s, " to User PATH. Restart your terminal to apply.\"\n} else {\n    Write-Host \"");
    push_str(&mut s, dir);
    push_str(&mut s, " is already on User PATH.\"\n}\n");
    s
}

/// A text in which `p` occurs at `k` has an occurrence of `p` found from any `i <= k`.
proof fn lemma_find_reaches(s: Seq<char>, p: Seq<char>, i: int, k: int)
    requires
        0 <= i <= k,
        k + p.len() <= s.len(),
        s.subrange(k, k + p.len()) == p,
    ensures
        find_from(s, p, i) is Some,
    decreases k - i,
{
    if i == k {
        assert(s.skip(i).take(p.len() as int) =~= s.subrange(k, k + p.len()));
    } else if !has_prefix(s.skip(i), p) {
        lemma_find_reaches(s, p, i + 1, k);
    }
}

/// Putting `dir` on `PATH` is idempotent: once the line of [`export_line`] is
/// appended to an rc file, the file mentions `dir`, so a second run finds it
/// ([`rc_mentions_dir`]) and appends nothing.
pub proof fn law_export_line_mentions(contents: Seq<char>, dir: Seq<char>)
    ensures
        contains_seq(contents + spec_export_line(dir), dir),
{
    let pre = "\nexport PATH=\"$PATH:"@;
    let t = contents + spec_export_line(dir);
    let k: int = (contents.len() + pre.len()) as int;
    assert(t =~= contents + pre + dir + "\"\n"@);
    assert(t.subrange(k, k + dir.len()) =~= dir);
    lemma_find_reaches(t, dir, 0, k);
}

} // verus!
