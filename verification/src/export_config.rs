//! Settings of the release export: the cargo builds it runs, the Godot
//! command line, the output directory and the name of the exported file,
//! and the user agent of the update tasks.
use vstd::prelude::*;
use crate::lines::views;
use crate::text::{ends_with, text_eq};

verus! {

/// The platform that an export targets.
#[derive(Debug, Clone, Copy, PartialEq, Eq, Structural)]
pub enum ExportTarget {
    Windows,
    Macos,
}

/// Which builds of the extension library an export makes.
#[derive(Debug, Clone, Copy, PartialEq, Eq, Structural)]
pub enum ExportBuild {
    Release,
    Both,
}

/// The user agent that the update tasks send unless told otherwise.
pub const DEFAULT_USER_AGENT: &'static str = "magicrate-xtask";

/// The argument lists of the cargo runs of an export: always the locked
/// release build, and the locked debug build too for `Both`.
pub open spec fn build_args_spec(build: ExportBuild) -> Seq<Seq<Seq<char>>> {
    let release = seq!["build"@, "--release"@, "--locked"@];
    match build {
        ExportBuild::Release => seq![release],
        ExportBuild::Both => seq![release, seq!["build"@, "--locked"@]],
    }
}

/// The argument lists, each as the views of its arguments.
pub open spec fn arg_lists_view(args: Seq<Vec<String>>) -> Seq<Seq<Seq<char>>> {
    args.map_values(|list: Vec<String>| views(list@))
}

/// The cargo argument lists that an export runs, in order.
pub fn export_build_args(build: ExportBuild) -> (args: Vec<Vec<String>>)
    ensures
        arg_lists_view(args@) == build_args_spec(build),
{
    let mut release: Vec<String> = Vec::new();
    release.push(String::from_str("build"));
    release.push(String::from_str("--release"));
    release.push(String::from_str("--locked"));
    assert(views(release@) =~= seq!["build"@, "--release"@, "--locked"@]);
    let mut args: Vec<Vec<String>> = Vec::new();
    args.push(release);
    if build == ExportBuild::Both {
        let mut debug: Vec<String> = Vec::new();
        debug.push(String::from_str("build"));
        debug.push(String::from_str("--locked"));
        assert(views(debug@) =~= seq!["build"@, "--locked"@]);
        args.push(debug);
    }
    assert(arg_lists_view(args@) =~= build_args_spec(build));
    args
}

/// Replaces the generic user agent `gdxtask` by this project's own.
pub fn use_default_user_agent(user_agent: &mut String)
    ensures
        final(user_agent)@ == if old(user_agent)@ == "gdxtask"@ {
            DEFAULT_USER_AGENT@
        } else {
            old(user_agent)@
        },
{
    if text_eq(user_agent.as_str(), "gdxtask") {
        *user_agent = String::from_str(DEFAULT_USER_AGENT);
    }
}

/// The Godot platform name of an export target.
pub open spec fn platform_name(target: ExportTarget) -> Seq<char> {
    match target {
        ExportTarget::Windows => "Windows Desktop"@,
        ExportTarget::Macos => "macOS"@,
    }
}

pub fn export_platform(target: ExportTarget) -> (platform: &'static str)
    ensures
        platform@ == platform_name(target),
{
    match target {
        ExportTarget::Windows => "Windows Desktop",
        ExportTarget::Macos => "macOS",
    }
}

/// The file an export writes: on Windows the explicit executable name if
/// given, else the product name with `.exe` added unless it has it; on macOS
/// the product name with `.zip`.
pub open spec fn export_file_name_spec(
    target: ExportTarget,
    product_name: Seq<char>,
    exe_name: Option<Seq<char>>,
) -> Seq<char> {
    match target {
        ExportTarget::Windows => match exe_name {
            Some(name) => name,
            None => if crate::text::has_suffix(product_name, ".exe"@) {
                product_name
            } else {
                product_name + ".exe"@
            },
        },
        ExportTarget::Macos => product_name + ".zip"@,
    }
}

/// The name of the file that an export writes into the output directory.
pub fn export_file_name(target: ExportTarget, product_name: &str, exe_name: Option<String>) -> (name: String)
    ensures
        name@ == export_file_name_spec(
            target,
            product_name@,
            match exe_name {
                Some(n) => Some(n@),
                None => None,
            },
        ),
{
    match target {
        ExportTarget::Windows => match exe_name {
            Some(name) => name,
            None => {
                if ends_with(product_name, ".exe") {
                    String::from_str(product_name)
                } else {
                    let mut name = String::from_str(product_name);
                    name.append(".exe");
                    name
                }
            },
        },
        ExportTarget::Macos => {
            let mut name = String::from_str(product_name);
            name.append(".zip");
            name
        },
    }
}


/// The arguments of the headless Godot export: recovery mode unless turned
/// off, the project directory, the release export of `preset_name` to
/// `output`.
pub open spec fn godot_export_args_spec(
    no_recovery_mode: bool,
    project_dir: Seq<char>,
    preset_name: Seq<char>,
    output: Seq<char>,
) -> Seq<Seq<char>> {
    seq!["--headless"@] + (if no_recovery_mode {
        Seq::empty()
    } else {
        seq!["--recovery-mode"@]
    }) + seq!["--path"@, project_dir, "--export-release"@, preset_name, output]
}

/// The command-line arguments with which the export runs Godot.
pub fn godot_export_args(no_recovery_mode: bool, project_dir: &str, preset_name: &str, output: &str) -> (args: Vec<String>)
    ensures
        views(args@) == godot_export_args_spec(no_recovery_mode, project_dir@, preset_name@, output@),
{
    let mut args: Vec<String> = Vec::new();
    args.push(String::from_str("--headless"));
    if !no_recovery_mode {
        args.push(String::from_str("--recovery-mode"));
    }
    args.push(String::from_str("--path"));
    args.push(String::from_str(project_dir));
    args.push(String::from_str("--export-release"));
    args.push(String::from_str(preset_name));
    args.push(String::from_str(output));
    assert(views(args@) =~= godot_export_args_spec(no_recovery_mode, project_dir@, preset_name@, output@));
    args
}


/// The output directory of an export, as `Path::join` gives it for paths
/// without a Windows drive prefix: an absolute `out_dir` as it is, else
/// `out_dir` under `root`, with `separator` between them unless `root` is
/// empty or already ends in a separator.
pub open spec fn resolved_out_dir(
    root: Seq<char>,
    out_dir: Seq<char>,
    out_dir_is_absolute: bool,
    separator: Seq<char>,
) -> Seq<char> {
    if out_dir_is_absolute {
        out_dir
    } else if root.len() == 0 || crate::text::has_suffix(root, separator) || crate::text::has_suffix(
        root,
        "/"@,
    ) {
        root + out_dir
    } else {
        root + separator + out_dir
    }
}

/// The directory an export writes to: `out_dir`, relative to the project
/// root unless it is absolute.
pub fn resolve_out_dir(root: &str, out_dir: &str, out_dir_is_absolute: bool, separator: &str) -> (dir: String)
    ensures
        dir@ == resolved_out_dir(root@, out_dir@, out_dir_is_absolute, separator@),
{
    if out_dir_is_absolute {
        return String::from_str(out_dir);
    }
    let mut dir = String::from_str(root);
    if !(root.unicode_len() == 0 || ends_with(root, separator) || ends_with(root, "/")) {
        dir.append(separator);
    }
    dir.append(out_dir);
    dir
}

} // verus!
