use std::path::Path;

use magicrate::export_config::{
    export_build_args, export_file_name, export_platform, godot_export_args, resolve_out_dir, use_default_user_agent, ExportBuild,
    ExportTarget,
};
use magicrate::export_preset::{
    default_export_options, default_export_preset, ensure_options, ensure_preset_key,
    find_preset_index, parse_preset_header, section_bounds, updated_export_preset,
    ExportPresetError,
};

fn owned(lines: &[&str]) -> Vec<String> {
    lines.iter().map(|line| line.to_string()).collect()
}

#[test]
fn export_build_release_skips_debug_by_default() {
    assert_eq!(
        export_build_args(ExportBuild::Release),
        vec![vec!["build", "--release", "--locked"]]
    );
    assert_eq!(
        export_build_args(ExportBuild::Both),
        vec![
            vec!["build", "--release", "--locked"],
            vec!["build", "--locked"]
        ]
    );
}

#[test]
fn export_output_path_keeps_explicit_exe_name() {
    assert_eq!(
        Path::new("export").join(export_file_name(
            ExportTarget::Windows,
            "magicrate",
            Some("game.exe".to_owned())
        )),
        Path::new("export").join("game.exe")
    );
}

#[test]
fn export_file_name_adds_extension() {
    assert_eq!(export_file_name(ExportTarget::Windows, "magicrate", None), "magicrate.exe");
    assert_eq!(export_file_name(ExportTarget::Windows, "game.exe", None), "game.exe");
    assert_eq!(
        export_file_name(ExportTarget::Macos, "magicrate", Some("x.exe".to_owned())),
        "magicrate.zip"
    );
}

#[test]
fn user_agent_default_is_replaced() {
    let mut agent = "gdxtask".to_string();
    use_default_user_agent(&mut agent);
    assert_eq!(agent, "magicrate-xtask");
    let mut custom = "my-agent".to_string();
    use_default_user_agent(&mut custom);
    assert_eq!(custom, "my-agent");
}

#[test]
fn platforms_and_options() {
    assert_eq!(export_platform(ExportTarget::Windows), "Windows Desktop");
    assert_eq!(export_platform(ExportTarget::Macos), "macOS");
    assert_eq!(
        default_export_options(ExportTarget::Windows),
        vec!["binary_format/architecture=\"x86_64\"", "binary_format/embed_pck=false"]
    );
    assert!(default_export_options(ExportTarget::Macos).is_empty());
}

#[test]
fn default_preset_text() {
    let text = default_export_preset(3, "Mac", ExportTarget::Macos);
    let expected = [
        "[preset.3]",
        "name=\"Mac\"",
        "platform=\"macOS\"",
        "runnable=true",
        "dedicated_server=false",
        "custom_features=\"\"",
        "export_filter=\"all_resources\"",
        "include_filter=\"pipeline/ldtk/stage_manifest.txt\"",
        "exclude_filter=\"\"",
        "export_path=\"\"",
        "encryption_include_filters=\"\"",
        "encryption_exclude_filters=\"\"",
        "encrypt_pck=false",
        "encrypt_directory=false",
        "",
        "[preset.3.options]",
    ]
    .join("\r\n");
    assert_eq!(text, expected);
    let windows = default_export_preset(12, "Windows Desktop", ExportTarget::Windows);
    assert!(windows.starts_with("[preset.12]\r\nname=\"Windows Desktop\"\r\nplatform=\"Windows Desktop\""));
    assert!(windows.ends_with("[preset.12.options]\r\nbinary_format/architecture=\"x86_64\"\r\nbinary_format/embed_pck=false"));
}

#[test]
fn preset_headers_parse_only_plain_numbers() {
    assert_eq!(parse_preset_header("[preset.0]", "preset."), Some(0));
    assert_eq!(parse_preset_header("[preset.17]", "preset."), Some(17));
    assert_eq!(parse_preset_header("[preset.1.options]", "preset."), None);
    assert_eq!(parse_preset_header("[preset.x]", "preset."), None);
    assert_eq!(parse_preset_header("preset.1", "preset."), None);
    assert_eq!(parse_preset_header("[preset.]", "preset."), None);
    assert_eq!(parse_preset_header("[other.1]", "preset."), None);
    assert_eq!(parse_preset_header("[preset.+4]", "preset."), Some(4));
    assert_eq!(parse_preset_header("[preset.-4]", "preset."), None);
}

#[test]
fn preset_header_of_new_preset_reads_back() {
    let text = default_export_preset(42, "Any", ExportTarget::Windows);
    let first = text.lines().next().unwrap();
    assert_eq!(parse_preset_header(first, "preset."), Some(42));
}

#[test]
fn finds_named_preset_and_largest_index() {
    let lines = owned(&[
        "[preset.0]",
        "name=\"Windows Desktop\"",
        "[preset.0.options]",
        "name=\"Other\"",
        "[preset.4]",
        "name=\"Mac\"",
        "[preset.2]",
    ]);
    assert_eq!(find_preset_index(&lines, "Mac"), (Some(4), Some(4)));
    assert_eq!(find_preset_index(&lines, "Other"), (Some(0), Some(4)));
    assert_eq!(find_preset_index(&lines, "Linux"), (None, Some(4)));
    assert_eq!(find_preset_index(&owned(&["name=\"Mac\""]), "Mac"), (None, None));
}

#[test]
fn section_bounds_span_to_next_header() {
    let lines = owned(&["[a]", "x=1", "[b]", "y=2", "z=3"]);
    assert_eq!(section_bounds(&lines, "[a]"), Some((0, 2)));
    assert_eq!(section_bounds(&lines, "[b]"), Some((2, 5)));
    assert_eq!(section_bounds(&lines, "[c]"), None);
}

#[test]
fn ensure_preset_key_replaces_or_inserts() {
    let mut lines = owned(&["[preset.0]", "name=\"W\"", "include_filter=\"old\"", "[preset.0.options]"]);
    ensure_preset_key(&mut lines, 0, "include_filter", "new");
    assert_eq!(
        lines,
        owned(&["[preset.0]", "name=\"W\"", "include_filter=\"new\"", "[preset.0.options]"])
    );

    let mut lines = owned(&["[preset.1]", "name=\"W\"", "[preset.1.options]"]);
    ensure_preset_key(&mut lines, 1, "include_filter", "f");
    assert_eq!(
        lines,
        owned(&["[preset.1]", "name=\"W\"", "include_filter=\"f\"", "[preset.1.options]"])
    );

    let mut lines = owned(&["[preset.1]"]);
    ensure_preset_key(&mut lines, 2, "k", "v");
    assert_eq!(lines, owned(&["[preset.1]"]));
}

#[test]
fn ensure_options_adds_missing_defaults() {
    let mut lines = owned(&[
        "[preset.0]",
        "[preset.0.options]",
        "binary_format/embed_pck=true",
        "[preset.1]",
    ]);
    ensure_options(&mut lines, 0, ExportTarget::Windows);
    assert_eq!(
        lines,
        owned(&[
            "[preset.0]",
            "[preset.0.options]",
            "binary_format/embed_pck=true",
            "binary_format/architecture=\"x86_64\"",
            "[preset.1]",
        ])
    );

    let mut lines = owned(&["[preset.0]", "name=\"W\""]);
    ensure_options(&mut lines, 0, ExportTarget::Windows);
    assert_eq!(
        lines,
        owned(&[
            "[preset.0]",
            "name=\"W\"",
            "",
            "[preset.0.options]",
            "binary_format/architecture=\"x86_64\"",
            "binary_format/embed_pck=false",
        ])
    );

    let mut lines = owned(&["[preset.0]"]);
    ensure_options(&mut lines, 0, ExportTarget::Macos);
    assert_eq!(lines, owned(&["[preset.0]"]));
}

#[test]
fn updated_export_preset_creates_or_rejects() {
    let fresh = updated_export_preset(None, "Windows Desktop", ExportTarget::Windows, false).unwrap();
    assert_eq!(fresh, default_export_preset(0, "Windows Desktop", ExportTarget::Windows));

    let existing = "[preset.0]\nname=\"Other\"\n";
    assert_eq!(
        updated_export_preset(Some(existing), "Windows Desktop", ExportTarget::Windows, false),
        Err(ExportPresetError::PresetNotFound)
    );

    let forced =
        updated_export_preset(Some(existing), "Mac", ExportTarget::Macos, true).unwrap();
    let expected = [
        "[preset.0]",
        "name=\"Other\"",
        "",
        "[preset.1]",
        "name=\"Mac\"",
        "platform=\"macOS\"",
        "runnable=true",
        "dedicated_server=false",
        "custom_features=\"\"",
        "export_filter=\"all_resources\"",
        "include_filter=\"pipeline/ldtk/stage_manifest.txt\"",
        "exclude_filter=\"\"",
        "export_path=\"\"",
        "encryption_include_filters=\"\"",
        "encryption_exclude_filters=\"\"",
        "encrypt_pck=false",
        "encrypt_directory=false",
        "",
        "[preset.1.options]",
    ]
    .join("\r\n");
    assert_eq!(forced, expected);
}

#[test]
fn updated_export_preset_fixes_existing_preset() {
    let existing = "[preset.0]\r\nname=\"Windows Desktop\"\r\ninclude_filter=\"\"\r\n\r\n[preset.0.options]\r\nbinary_format/embed_pck=true\r\n";
    let updated =
        updated_export_preset(Some(existing), "Windows Desktop", ExportTarget::Windows, false)
            .unwrap();
    assert_eq!(
        updated,
        [
            "[preset.0]",
            "name=\"Windows Desktop\"",
            "include_filter=\"pipeline/ldtk/stage_manifest.txt\"",
            "",
            "[preset.0.options]",
            "binary_format/embed_pck=true",
            "binary_format/architecture=\"x86_64\"",
        ]
        .join("\r\n")
    );
}

#[test]
fn created_preset_is_found_by_name() {
    for target in [ExportTarget::Windows, ExportTarget::Macos] {
        let text = default_export_preset(5, "Mac Export", target);
        let lines = magicrate::lines::split_lines(&text);
        assert_eq!(find_preset_index(&lines, "Mac Export"), (Some(5), Some(5)));
    }
}

#[test]
fn updated_preset_is_found_when_read_back() {
    let cases: [(Option<&str>, bool); 4] = [
        (None, false),
        (Some("[preset.0]\nname=\"Other\"\n"), true),
        (Some("[preset.3]\r\nname=\"Linux\"\r\n\r\n[preset.3.options]\r\n"), true),
        (Some("[preset.0]\nname=\"Linux\"\nplatform=\"Linux\"\n"), false),
    ];
    for (existing, force) in cases {
        let updated = updated_export_preset(existing, "Linux", ExportTarget::Windows, force).unwrap();
        let lines = magicrate::lines::split_lines(&updated);
        assert!(find_preset_index(&lines, "Linux").0.is_some());
    }
}

#[test]
fn godot_export_runs_headless_release_export() {
    assert_eq!(
        godot_export_args(false, "C:/game/godot", "Windows Desktop", "C:/out/Game.exe"),
        vec![
            "--headless",
            "--recovery-mode",
            "--path",
            "C:/game/godot",
            "--export-release",
            "Windows Desktop",
            "C:/out/Game.exe",
        ]
    );
    assert_eq!(
        godot_export_args(true, "godot", "macOS", "out/Game.zip"),
        vec!["--headless", "--path", "godot", "--export-release", "macOS", "out/Game.zip"]
    );
}

#[test]
fn out_dir_is_joined_to_the_root_unless_absolute() {
    assert_eq!(resolve_out_dir("/repo", "dist", false, "/"), "/repo/dist");
    assert_eq!(resolve_out_dir("/repo/", "dist", false, "/"), "/repo/dist");
    assert_eq!(resolve_out_dir("", "dist", false, "/"), "dist");
    assert_eq!(resolve_out_dir("/repo", "/tmp/out", true, "/"), "/tmp/out");
    assert_eq!(resolve_out_dir("C:\\repo", "dist", false, "\\"), "C:\\repo\\dist");
    for (root, out) in [("/repo", "dist"), ("/repo/", "build/out"), ("", "x")] {
        let joined = Path::new(root).join(out);
        assert_eq!(resolve_out_dir(root, out, false, "/"), joined.to_string_lossy());
    }
}
