use magicrate::stage_manifest::{
    manifest_room_files, manifest_text, paths_in_dir, room_scene_key, stage_paths_from_manifest,
    stage_paths_from_sources,
};
use magicrate::stage_paths::{
    collect_sorted_room_files, is_room_scene_file, room_coords_from_file_name, room_sort_key,
};

#[test]
fn detects_supported_room_extensions() {
    assert!(is_room_scene_file("Room_0_0.scn"));
    assert!(is_room_scene_file("Room_0_0.tscn"));
    assert!(!is_room_scene_file("Room_0_0.png"));
    assert!(!is_room_scene_file("something_else.tscn"));
}

#[test]
fn parses_room_coordinates() {
    assert_eq!(room_coords_from_file_name("Room_1_2.scn"), Some((1, 2)));
    assert_eq!(room_coords_from_file_name("Room_-3_4.tscn"), Some((-3, 4)));
}

#[test]
fn rejects_invalid_room_file_names() {
    assert_eq!(room_coords_from_file_name("Room_1.scn"), None);
    assert_eq!(room_coords_from_file_name("Room_1_2_3.scn"), None);
    assert_eq!(room_coords_from_file_name("Room_a_2.scn"), None);
    assert_eq!(room_coords_from_file_name("1_2.scn"), None);
}

#[test]
fn room_coordinates_edge_cases() {
    assert_eq!(room_coords_from_file_name("Room_+5_-0.scn"), Some((5, 0)));
    assert_eq!(room_coords_from_file_name("Room_2147483647_-2147483648.scn"), Some((i32::MAX, i32::MIN)));
    assert_eq!(room_coords_from_file_name("Room_2147483648_0.scn"), None);
    assert_eq!(room_coords_from_file_name("Room__1.scn"), None);
    assert_eq!(room_coords_from_file_name("Room_1_.tscn"), None);
    assert_eq!(room_coords_from_file_name("Room_-_1.scn"), None);
    assert_eq!(room_coords_from_file_name("Room_.scn"), None);
}

#[test]
fn room_sort_key_orders_by_y_then_x() {
    assert_eq!(room_sort_key("Room_2_7.scn"), (7, 2));
}

#[test]
fn room_sort_key_defaults_to_origin() {
    assert_eq!(room_sort_key("Room_x.scn"), (0, 0));
}

#[test]
fn collect_sorted_room_files_filters_and_sorts() {
    let files = vec![
        "Room_2_0.scn".to_string(),
        "ignore.txt".to_string(),
        "Room_0_1.tscn".to_string(),
        "Room_1_0.scn".to_string(),
    ];

    let sorted = collect_sorted_room_files(files);

    assert_eq!(
        sorted,
        vec![
            "Room_1_0.scn".to_string(),
            "Room_2_0.scn".to_string(),
            "Room_0_1.tscn".to_string(),
        ]
    );
}

#[test]
fn collect_sorted_room_files_breaks_ties_by_name() {
    let files = vec![
        "Room_0_0.tscn".to_string(),
        "Room_bad.scn".to_string(),
        "Room_0_0.scn".to_string(),
        "Room_-1_0.scn".to_string(),
    ];

    let sorted = collect_sorted_room_files(files);

    assert_eq!(
        sorted,
        vec![
            "Room_-1_0.scn".to_string(),
            "Room_0_0.scn".to_string(),
            "Room_0_0.tscn".to_string(),
            "Room_bad.scn".to_string(),
        ]
    );
}

#[test]
fn room_scene_key_accepts_scn_and_tscn() {
    assert_eq!(room_scene_key("Room_2_-1.scn"), Some((2, -1)));
    assert_eq!(room_scene_key("Room_-3_4.tscn"), Some((-3, 4)));
    assert_eq!(room_scene_key("Room_x_4.scn"), None);
    assert_eq!(room_scene_key("Level_0_0.scn"), None);
}

#[test]
fn room_scene_key_agrees_with_room_coordinates() {
    for name in [
        "Room_2_-1.scn",
        "Room_1_2_3.scn",
        "Room_.scn",
        "Room_scn",
        "Room_4_5.tscn",
        "Room_4_5.png",
        "room_4_5.scn",
    ] {
        assert_eq!(room_scene_key(name), room_coords_from_file_name(name));
    }
}

#[test]
fn manifest_lists_rooms_in_stage_order() {
    let files = vec![
        "Room_1_1.scn".to_string(),
        "notes.txt".to_string(),
        "Room_bad.scn".to_string(),
        "Room_3_0.tscn".to_string(),
        "Room_0_1.scn".to_string(),
    ];

    let rooms = manifest_room_files(files);

    assert_eq!(
        rooms,
        vec![
            "Room_3_0.tscn".to_string(),
            "Room_0_1.scn".to_string(),
            "Room_1_1.scn".to_string(),
        ]
    );
    assert_eq!(
        manifest_text(&rooms),
        "res://pipeline/ldtk/levels/Room_3_0.tscn\nres://pipeline/ldtk/levels/Room_0_1.scn\nres://pipeline/ldtk/levels/Room_1_1.scn"
    );
    assert_eq!(manifest_text(&Vec::new()), "");
}

#[test]
fn stage_paths_join_directory_and_name() {
    let names = vec!["Room_0_0.scn".to_string(), "Room_1_0.scn".to_string()];
    assert_eq!(
        paths_in_dir("res://levels", &names),
        vec![
            "res://levels/Room_0_0.scn".to_string(),
            "res://levels/Room_1_0.scn".to_string(),
        ]
    );
}

#[test]
fn manifest_is_read_back_as_stage_paths() {
    let raw = "# stages\r\n  res://a/Room_0_0.scn \n\nRoom_1_0.tscn\n   \n#skip\n";
    assert_eq!(
        stage_paths_from_manifest(raw, "res://levels"),
        Some(vec![
            "res://a/Room_0_0.scn".to_string(),
            "res://levels/Room_1_0.tscn".to_string(),
        ])
    );
    assert_eq!(stage_paths_from_manifest("# only\n\n  \n", "res://levels"), None);
    assert_eq!(stage_paths_from_manifest("", "res://levels"), None);
}

#[test]
fn written_manifest_reads_back_in_order() {
    let rooms = vec![
        "Room_3_0.tscn".to_string(),
        "Room_0_1.scn".to_string(),
        "Room_-1_1.scn".to_string(),
    ];
    let text = manifest_text(&rooms);
    let expected: Vec<String> = rooms
        .iter()
        .map(|name| format!("res://pipeline/ldtk/levels/{name}"))
        .collect();
    assert_eq!(stage_paths_from_manifest(&text, "res://elsewhere"), Some(expected));
}

#[test]
fn manifest_order_matches_directory_listing() {
    let files = vec![
        "Room_2_1.scn".to_string(),
        "Room_0_0.tscn".to_string(),
        "readme.md".to_string(),
        "Room_1_0.scn".to_string(),
        "Room_0_0.scn".to_string(),
    ];
    assert_eq!(
        manifest_room_files(files.clone()),
        collect_sorted_room_files(files)
    );
}

#[test]
fn room_names_read_back_as_their_coordinates() {
    for (x, y) in [(0, 0), (3, -2), (-17, 40), (i32::MIN, i32::MAX), (i32::MAX, i32::MIN)] {
        for ext in [".scn", ".tscn"] {
            let name = format!("Room_{}_{}{}", x, y, ext);
            assert!(is_room_scene_file(&name));
            assert_eq!(room_coords_from_file_name(&name), Some((x, y)));
        }
    }
}

#[test]
fn names_with_coordinates_have_room_shape() {
    for name in ["Room_+3_04.scn", "Room_-0_7.tscn", "Room_1_2.png", "Room_1.scn", "Rooms_1_2.scn"] {
        if let Some((x, y)) = room_coords_from_file_name(name) {
            assert!(is_room_scene_file(name));
            let stem = name
                .strip_prefix("Room_")
                .and_then(|rest| rest.strip_suffix(".tscn").or_else(|| rest.strip_suffix(".scn")))
                .unwrap();
            let (p, q) = stem.split_once('_').unwrap();
            assert_eq!(p.parse::<i32>(), Ok(x));
            assert_eq!(q.parse::<i32>(), Ok(y));
        }
    }
    assert_eq!(room_coords_from_file_name("Room_+3_04.scn"), Some((3, 4)));
    assert_eq!(room_coords_from_file_name("Room_1_2.png"), None);
}

#[test]
fn room_order_ignores_listing_order_and_is_stable() {
    let entries: Vec<String> = ["Room_1_0.scn", "notes.txt", "Room_0_1.tscn", "Room_0_0.scn", "Room_b.scn", "Room_a.scn"]
        .iter()
        .map(|s| s.to_string())
        .collect();
    let mut reversed = entries.clone();
    reversed.reverse();
    let sorted = collect_sorted_room_files(entries.clone());
    assert_eq!(collect_sorted_room_files(reversed), sorted);
    assert_eq!(collect_sorted_room_files(sorted.clone()), sorted);
}

#[test]
fn stage_sources_prefer_manifest_when_present() {
    let listing = vec!["Room_1_0.scn".to_string(), "Room_0_0.scn".to_string()];

    assert_eq!(
        stage_paths_from_sources(Some("# stages\nRoom_1_0.scn\nres://other/Room_9_9.scn\n"), listing.clone(), "res://levels"),
        vec!["res://levels/Room_1_0.scn".to_string(), "res://other/Room_9_9.scn".to_string()]
    );
    assert_eq!(
        stage_paths_from_sources(Some("# no stages yet\n"), listing.clone(), "res://levels"),
        Vec::<String>::new()
    );
    assert_eq!(
        stage_paths_from_sources(None, listing, "res://levels"),
        vec!["res://levels/Room_0_0.scn".to_string(), "res://levels/Room_1_0.scn".to_string()]
    );
}
