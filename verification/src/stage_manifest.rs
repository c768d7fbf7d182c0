//! The stage list: the manifest file that the export writes
//! (`res://pipeline/ldtk/levels/<room file>`, one per line, in stage order),
//! how the game reads it back, and the stage paths found in the levels
//! directory when there is no manifest.
use vstd::prelude::*;
use crate::lines::{
    is_white_space, join, join_texts, lemma_filter_keeps_all, lemma_text_lines_of_join,
    lemma_trim_unchanged, split_lines, strip_cr, text_lines, trim, trim_text, views,
};
use crate::stage_paths::{
    collect_sorted_room_files, coords_from_stem, in_stage_order, insert_in_stage_order, is_room_file_name,
    law_stage_order_unique, lemma_coordinates_imply_room_file, lemma_multiset_map,
    lemma_parse_rejects, room_file_le, spec_is_room_scene_file, spec_room_coords, stem_coords,
    views_in_stage_order,
};
use crate::text::{find_char, lemma_find_char};
use crate::text::{has_prefix, has_suffix, starts_with, strip_prefix, strip_suffix};

verus! {

broadcast use {vstd::seq_lib::group_to_multiset_ensures, vstd::multiset::group_multiset_axioms};

/// The directory of the room scenes, as the manifest names it.
pub const MANIFEST_LEVELS_DIR: &'static str = "res://pipeline/ldtk/levels/";

/// The coordinates in a room scene name, stripping the extension first and
/// then `Room_`, and splitting at the first underscore.
pub open spec fn spec_room_scene_key(name: Seq<char>) -> Option<(i32, i32)> {
    let stem = if has_suffix(name, ".scn"@) {
        Some(name.subrange(0, name.len() - 4))
    } else if has_suffix(name, ".tscn"@) {
        Some(name.subrange(0, name.len() - 5))
    } else {
        None
    };
    match stem {
        Some(stem) => if has_prefix(stem, "Room_"@) {
            stem_coords(stem.skip(5))
        } else {
            None
        },
        None => None,
    }
}

/// The room coordinates `(x, y)` in a file name `Room_<x>_<y>.scn` or
/// `Room_<x>_<y>.tscn`.
pub fn room_scene_key(name: &str) -> (key: Option<(i32, i32)>)
    ensures
        key == spec_room_scene_key(name@),
{
    proof {
        reveal_strlit("Room_");
        reveal_strlit(".scn");
        reveal_strlit(".tscn");
    }
    let stem = match strip_suffix(name, ".scn") {
        Some(stem) => stem,
        None => match strip_suffix(name, ".tscn") {
            Some(stem) => stem,
            None => {
                return None;
            },
        },
    };
    let rest = match strip_prefix(stem, "Room_") {
        Some(rest) => rest,
        None => {
            return None;
        },
    };
    coords_from_stem(rest)
}

/// The two ways of reading coordinates from a room file name agree: the
/// manifest orders rooms exactly as the directory listing does.
pub proof fn law_room_scene_key_matches_coords(name: Seq<char>)
    ensures
        spec_room_scene_key(name) == spec_room_coords(name),
{
    reveal_strlit("Room_");
    reveal_strlit(".scn");
    reveal_strlit(".tscn");
    let n = name.len() as int;
    let prefixed = has_prefix(name, "Room_"@);
    if has_suffix(name, ".scn"@) {
        let stem = name.subrange(0, n - 4);
        if n >= 9 {
            assert(stem.subrange(0, 5) =~= name.subrange(0, 5));
            let trimmed = name.skip(5);
            assert(trimmed.subrange(trimmed.len() - 4, trimmed.len() as int) =~= name.subrange(
                n - 4,
                n,
            ));
            assert(trimmed.subrange(0, trimmed.len() - 4) =~= stem.skip(5));
        } else if prefixed {
            assert(name.subrange(0, 5)[n - 4] == name[n - 4]);
            assert(name.subrange(n - 4, n)[0] == name[n - 4]);
            assert(false);
        }
    } else if has_suffix(name, ".tscn"@) {
        let stem = name.subrange(0, n - 5);
        let trimmed = name.skip(5);
        if n >= 9 {
            assert(trimmed.subrange(trimmed.len() - 4, trimmed.len() as int) =~= name.subrange(
                n - 4,
                n,
            ));
            assert(name.subrange(n - 5, n)[1] == name[n - 4]);
            assert(name[n - 4] == 't');
        }
        if n >= 10 {
            assert(stem.subrange(0, 5) =~= name.subrange(0, 5));
            assert(trimmed.subrange(trimmed.len() - 5, trimmed.len() as int) =~= name.subrange(
                n - 5,
                n,
            ));
            assert(trimmed.subrange(0, trimmed.len() - 5) =~= stem.skip(5));
        } else if prefixed {
            assert(name.subrange(0, 5)[n - 5] == name[n - 5]);
            assert(name.subrange(n - 5, n)[0] == name[n - 5]);
            assert(false);
        }
    } else if prefixed {
        let trimmed = name.skip(5);
        if trimmed.len() >= 4 {
            assert(trimmed.subrange(trimmed.len() - 4, trimmed.len() as int) =~= name.subrange(
                n - 4,
                n,
            ));
        }
        if trimmed.len() >= 5 {
            assert(trimmed.subrange(trimmed.len() - 5, trimmed.len() as int) =~= name.subrange(
                n - 5,
                n,
            ));
        }
    }
}

/// The names that carry room coordinates.
pub open spec fn has_room_key(name: String) -> bool {
    spec_room_scene_key(name@) is Some
}

/// The room scene files that go into the manifest, in stage order (by `y`,
/// then `x`, then name).
pub fn manifest_room_files(file_names: Vec<String>) -> (rooms: Vec<String>)
    ensures
        rooms@.to_multiset() == file_names@.filter(|name: String| has_room_key(name)).to_multiset(),
        in_stage_order(rooms@),
{
    let ghost pred = |name: String| has_room_key(name);
    let mut rest = file_names;
    let mut sorted: Vec<String> = Vec::new();
    while rest.len() > 0
        invariant
            pred == (|name: String| has_room_key(name)),
            in_stage_order(sorted@),
            sorted@.to_multiset().add(rest@.filter(pred).to_multiset()) == file_names@.filter(
                pred,
            ).to_multiset(),
        decreases rest@.len(),
    {
        let ghost old_rest = rest@;
        let name = rest.pop().unwrap();
        proof {
            assert(old_rest =~= rest@.push(name));
            old_rest.drop_last().lemma_filter_push(name, pred);
            assert(old_rest.drop_last() =~= rest@);
        }
        let ghost kept = rest@.filter(pred);
        let ghost before = sorted@;
        if room_scene_key(name.as_str()).is_some() {
            assert(pred(name));
            assert(old_rest.filter(pred) == kept.push(name));
            insert_in_stage_order(&mut sorted, name);
            assert(sorted@.to_multiset().add(kept.to_multiset()) =~= before.to_multiset().add(
                old_rest.filter(pred).to_multiset(),
            ));
        } else {
            assert(!pred(name));
            assert(old_rest.filter(pred) == kept);
        }
    }
    assert(rest@.filter(pred) =~= Seq::<String>::empty());
    sorted
}

/// The manifest line of a room file.
pub open spec fn manifest_line(name: Seq<char>) -> Seq<char> {
    MANIFEST_LEVELS_DIR@ + name
}

/// The manifest: one line per room file, joined by `\n`.
pub fn manifest_text(rooms: &Vec<String>) -> (text: String)
    ensures
        text@ == join(views(rooms@).map_values(|name: Seq<char>| manifest_line(name)), "\n"@),
{
    let mut lines: Vec<String> = Vec::new();
    let n = rooms.len();
    let mut i: usize = 0;
    while i < n
        invariant
            n == rooms@.len(),
            i <= n,
            views(lines@) == views(rooms@).take(i as int).map_values(
                |name: Seq<char>| manifest_line(name),
            ),
        decreases n - i,
    {
        let mut line = String::from_str(MANIFEST_LEVELS_DIR);
        line.append(rooms[i].as_str());
        let ghost before = views(lines@);
        lines.push(line);
        assert(views(lines@) =~= before.push(manifest_line(rooms@[i as int]@)));
        assert(views(rooms@).take(i + 1) =~= views(rooms@).take(i as int).push(rooms@[i as int]@));
        assert(views(lines@) =~= views(rooms@).take(i + 1).map_values(
            |name: Seq<char>| manifest_line(name),
        ));
        i = i + 1;
    }
    assert(views(rooms@).take(n as int) =~= views(rooms@));
    join_texts(&lines, "\n")
}

/// `<dir>/<name>`.
pub open spec fn path_in_dir(dir: Seq<char>, name: Seq<char>) -> Seq<char> {
    dir + "/"@ + name
}

/// The paths `<dir>/<name>` of the given names, in order.
pub fn paths_in_dir(dir: &str, names: &Vec<String>) -> (paths: Vec<String>)
    ensures
        views(paths@) == views(names@).map_values(|name: Seq<char>| path_in_dir(dir@, name)),
{
    let mut paths: Vec<String> = Vec::new();
    let n = names.len();
    let mut i: usize = 0;
    while i < n
        invariant
            n == names@.len(),
            i <= n,
            views(paths@) == views(names@).take(i as int).map_values(
                |name: Seq<char>| path_in_dir(dir@, name),
            ),
        decreases n - i,
    {
        let mut path = String::from_str(dir);
        path.append("/");
        path.append(names[i].as_str());
        let ghost before = views(paths@);
        paths.push(path);
        assert(views(paths@) =~= before.push(path_in_dir(dir@, names@[i as int]@)));
        assert(views(names@).take(i + 1) =~= views(names@).take(i as int).push(names@[i as int]@));
        assert(views(paths@) =~= views(names@).take(i + 1).map_values(
            |name: Seq<char>| path_in_dir(dir@, name),
        ));
        i = i + 1;
    }
    assert(views(names@).take(n as int) =~= views(names@));
    paths
}

/// A manifest line that names a stage: not empty and no `#` comment.
pub open spec fn is_stage_entry(line: Seq<char>) -> bool {
    line.len() > 0 && !has_prefix(line, "#"@)
}

/// The stage path that a manifest entry stands for: `res://` paths as they
/// are, others inside the stage directory.
pub open spec fn entry_path(stage_dir: Seq<char>, entry: Seq<char>) -> Seq<char> {
    if has_prefix(entry, "res://"@) {
        entry
    } else {
        path_in_dir(stage_dir, entry)
    }
}

/// The stage paths that a manifest lists: its lines trimmed, empty lines and
/// comments skipped.
pub open spec fn manifest_entries(raw: Seq<char>, stage_dir: Seq<char>) -> Seq<Seq<char>> {
    text_lines(raw).map_values(|line: Seq<char>| trim(line)).filter(
        |line: Seq<char>| is_stage_entry(line),
    ).map_values(|entry: Seq<char>| entry_path(stage_dir, entry))
}

/// The stage paths listed in a manifest, `None` when it lists none.
pub fn stage_paths_from_manifest(raw: &str, stage_dir: &str) -> (paths: Option<Vec<String>>)
    ensures
        match paths {
            Some(p) => views(p@) == manifest_entries(raw@, stage_dir@) && p@.len() > 0,
            None => manifest_entries(raw@, stage_dir@).len() == 0,
        },
{
    let lines = split_lines(raw);
    let ghost trimmed = text_lines(raw@).map_values(|line: Seq<char>| trim(line));
    let ghost keep = |line: Seq<char>| is_stage_entry(line);
    let ghost to_path = |entry: Seq<char>| entry_path(stage_dir@, entry);
    let mut paths: Vec<String> = Vec::new();
    let n = lines.len();
    let mut i: usize = 0;
    while i < n
        invariant
            n == lines@.len(),
            i <= n,
            views(lines@) == text_lines(raw@),
            trimmed == text_lines(raw@).map_values(|line: Seq<char>| trim(line)),
            keep == (|line: Seq<char>| is_stage_entry(line)),
            to_path == (|entry: Seq<char>| entry_path(stage_dir@, entry)),
            views(paths@) == trimmed.take(i as int).filter(keep).map_values(to_path),
        decreases n - i,
    {
        let line = trim_text(lines[i].as_str());
        assert(trimmed[i as int] == line@);
        assert(trimmed.take(i + 1) =~= trimmed.take(i as int).push(line@));
        proof {
            trimmed.take(i as int).lemma_filter_push(line@, keep);
        }
        let ghost before = views(paths@);
        if line.unicode_len() > 0 && !starts_with(line.as_str(), "#") {
            assert(keep(line@));
            let path = if starts_with(line.as_str(), "res://") {
                line
            } else {
                let mut p = String::from_str(stage_dir);
                p.append("/");
                p.append(line.as_str());
                p
            };
            paths.push(path);
            assert(views(paths@) =~= before.push(to_path(line@)));
            assert(trimmed.take(i as int).filter(keep).push(line@).map_values(to_path)
                =~= trimmed.take(i as int).filter(keep).map_values(to_path).push(to_path(line@)));
        } else {
            assert(!keep(line@));
        }
        i = i + 1;
    }
    assert(trimmed.take(n as int) =~= trimmed);
    if paths.len() == 0 {
        None
    } else {
        Some(paths)
    }
}

/// The facts about a room scene name that the manifest relies on: it has no
/// line break, and it ends in the `n` of its extension.
proof fn lemma_room_name_shape(name: Seq<char>)
    requires
        spec_room_scene_key(name) is Some,
    ensures
        !name.contains('\n'),
        name.len() > 0,
        name.last() == 'n',
{
    reveal_strlit("Room_");
    reveal_strlit(".scn");
    reveal_strlit(".tscn");
    let n = name.len() as int;
    let ext: int = if has_suffix(name, ".scn"@) {
        4
    } else {
        5
    };
    assert(name.subrange(n - ext, n)[ext - 1] == name.last());
    let stem = name.subrange(0, n - ext);
    let core = stem.skip(5);
    lemma_find_char(core, '_');
    let k = find_char(core, '_')->0;
    let x = core.subrange(0, k);
    let y = core.skip(k + 1);
    if x.contains('\n') {
        lemma_parse_rejects(x, '\n');
    }
    if y.contains('\n') {
        lemma_parse_rejects(y, '\n');
    }
    if name.contains('\n') {
        let j = choose|j: int| 0 <= j < n && name[j] == '\n';
        if j < 5 {
            assert(stem.subrange(0, 5)[j] == name[j]);
        } else if j < n - ext {
            if j - 5 < k {
                assert(x[j - 5] == name[j]);
            } else if j - 5 == k {
                assert(core[k] == name[j]);
            } else {
                assert(y[j - 5 - k - 1] == name[j]);
            }
        } else {
            assert(name.subrange(n - ext, n)[j - (n - ext)] == name[j]);
        }
    }
}

/// Reading back the manifest written for some room files gives the stage
/// paths of those rooms, in the same order.
pub proof fn law_manifest_read_back(rooms: Seq<Seq<char>>, stage_dir: Seq<char>)
    requires
        forall|i: int| 0 <= i < rooms.len() ==> (#[trigger] spec_room_scene_key(rooms[i])) is Some,
    ensures
        manifest_entries(
            join(rooms.map_values(|name: Seq<char>| manifest_line(name)), "\n"@),
            stage_dir,
        ) == rooms.map_values(|name: Seq<char>| manifest_line(name)),
{
    reveal_strlit("res://pipeline/ldtk/levels/");
    reveal_strlit("res://");
    reveal_strlit("#");
    let lines = rooms.map_values(|name: Seq<char>| manifest_line(name));
    let dir = MANIFEST_LEVELS_DIR@;
    assert(!dir.contains('\n'));
    assert forall|i: int| 0 <= i < lines.len() implies {
        &&& !(#[trigger] lines[i]).contains('\n')
        &&& lines[i].len() > 0
        &&& lines[i].last() == 'n'
        &&& lines[i][0] == 'r'
        &&& has_prefix(lines[i], "res://"@)
    } by {
        lemma_room_name_shape(rooms[i]);
        let line = lines[i];
        assert(line == dir + rooms[i]);
        if line.contains('\n') {
            let j = choose|j: int| 0 <= j < line.len() && line[j] == '\n';
            if j < dir.len() {
                assert(dir[j] == line[j]);
            } else {
                assert(rooms[i][j - dir.len()] == line[j]);
            }
        }
        assert(line.subrange(0, 6) =~= "res://"@);
    }
    lemma_text_lines_of_join(lines);
    let trimmed = lines.map_values(|line: Seq<char>| trim(line));
    assert forall|i: int| 0 <= i < lines.len() implies trimmed[i] == lines[i] by {
        lemma_trim_unchanged(lines[i]);
    }
    assert(trimmed =~= lines);
    assert forall|i: int| 0 <= i < lines.len() implies is_stage_entry(#[trigger] lines[i]) by {
        assert(lines[i].subrange(0, 1)[0] == lines[i][0]);
    }
    lemma_filter_keeps_all(lines, |line: Seq<char>| is_stage_entry(line));
    let paths = lines.map_values(|entry: Seq<char>| entry_path(stage_dir, entry));
    assert(paths =~= lines);
}

/// Filters that agree on every element select the same elements.
proof fn lemma_filter_congruent<A>(s: Seq<A>, p: spec_fn(A) -> bool, q: spec_fn(A) -> bool)
    requires
        forall|i: int| 0 <= i < s.len() ==> p(#[trigger] s[i]) == q(s[i]),
    ensures
        s.filter(p) == s.filter(q),
    decreases s.len(),
{
    reveal(Seq::filter);
    if s.len() > 0 {
        assert forall|i: int| 0 <= i < s.drop_last().len() implies p(#[trigger] s.drop_last()[i])
            == q(s.drop_last()[i]) by {
            assert(s.drop_last()[i] == s[i]);
        }
        lemma_filter_congruent(s.drop_last(), p, q);
        assert(p(s[s.len() - 1]) == q(s[s.len() - 1]));
    }
}

/// When every room scene file of a directory names its coordinates, the
/// manifest lists the rooms in the same order as the sorted directory
/// listing that the game falls back on without a manifest.
pub proof fn law_manifest_order_matches_listing(
    entries: Seq<String>,
    listed: Seq<String>,
    manifest: Seq<String>,
)
    requires
        forall|i: int| 0 <= i < entries.len() && is_room_file_name(#[trigger] entries[i]) ==> has_room_key(entries[i]),
        listed.to_multiset() == entries.filter(|name: String| is_room_file_name(name)).to_multiset(),
        in_stage_order(listed),
        manifest.to_multiset() == entries.filter(|name: String| has_room_key(name)).to_multiset(),
        in_stage_order(manifest),
    ensures
        views(listed) == views(manifest),
{
    assert forall|i: int| 0 <= i < entries.len() implies is_room_file_name(#[trigger] entries[i])
        == has_room_key(entries[i]) by {
        if has_room_key(entries[i]) {
            law_room_scene_key_matches_coords(entries[i]@);
            lemma_coordinates_imply_room_file(entries[i]@);
        }
    }
    lemma_filter_congruent(
        entries,
        |name: String| is_room_file_name(name),
        |name: String| has_room_key(name),
    );
    let to_view = |name: String| name@;
    lemma_multiset_map(listed, manifest, to_view);
    assert(views(listed) =~= listed.map_values(to_view));
    assert(views(manifest) =~= manifest.map_values(to_view));
    assert(views_in_stage_order(views(listed))) by {
        assert forall|i: int, j: int| 0 <= i < j < views(listed).len() implies room_file_le(
            #[trigger] views(listed)[i],
            #[trigger] views(listed)[j],
        ) by {
            assert(room_file_le(listed[i]@, listed[j]@));
        }
    }
    assert(views_in_stage_order(views(manifest))) by {
        assert forall|i: int, j: int| 0 <= i < j < views(manifest).len() implies room_file_le(
            #[trigger] views(manifest)[i],
            #[trigger] views(manifest)[j],
        ) by {
            assert(room_file_le(manifest[i]@, manifest[j]@));
        }
    }
    law_stage_order_unique(views(listed), views(manifest));
}


/// The stage paths of the room files among `listing`, inside `stage_dir`,
/// in stage order (the same for every arrangement of the listing, by
/// `law_room_files_ignore_listing_order`).
pub open spec fn is_sorted_listing_paths(
    paths: Seq<Seq<char>>,
    listing: Seq<String>,
    stage_dir: Seq<char>,
) -> bool {
    exists|sorted: Seq<String>|
        #![trigger in_stage_order(sorted)]
        sorted.to_multiset() == listing.filter(|name: String| is_room_file_name(name)).to_multiset()
            && in_stage_order(sorted) && paths == views(sorted).map_values(
            |name: Seq<char>| path_in_dir(stage_dir, name),
        )
}

/// The stages of the game: those that the manifest lists, in its order,
/// when there is a manifest (`manifest` holds its text); the room files of
/// the stage directory's `listing`, in stage order, only when the manifest
/// is missing.
pub fn stage_paths_from_sources(manifest: Option<&str>, listing: Vec<String>, stage_dir: &str) -> (paths: Vec<String>)
    ensures
        match manifest {
            Some(raw) => views(paths@) == manifest_entries(raw@, stage_dir@),
            None => is_sorted_listing_paths(views(paths@), listing@, stage_dir@),
        },
{
    match manifest {
        Some(raw) => match stage_paths_from_manifest(raw, stage_dir) {
            Some(paths) => paths,
            None => {
                let paths: Vec<String> = Vec::new();
                assert(views(paths@) =~= manifest_entries(raw@, stage_dir@));
                paths
            },
        },
        None => {
            let rooms = collect_sorted_room_files(listing);
            let paths = paths_in_dir(stage_dir, &rooms);
            assert(in_stage_order(rooms@));
            paths
        },
    }
}

} // verus!
