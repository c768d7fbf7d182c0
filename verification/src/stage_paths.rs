//! Room scene files (`Room_<x>_<y>.scn` or `.tscn`) and their stage order:
//! row by row (`y`), then column by column (`x`), then by name.
use vstd::prelude::*;
use crate::lines::views;
use crate::text::{
    find, find_char, has_prefix, has_suffix, lemma_find_char, lemma_text_le_antisymmetric,
    lemma_text_le_reflexive, lemma_text_le_total, lemma_text_le_transitive, parse_i32,
    parse_i32_spec, strip_prefix, strip_suffix, text_le, text_le_exec, starts_with, ends_with,
    is_digit, signed_decimal, lemma_parse_signed_decimal,
};

verus! {

broadcast use {vstd::seq_lib::group_to_multiset_ensures, vstd::multiset::group_multiset_axioms};

/// `Room_` followed by anything, ending in `.scn` or `.tscn`.
pub open spec fn spec_is_room_scene_file(name: Seq<char>) -> bool {
    (has_prefix(name, "Room_"@) && has_suffix(name, ".scn"@)) || (has_prefix(name, "Room_"@)
        && has_suffix(name, ".tscn"@))
}

/// The coordinates written as `<x>_<y>`: two `i32` numbers around the first
/// underscore.
pub open spec fn stem_coords(stem: Seq<char>) -> Option<(i32, i32)> {
    match find_char(stem, '_') {
        Some(k) => match (parse_i32_spec(stem.subrange(0, k)), parse_i32_spec(stem.skip(k + 1))) {
            (Some(x), Some(y)) => Some((x, y)),
            _ => None,
        },
        None => None,
    }
}

/// The room coordinates in a file name `Room_<x>_<y>.scn` or `.tscn`.
pub open spec fn spec_room_coords(name: Seq<char>) -> Option<(i32, i32)> {
    if has_prefix(name, "Room_"@) {
        let trimmed = name.skip(5);
        if has_suffix(trimmed, ".scn"@) {
            stem_coords(trimmed.subrange(0, trimmed.len() - 4))
        } else if has_suffix(trimmed, ".tscn"@) {
            stem_coords(trimmed.subrange(0, trimmed.len() - 5))
        } else {
            None
        }
    } else {
        None
    }
}

/// The stage-order key of a file name: `(y, x)`, or `(0, 0)` for a name that
/// holds no coordinates.
pub open spec fn spec_room_sort_key(name: Seq<char>) -> (i32, i32) {
    match spec_room_coords(name) {
        Some((x, y)) => (y, x),
        None => (0, 0),
    }
}

/// Lexicographic order of keys.
pub open spec fn key_lt(a: (i32, i32), b: (i32, i32)) -> bool {
    a.0 < b.0 || (a.0 == b.0 && a.1 < b.1)
}

/// Stage order of room files: by key, then by name.
pub open spec fn room_file_le(a: Seq<char>, b: Seq<char>) -> bool {
    key_lt(spec_room_sort_key(a), spec_room_sort_key(b)) || (spec_room_sort_key(a)
        == spec_room_sort_key(b) && text_le(a, b))
}

/// Each name comes no later than every name after it.
pub open spec fn in_stage_order(names: Seq<String>) -> bool {
    forall|i: int, j: int|
        0 <= i < j < names.len() ==> room_file_le(#[trigger] names[i]@, #[trigger] names[j]@)
}

/// The names that are room scene files.
pub open spec fn is_room_file_name(name: String) -> bool {
    spec_is_room_scene_file(name@)
}

pub proof fn lemma_room_file_le_total(a: Seq<char>, b: Seq<char>)
    ensures
        room_file_le(a, b) || room_file_le(b, a),
{
    lemma_text_le_total(a, b);
}

pub proof fn lemma_room_file_le_transitive(a: Seq<char>, b: Seq<char>, c: Seq<char>)
    requires
        room_file_le(a, b),
        room_file_le(b, c),
    ensures
        room_file_le(a, c),
{
    if spec_room_sort_key(a) == spec_room_sort_key(b) && spec_room_sort_key(b)
        == spec_room_sort_key(c) {
        lemma_text_le_transitive(a, b, c);
    }
}

pub proof fn lemma_room_file_le_antisymmetric(a: Seq<char>, b: Seq<char>)
    requires
        room_file_le(a, b),
        room_file_le(b, a),
    ensures
        a == b,
{
    lemma_text_le_antisymmetric(a, b);
}

/// A string holding a character that is neither a digit nor a sign is no
/// number.
pub(crate) proof fn lemma_parse_rejects(s: Seq<char>, c: char)
    requires
        s.contains(c),
        !is_digit(c),
        c != '+',
        c != '-',
    ensures
        parse_i32_spec(s) is None,
{
    let j = choose|j: int| 0 <= j < s.len() && s[j] == c;
    if j > 0 {
        assert(s.drop_first()[j - 1] == c);
    }
}

pub fn is_room_scene_file(file_name: &str) -> (is_room: bool)
    ensures
        is_room == spec_is_room_scene_file(file_name@),
{
    (starts_with(file_name, "Room_") && ends_with(file_name, ".scn")) || (starts_with(
        file_name,
        "Room_",
    ) && ends_with(file_name, ".tscn"))
}

/// Splits `<x>_<y>` at underscores; exactly two parts, both `i32`.
pub(crate) fn coords_from_stem(stem: &str) -> (coords: Option<(i32, i32)>)
    ensures
        coords == stem_coords(stem@),
{
    let first = match find(stem, '_') {
        Some(k) => k,
        None => {
            return None;
        },
    };
    proof {
        lemma_find_char(stem@, '_');
    }
    let n = stem.unicode_len();
    let x = match parse_i32(stem.substring_char(0, first)) {
        Some(x) => x,
        None => {
            return None;
        },
    };
    let rest = stem.substring_char(first + 1, n);
    assert(rest@ =~= stem@.skip(first + 1));
    let (y_text, more) = match find(rest, '_') {
        Some(k) => {
            proof {
                lemma_find_char(rest@, '_');
            }
            (rest.substring_char(0, k), true)
        },
        None => (rest, false),
    };
    if more {
        proof {
            lemma_find_char(rest@, '_');
            lemma_parse_rejects(rest@, '_');
        }
    }
    let y = match parse_i32(y_text) {
        Some(y) => y,
        None => {
            return None;
        },
    };
    if more {
        return None;
    }
    Some((x, y))
}

/// The room coordinates `(x, y)` in a file name `Room_<x>_<y>.scn` or
/// `Room_<x>_<y>.tscn`.
pub fn room_coords_from_file_name(file_name: &str) -> (coords: Option<(i32, i32)>)
    ensures
        coords == spec_room_coords(file_name@),
{
    proof {
        reveal_strlit("Room_");
        reveal_strlit(".scn");
        reveal_strlit(".tscn");
    }
    let trimmed = match strip_prefix(file_name, "Room_") {
        Some(t) => t,
        None => {
            return None;
        },
    };
    let stem = match strip_suffix(trimmed, ".scn") {
        Some(s) => s,
        None => match strip_suffix(trimmed, ".tscn") {
            Some(s) => s,
            None => {
                return None;
            },
        },
    };
    coords_from_stem(stem)
}

/// The stage-order key `(y, x)` of a file name, `(0, 0)` when it holds no
/// coordinates.
pub fn room_sort_key(file_name: &str) -> (key: (i32, i32))
    ensures
        key == spec_room_sort_key(file_name@),
{
    match room_coords_from_file_name(file_name) {
        Some((x, y)) => (y, x),
        None => (0, 0),
    }
}

/// Whether `a` comes no later than `b` in stage order.
fn room_file_le_exec(a: &str, b: &str) -> (le: bool)
    ensures
        le == room_file_le(a@, b@),
{
    let ka = room_sort_key(a);
    let kb = room_sort_key(b);
    if ka.0 < kb.0 || (ka.0 == kb.0 && ka.1 < kb.1) {
        true
    } else if ka.0 == kb.0 && ka.1 == kb.1 {
        text_le_exec(a, b)
    } else {
        false
    }
}

/// Inserts `name` into `sorted` where stage order puts it.
pub(crate) fn insert_in_stage_order(sorted: &mut Vec<String>, name: String)
    requires
        in_stage_order(old(sorted)@),
    ensures
        in_stage_order(final(sorted)@),
        final(sorted)@.to_multiset() == old(sorted)@.to_multiset().insert(name),
{
    let n = sorted.len();
    let mut pos: usize = 0;
    let mut found = false;
    while pos < n && !found
        invariant
            n == sorted@.len(),
            pos <= n,
            forall|k: int| 0 <= k < pos ==> room_file_le(#[trigger] sorted@[k]@, name@),
            found ==> pos < n && !room_file_le(sorted@[pos as int]@, name@),
        decreases n - pos + if found {
            0int
        } else {
            1int
        },
    {
        if !room_file_le_exec(sorted[pos].as_str(), name.as_str()) {
            found = true;
        } else {
            pos = pos + 1;
        }
    }
    let ghost before = sorted@;
    proof {
        if pos < n {
            lemma_room_file_le_total(before[pos as int]@, name@);
        }
        vstd::seq_lib::to_multiset_insert(before, pos as int, name);
    }
    sorted.insert(pos, name);
    let ghost after = sorted@;
    assert forall|i: int, j: int| 0 <= i < j < after.len() implies room_file_le(
        #[trigger] after[i]@,
        #[trigger] after[j]@,
    ) by {
        if j == pos {
            assert(after[i] == before[i]);
        } else if i == pos {
            assert(after[j] == before[j - 1]);
            if j - 1 > pos {
                lemma_room_file_le_transitive(name@, before[pos as int]@, before[j - 1]@);
            }
        } else if i < pos && j > pos {
            assert(after[i] == before[i]);
            assert(after[j] == before[j - 1]);
        } else if j < pos {
            assert(after[i] == before[i]);
            assert(after[j] == before[j]);
        } else {
            assert(after[i] == before[i - 1]);
            assert(after[j] == before[j - 1]);
        }
    }
}

/// The room scene files among `entries`, in stage order: by `y`, then `x`,
/// then name.
pub fn collect_sorted_room_files(entries: Vec<String>) -> (room_files: Vec<String>)
    ensures
        room_files@.to_multiset() == entries@.filter(|name: String| is_room_file_name(name)).to_multiset(),
        in_stage_order(room_files@),
{
    let ghost pred = |name: String| is_room_file_name(name);
    let mut rest = entries;
    let mut sorted: Vec<String> = Vec::new();
    while rest.len() > 0
        invariant
            pred == (|name: String| is_room_file_name(name)),
            in_stage_order(sorted@),
            sorted@.to_multiset().add(rest@.filter(pred).to_multiset()) == entries@.filter(
                pred,
            ).to_multiset(),
        decreases rest@.len(),
    {
        let ghost old_rest = rest@;
        let name = rest.pop().unwrap();
        proof {
            assert(old_rest =~= rest@.push(name));
            old_rest.drop_last().lemma_filter_push(name, pred);
            assert(old_rest.drop_last() =~= rest@);
        }
        let ghost kept = rest@.filter(pred);
        let ghost before = sorted@;
        if is_room_scene_file(name.as_str()) {
            assert(pred(name));
            assert(old_rest.filter(pred) == kept.push(name));
            insert_in_stage_order(&mut sorted, name);
            assert(sorted@.to_multiset().add(kept.to_multiset()) =~= before.to_multiset().add(
                old_rest.filter(pred).to_multiset(),
            ));
        } else {
            assert(!pred(name));
            assert(old_rest.filter(pred) == kept);
        }
    }
    assert(rest@.filter(pred) =~= Seq::<String>::empty());
    sorted
}

/// Equal multisets stay equal when every element is mapped.
pub proof fn lemma_multiset_map<A, B>(s1: Seq<A>, s2: Seq<A>, f: spec_fn(A) -> B)
    requires
        s1.to_multiset() == s2.to_multiset(),
    ensures
        s1.map_values(f).to_multiset() == s2.map_values(f).to_multiset(),
    decreases s1.len(),
{
    if s1.len() == 0 {
        assert(s2.len() == s2.to_multiset().len());
        assert(s1.map_values(f) =~= s2.map_values(f));
    } else {
        let x = s1.last();
        let rest1 = s1.drop_last();
        assert(s1 =~= rest1.push(x));
        assert(s1.to_multiset().count(x) > 0);
        assert(s2.contains(x));
        let i = choose|i: int| 0 <= i < s2.len() && s2[i] == x;
        let rest2 = s2.remove(i);
        assert(rest2.to_multiset() =~= rest1.to_multiset());
        lemma_multiset_map(rest1, rest2, f);
        let m2 = s2.map_values(f);
        assert(m2.remove(i) =~= rest2.map_values(f));
        assert(m2[i] == f(x));
        assert(rest1.push(x).map_values(f) =~= rest1.map_values(f).push(f(x)));
        assert(m2.to_multiset().count(f(x)) > 0) by {
            assert(m2.contains(f(x)));
        }
        assert(m2.to_multiset() =~= m2.remove(i).to_multiset().insert(f(x)));
    }
}

/// Every element comes no later in stage order than every element after it.
pub open spec fn views_in_stage_order(names: Seq<Seq<char>>) -> bool {
    forall|i: int, j: int| 0 <= i < j < names.len() ==> room_file_le(#[trigger] names[i], #[trigger] names[j])
}

/// Two arrangements in stage order of the same names are the same: stage
/// order leaves no choice.
pub proof fn law_stage_order_unique(a: Seq<Seq<char>>, b: Seq<Seq<char>>)
    requires
        views_in_stage_order(a),
        views_in_stage_order(b),
        a.to_multiset() == b.to_multiset(),
    ensures
        a == b,
    decreases a.len(),
{
    assert(a.len() == a.to_multiset().len());
    assert(b.len() == b.to_multiset().len());
    if a.len() > 0 {
        assert(a.to_multiset().count(a[0]) > 0);
        assert(b.contains(a[0]));
        let j = choose|j: int| 0 <= j < b.len() && b[j] == a[0];
        assert(b.to_multiset().count(b[0]) > 0);
        assert(a.contains(b[0]));
        let k = choose|k: int| 0 <= k < a.len() && a[k] == b[0];
        lemma_text_le_reflexive(a[0]);
        lemma_text_le_reflexive(b[0]);
        assert(room_file_le(b[0], a[0])) by {
            if j > 0 {
                assert(room_file_le(b[0], b[j]));
            }
        }
        assert(room_file_le(a[0], b[0])) by {
            if k > 0 {
                assert(room_file_le(a[0], a[k]));
            }
        }
        lemma_room_file_le_antisymmetric(a[0], b[0]);
        assert(a.remove(0) =~= a.drop_first());
        assert(b.remove(0) =~= b.drop_first());
        assert(a.drop_first().to_multiset() =~= b.drop_first().to_multiset());
        assert(views_in_stage_order(a.drop_first())) by {
            assert forall|i: int, j: int| 0 <= i < j < a.drop_first().len() implies room_file_le(
                #[trigger] a.drop_first()[i],
                #[trigger] a.drop_first()[j],
            ) by {
                assert(room_file_le(a[i + 1], a[j + 1]));
            }
        }
        assert(views_in_stage_order(b.drop_first())) by {
            assert forall|i: int, j: int| 0 <= i < j < b.drop_first().len() implies room_file_le(
                #[trigger] b.drop_first()[i],
                #[trigger] b.drop_first()[j],
            ) by {
                assert(room_file_le(b[i + 1], b[j + 1]));
            }
        }
        law_stage_order_unique(a.drop_first(), b.drop_first());
        assert(a =~= seq![a[0]] + a.drop_first());
        assert(b =~= seq![b[0]] + b.drop_first());
    } else {
        assert(a =~= b);
    }
}

/// A name with room coordinates is a room scene file.
pub proof fn lemma_coordinates_imply_room_file(name: Seq<char>)
    requires
        spec_room_coords(name) is Some,
    ensures
        spec_is_room_scene_file(name),
{
    reveal_strlit("Room_");
    reveal_strlit(".scn");
    reveal_strlit(".tscn");
    let trimmed = name.skip(5);
    let n = name.len() as int;
    if crate::text::has_suffix(trimmed, ".scn"@) {
        assert(name.subrange(n - 4, n) =~= trimmed.subrange(trimmed.len() - 4, trimmed.len() as int));
    } else {
        assert(name.subrange(n - 5, n) =~= trimmed.subrange(trimmed.len() - 5, trimmed.len() as int));
    }
}


/// How often a filter keeps an element: as often as the sequence holds it,
/// when the element passes.
proof fn lemma_filter_count<A>(s: Seq<A>, pred: spec_fn(A) -> bool, x: A)
    ensures
        s.filter(pred).to_multiset().count(x) == if pred(x) {
            s.to_multiset().count(x)
        } else {
            0
        },
    decreases s.len(),
{
    if s.len() == 0 {
        assert(s.filter(pred) =~= Seq::<A>::empty());
    } else {
        let front = s.drop_last();
        lemma_filter_count(front, pred, x);
        front.lemma_filter_push(s.last(), pred);
        assert(s =~= front.push(s.last()));
    }
}

/// Filtering two arrangements of the same elements keeps the same elements.
proof fn lemma_filter_same_multiset<A>(s1: Seq<A>, s2: Seq<A>, pred: spec_fn(A) -> bool)
    requires
        s1.to_multiset() == s2.to_multiset(),
    ensures
        s1.filter(pred).to_multiset() == s2.filter(pred).to_multiset(),
{
    assert forall|x: A| s1.filter(pred).to_multiset().count(x) == s2.filter(pred).to_multiset().count(x) by {
        lemma_filter_count(s1, pred, x);
        lemma_filter_count(s2, pred, x);
    }
    assert(s1.filter(pred).to_multiset() =~= s2.filter(pred).to_multiset());
}

/// Names in stage order are in stage order as views too.
proof fn lemma_views_in_stage_order(names: Seq<String>)
    requires
        in_stage_order(names),
    ensures
        views_in_stage_order(views(names)),
{
    assert forall|i: int, j: int| 0 <= i < j < views(names).len() implies room_file_le(
        #[trigger] views(names)[i],
        #[trigger] views(names)[j],
    ) by {
        assert(room_file_le(names[i]@, names[j]@));
    }
}

/// The room files collected from a directory listing do not depend on the
/// order of the listing: for two listings of the same entries, any two
/// results that meet the contract of `collect_sorted_room_files` name the
/// same files in the same order.
pub proof fn law_room_files_ignore_listing_order(
    entries1: Seq<String>,
    entries2: Seq<String>,
    sorted1: Seq<String>,
    sorted2: Seq<String>,
)
    requires
        entries1.to_multiset() == entries2.to_multiset(),
        sorted1.to_multiset() == entries1.filter(|name: String| is_room_file_name(name)).to_multiset(),
        in_stage_order(sorted1),
        sorted2.to_multiset() == entries2.filter(|name: String| is_room_file_name(name)).to_multiset(),
        in_stage_order(sorted2),
    ensures
        views(sorted1) == views(sorted2),
{
    lemma_filter_same_multiset(entries1, entries2, |name: String| is_room_file_name(name));
    lemma_multiset_map(sorted1, sorted2, |name: String| name@);
    lemma_views_in_stage_order(sorted1);
    lemma_views_in_stage_order(sorted2);
    law_stage_order_unique(views(sorted1), views(sorted2));
}

/// Collecting the room files of an already collected list changes nothing:
/// any result that meets the contract of `collect_sorted_room_files` on
/// `sorted` names the files of `sorted` in its order.
pub proof fn law_room_files_sorted_twice(entries: Seq<String>, sorted: Seq<String>, again: Seq<String>)
    requires
        sorted.to_multiset() == entries.filter(|name: String| is_room_file_name(name)).to_multiset(),
        in_stage_order(sorted),
        again.to_multiset() == sorted.filter(|name: String| is_room_file_name(name)).to_multiset(),
        in_stage_order(again),
    ensures
        views(again) == views(sorted),
{
    let pred = |name: String| is_room_file_name(name);
    assert forall|i: int| 0 <= i < sorted.len() implies pred(#[trigger] sorted[i]) by {
        assert(sorted.to_multiset().count(sorted[i]) > 0);
        lemma_filter_count(entries, pred, sorted[i]);
    }
    assert(sorted.filter(pred) == sorted) by {
        sorted.lemma_filter_len(pred);
        lemma_all_pass_filter(sorted, pred);
    }
    lemma_multiset_map(again, sorted, |name: String| name@);
    lemma_views_in_stage_order(sorted);
    lemma_views_in_stage_order(again);
    law_stage_order_unique(views(again), views(sorted));
}

/// A filter that every element passes keeps the whole sequence.
proof fn lemma_all_pass_filter<A>(s: Seq<A>, pred: spec_fn(A) -> bool)
    requires
        forall|i: int| 0 <= i < s.len() ==> pred(#[trigger] s[i]),
    ensures
        s.filter(pred) == s,
    decreases s.len(),
{
    reveal(Seq::filter);
    if s.len() > 0 {
        let front = s.drop_last();
        assert forall|i: int| 0 <= i < front.len() implies pred(#[trigger] front[i]) by {
            assert(front[i] == s[i]);
        }
        lemma_all_pass_filter(front, pred);
        assert(pred(s[s.len() - 1]));
        assert(s =~= front.push(s.last()));
    }
}


/// The extensions of room scene files.
pub open spec fn is_room_extension(ext: Seq<char>) -> bool {
    ext == ".scn"@ || ext == ".tscn"@
}

/// The file name of the room at `(x, y)`: `Room_<x>_<y>` and the extension,
/// the numbers written as `format!` writes them.
pub open spec fn room_file_name(x: i32, y: i32, ext: Seq<char>) -> Seq<char> {
    "Room_"@ + signed_decimal(x as int) + "_"@ + signed_decimal(y as int) + ext
}

/// Splitting `<p>_<q>` at its first underscore gives `p` and `q` back when
/// `p` holds no underscore.
proof fn lemma_stem_split(p: Seq<char>, q: Seq<char>)
    requires
        !p.contains('_'),
    ensures
        find_char(p + "_"@ + q, '_') == Some(p.len() as int),
        (p + "_"@ + q).subrange(0, p.len() as int) == p,
        (p + "_"@ + q).skip(p.len() + 1int) == q,
{
    reveal_strlit("_");
    let stem = p + "_"@ + q;
    lemma_find_char(stem, '_');
    assert(stem[p.len() as int] == '_');
    assert(stem.contains('_'));
    let k = find_char(stem, '_')->0;
    if k < p.len() {
        assert(stem[k] == p[k]);
    }
    assert(stem.subrange(0, p.len() as int) =~= p);
    assert(stem.skip(p.len() + 1int) =~= q);
}

/// A room written from its coordinates reads back as them: the name of the
/// room at `(x, y)` is a room scene file with coordinates `(x, y)`.
pub proof fn law_room_name_round_trip(x: i32, y: i32, ext: Seq<char>)
    requires
        is_room_extension(ext),
    ensures
        spec_room_coords(room_file_name(x, y, ext)) == Some((x, y)),
        spec_is_room_scene_file(room_file_name(x, y, ext)),
{
    reveal_strlit("Room_");
    reveal_strlit(".scn");
    reveal_strlit(".tscn");
    reveal_strlit("_");
    let a = signed_decimal(x as int);
    let b = signed_decimal(y as int);
    lemma_parse_signed_decimal(x);
    lemma_parse_signed_decimal(y);
    let stem = a + "_"@ + b;
    let name = room_file_name(x, y, ext);
    assert(name =~= "Room_"@ + (stem + ext));
    assert(name.subrange(0, 5) =~= "Room_"@);
    let trimmed = name.skip(5);
    assert(trimmed =~= stem + ext);
    let n = trimmed.len() as int;
    lemma_stem_split(a, b);
    if ext == ".scn"@ {
        assert(trimmed.subrange(n - 4, n) =~= ext);
        assert(trimmed.subrange(0, n - 4) =~= stem);
        assert(name.subrange(name.len() - 4, name.len() as int) =~= ext);
    } else {
        assert(trimmed.subrange(n - 4, n)[0] == 't');
        assert(trimmed.subrange(n - 4, n) != ".scn"@);
        assert(trimmed.subrange(n - 5, n) =~= ext);
        assert(trimmed.subrange(0, n - 5) =~= stem);
        assert(name.subrange(name.len() - 5, name.len() as int) =~= ext);
    }
}

/// A name with room coordinates is a room scene file `Room_<p>_<q>` with a
/// room extension, where `p` and `q` are the numbers that parse as the
/// coordinates.
pub proof fn law_room_name_shape(name: Seq<char>)
    requires
        spec_room_coords(name) is Some,
    ensures
        spec_is_room_scene_file(name),
        exists|p: Seq<char>, q: Seq<char>, ext: Seq<char>|
            #![trigger parse_i32_spec(p), parse_i32_spec(q), is_room_extension(ext)]
            is_room_extension(ext) && name == "Room_"@ + p + "_"@ + q + ext && parse_i32_spec(p)
                == Some((spec_room_coords(name)->0).0) && parse_i32_spec(q) == Some(
                (spec_room_coords(name)->0).1,
            ),
{
    reveal_strlit("Room_");
    reveal_strlit(".scn");
    reveal_strlit(".tscn");
    reveal_strlit("_");
    lemma_coordinates_imply_room_file(name);
    let trimmed = name.skip(5);
    let n = trimmed.len() as int;
    let cut: int = if has_suffix(trimmed, ".scn"@) { 4 } else { 5 };
    let stem = trimmed.subrange(0, n - cut);
    let ext = trimmed.subrange(n - cut, n);
    lemma_find_char(stem, '_');
    let k = find_char(stem, '_')->0;
    let p = stem.subrange(0, k);
    let q = stem.skip(k + 1);
    assert(stem =~= p + "_"@ + q);
    assert(name.subrange(0, 5) =~= "Room_"@);
    assert(name =~= "Room_"@ + p + "_"@ + q + ext);
    assert(is_room_extension(ext));
    assert(parse_i32_spec(p) == Some((spec_room_coords(name)->0).0));
    assert(parse_i32_spec(q) == Some((spec_room_coords(name)->0).1));
}


/// Stage order compares the keys `(y, x)` first: a room file whose key comes
/// first lexicographically (by row `y`, then column `x`, as numbers) comes
/// strictly before the other, whatever the names.
pub proof fn law_stage_order_follows_keys(a: Seq<char>, b: Seq<char>)
    requires
        spec_room_sort_key(a).0 < spec_room_sort_key(b).0 || (spec_room_sort_key(a).0
            == spec_room_sort_key(b).0 && spec_room_sort_key(a).1 < spec_room_sort_key(b).1),
    ensures
        room_file_le(a, b),
        !room_file_le(b, a),
{
}

/// Within a row, rooms go by their column number: the room at `(x1, y)`
/// comes strictly before the room at `(x2, y)` when `x1 < x2`, and rows go
/// in order of `y` whatever the columns.
pub proof fn law_rooms_in_row_and_column_order(
    x1: i32,
    y1: i32,
    ext1: Seq<char>,
    x2: i32,
    y2: i32,
    ext2: Seq<char>,
)
    requires
        is_room_extension(ext1),
        is_room_extension(ext2),
        y1 < y2 || (y1 == y2 && x1 < x2),
    ensures
        room_file_le(room_file_name(x1, y1, ext1), room_file_name(x2, y2, ext2)),
        !room_file_le(room_file_name(x2, y2, ext2), room_file_name(x1, y1, ext1)),
{
    law_room_name_round_trip(x1, y1, ext1);
    law_room_name_round_trip(x2, y2, ext2);
    law_stage_order_follows_keys(room_file_name(x1, y1, ext1), room_file_name(x2, y2, ext2));
}

} // verus!
