//! Godot's `export_presets.cfg`: sections `[preset.<n>]` with their
//! `[preset.<n>.options]`, each line `key=value`. The export makes sure that
//! the preset it uses exists, ships the stage manifest and has the options
//! that the target needs.
use vstd::prelude::*;
use crate::export_config::{ExportTarget, export_platform, platform_name};
use crate::lines::{
    first_match, join, join_texts, lemma_first_match, split_lines, text_lines, views,
};
use crate::text::{
    decimal, decimal_text, find, find_char, has_prefix, lemma_find_char, lemma_parse_decimal,
    parse_usize, parse_usize_spec, starts_with, strip_prefix, strip_suffix, text_eq, all_digits,
    is_digit,
};

verus! {

/// The file that lists the stages in order; every export must include it.
pub const STAGE_MANIFEST_FILTER: &'static str = "pipeline/ldtk/stage_manifest.txt";

/// The header line `[preset.<index>]`.
pub open spec fn preset_header_text(index: usize) -> Seq<char> {
    "[preset."@ + decimal(index as nat) + "]"@
}

/// The header line `[preset.<index>.options]`.
pub open spec fn options_header_text(index: usize) -> Seq<char> {
    "[preset."@ + decimal(index as nat) + ".options]"@
}

/// The option lines that a target needs in its preset.
pub open spec fn default_options(target: ExportTarget) -> Seq<Seq<char>> {
    match target {
        ExportTarget::Windows => seq![
            "binary_format/architecture=\"x86_64\""@,
            "binary_format/embed_pck=false"@,
        ],
        ExportTarget::Macos => Seq::empty(),
    }
}

/// The lines of a new preset named `name` with number `index`.
pub open spec fn default_preset_lines(index: usize, name: Seq<char>, target: ExportTarget) -> Seq<
    Seq<char>,
> {
    seq![
        preset_header_text(index),
        "name=\""@ + name + "\""@,
        "platform=\""@ + platform_name(target) + "\""@,
        "runnable=true"@,
        "dedicated_server=false"@,
        "custom_features=\"\""@,
        "export_filter=\"all_resources\""@,
        "include_filter=\""@ + STAGE_MANIFEST_FILTER@ + "\""@,
        "exclude_filter=\"\""@,
        "export_path=\"\""@,
        "encryption_include_filters=\"\""@,
        "encryption_exclude_filters=\"\""@,
        "encrypt_pck=false"@,
        "encrypt_directory=false"@,
        Seq::empty(),
        options_header_text(index),
    ] + default_options(target)
}

/// `a`, `b` and `c` one after the other.
fn concat3(a: &str, b: &str, c: &str) -> (text: String)
    ensures
        text@ == a@ + b@ + c@,
{
    let mut text = String::from_str(a);
    text.append(b);
    text.append(c);
    text
}

/// The header line `[preset.<index>]`.
fn preset_header(index: usize) -> (header: String)
    ensures
        header@ == preset_header_text(index),
{
    let number = decimal_text(index);
    concat3("[preset.", number.as_str(), "]")
}

/// The header line `[preset.<index>.options]`.
fn options_header(index: usize) -> (header: String)
    ensures
        header@ == options_header_text(index),
{
    let number = decimal_text(index);
    concat3("[preset.", number.as_str(), ".options]")
}

/// The option lines that a target needs in its preset.
pub fn default_export_options(target: ExportTarget) -> (options: &'static [&'static str])
    ensures
        options@.map_values(|o: &str| o@) == default_options(target),
{
    match target {
        ExportTarget::Windows => {
            let options: &'static [&'static str] = &["binary_format/architecture=\"x86_64\"", "binary_format/embed_pck=false"];
            assert(options@.map_values(|o: &str| o@) =~= default_options(target));
            options
        },
        ExportTarget::Macos => {
            let options: &'static [&'static str] = &[];
            assert(options@.map_values(|o: &str| o@) =~= default_options(target));
            options
        },
    }
}

/// Appends the string `s` to `lines`.
fn push_text(lines: &mut Vec<String>, s: &str)
    ensures
        views(final(lines)@) == views(old(lines)@).push(s@),
{
    lines.push(String::from_str(s));
    assert(views(final(lines)@) =~= views(old(lines)@).push(s@));
}

/// The lines of a new preset.
fn default_preset_line_list(index: usize, preset_name: &str, target: ExportTarget) -> (lines: Vec<
    String,
>)
    ensures
        views(lines@) == default_preset_lines(index, preset_name@, target),
{
    let mut lines: Vec<String> = Vec::new();
    let header = preset_header(index);
    push_text(&mut lines, header.as_str());
    let name_line = concat3("name=\"", preset_name, "\"");
    push_text(&mut lines, name_line.as_str());
    let platform_line = concat3("platform=\"", export_platform(target), "\"");
    push_text(&mut lines, platform_line.as_str());
    push_text(&mut lines, "runnable=true");
    push_text(&mut lines, "dedicated_server=false");
    push_text(&mut lines, "custom_features=\"\"");
    push_text(&mut lines, "export_filter=\"all_resources\"");
    let include_line = concat3("include_filter=\"", STAGE_MANIFEST_FILTER, "\"");
    push_text(&mut lines, include_line.as_str());
    push_text(&mut lines, "exclude_filter=\"\"");
    push_text(&mut lines, "export_path=\"\"");
    push_text(&mut lines, "encryption_include_filters=\"\"");
    push_text(&mut lines, "encryption_exclude_filters=\"\"");
    push_text(&mut lines, "encrypt_pck=false");
    push_text(&mut lines, "encrypt_directory=false");
    let empty = String::new();
    push_text(&mut lines, empty.as_str());
    let options_line = options_header(index);
    push_text(&mut lines, options_line.as_str());
    let options = default_export_options(target);
    let ghost head = views(lines@);
    let mut i: usize = 0;
    while i < options.len()
        invariant
            options@.map_values(|o: &str| o@) == default_options(target),
            i <= options@.len(),
            views(lines@) == head + default_options(target).take(i as int),
        decreases options@.len() - i,
    {
        push_text(&mut lines, options[i]);
        assert(default_options(target).take(i + 1) =~= default_options(target).take(i as int).push(
            options@[i as int]@,
        ));
        i = i + 1;
    }
    assert(default_options(target).take(i as int) =~= default_options(target));
    assert(views(lines@) =~= default_preset_lines(index, preset_name@, target));
    lines
}

/// The text of a new preset: its lines joined by `\r\n`.
pub fn default_export_preset(index: usize, preset_name: &str, target: ExportTarget) -> (text: String)
    ensures
        text@ == join(default_preset_lines(index, preset_name@, target), "\r\n"@),
{
    let lines = default_preset_line_list(index, preset_name, target);
    join_texts(&lines, "\r\n")
}

/// The number in a section header `[<prefix><n>]`, where `<n>` has no dot.
pub open spec fn spec_parse_preset_header(line: Seq<char>, prefix: Seq<char>) -> Option<usize> {
    if line.len() >= 2 && line[0] == '[' && line.last() == ']' {
        let body = line.subrange(1, line.len() - 1);
        if has_prefix(body, prefix) {
            let rest = body.skip(prefix.len() as int);
            if rest.contains('.') {
                None
            } else {
                parse_usize_spec(rest)
            }
        } else {
            None
        }
    } else {
        None
    }
}

/// The number in a section header `[<prefix><n>]`.
pub fn parse_preset_header(line: &str, prefix: &str) -> (index: Option<usize>)
    ensures
        index == spec_parse_preset_header(line@, prefix@),
{
    let n = line.unicode_len();
    if n < 2 || line.get_char(0) != '[' || line.get_char(n - 1) != ']' {
        return None;
    }
    let body = line.substring_char(1, n - 1);
    let rest = match strip_prefix(body, prefix) {
        Some(rest) => rest,
        None => {
            return None;
        },
    };
    match find(rest, '.') {
        Some(_) => {
            proof {
                lemma_find_char(rest@, '.');
            }
            return None;
        },
        None => {
            proof {
                lemma_find_char(rest@, '.');
            }
        },
    }
    parse_usize(rest)
}

/// The header of a preset reads back as its number.
pub proof fn law_preset_header_round_trip(index: usize)
    ensures
        spec_parse_preset_header(preset_header_text(index), "preset."@) == Some(index),
{
    reveal_strlit("[preset.");
    reveal_strlit("preset.");
    reveal_strlit("]");
    let line = preset_header_text(index);
    let digits = decimal(index as nat);
    lemma_parse_decimal(index);
    crate::text::lemma_decimal_digits(index as nat);
    assert(line[0] == '[');
    assert(line.last() == ']');
    let body = line.subrange(1, line.len() - 1);
    assert(body =~= "preset."@ + digits);
    assert(body.subrange(0, 7) =~= "preset."@);
    assert(body.skip(7) =~= digits);
    if digits.contains('.') {
        let j = choose|j: int| 0 <= j < digits.len() && digits[j] == '.';
        assert(is_digit(digits[j]));
    }
}

/// The options header of a preset is no preset header.
pub proof fn law_options_header_is_no_preset_header(index: usize)
    ensures
        spec_parse_preset_header(options_header_text(index), "preset."@) is None,
{
    reveal_strlit("[preset.");
    reveal_strlit("preset.");
    reveal_strlit(".options]");
    let line = options_header_text(index);
    let digits = decimal(index as nat);
    assert(line[0] == '[');
    assert(line.last() == ']');
    let body = line.subrange(1, line.len() - 1);
    assert(body.subrange(0, 7) =~= "preset."@);
    let rest = body.skip(7);
    assert(rest[digits.len() as int] == line[8 + digits.len() as int]);
    assert(rest[digits.len() as int] == '.');
}

/// What a scan of the lines knows so far: the number of the section it is
/// in, the number of the preset with the wanted name, the largest number.
pub open spec fn preset_scan(lines: Seq<Seq<char>>, name_line: Seq<char>) -> (
    Option<usize>,
    Option<usize>,
    Option<usize>,
)
    decreases lines.len(),
{
    if lines.len() == 0 {
        (None, None, None)
    } else {
        let (current, found, max) = preset_scan(lines.drop_last(), name_line);
        let line = lines.last();
        match spec_parse_preset_header(line, "preset."@) {
            Some(index) => (
                Some(index),
                found,
                Some(
                    match max {
                        Some(m) => if m >= index {
                            m
                        } else {
                            index
                        },
                        None => index,
                    },
                ),
            ),
            None => if current is Some && line == name_line {
                (current, current, max)
            } else {
                (current, found, max)
            },
        }
    }
}

/// The line that names a preset.
pub open spec fn name_line_text(preset_name: Seq<char>) -> Seq<char> {
    "name=\""@ + preset_name + "\""@
}

/// The number of the (last) preset named `preset_name`, and the largest
/// preset number, among `lines`.
pub fn find_preset_index(lines: &[String], preset_name: &str) -> (indices: (
    Option<usize>,
    Option<usize>,
))
    ensures
        ({
            let scan = preset_scan(views(lines@), name_line_text(preset_name@));
            indices == (scan.1, scan.2)
        }),
{
    let name_line = concat3("name=\"", preset_name, "\"");
    let mut current: Option<usize> = None;
    let mut found: Option<usize> = None;
    let mut max_index: Option<usize> = None;
    let n = lines.len();
    let mut i: usize = 0;
    let ghost all = views(lines@);
    while i < n
        invariant
            n == lines@.len(),
            all == views(lines@),
            name_line@ == name_line_text(preset_name@),
            i <= n,
            (current, found, max_index) == preset_scan(all.take(i as int), name_line@),
        decreases n - i,
    {
        assert(all.take(i + 1).drop_last() =~= all.take(i as int));
        assert(all.take(i + 1).last() == lines@[i as int]@);
        match parse_preset_header(lines[i].as_str(), "preset.") {
            Some(index) => {
                current = Some(index);
                max_index = Some(
                    match max_index {
                        Some(m) => if m >= index {
                            m
                        } else {
                            index
                        },
                        None => index,
                    },
                );
            },
            None => {
                if current.is_some() && text_eq(lines[i].as_str(), name_line.as_str()) {
                    found = current;
                }
            },
        }
        i = i + 1;
    }
    assert(all.take(n as int) =~= all);
    (found, max_index)
}

/// A line that opens a section.
pub open spec fn opens_section(line: Seq<char>) -> bool {
    has_prefix(line, "["@)
}

/// Whether a line is `header`.
pub open spec fn equals_line(header: Seq<char>) -> spec_fn(Seq<char>) -> bool {
    |line: Seq<char>| line == header
}

/// Whether a line opens a section.
pub open spec fn section_opener() -> spec_fn(Seq<char>) -> bool {
    |line: Seq<char>| opens_section(line)
}

/// The section under `header`: the position of the first line equal to it,
/// and the position of the next line that opens a section (or the end).
pub open spec fn spec_section_bounds(lines: Seq<Seq<char>>, header: Seq<char>) -> Option<(int, int)> {
    match first_match(lines, equals_line(header)) {
        None => None,
        Some(start) => Some(
            (
                start,
                match first_match(lines.skip(start + 1), section_opener()) {
                    Some(offset) => start + 1 + offset,
                    None => lines.len() as int,
                },
            ),
        ),
    }
}

/// The lines that a section spans: from its header to the next header.
pub fn section_bounds(lines: &[String], header: &str) -> (bounds: Option<(usize, usize)>)
    ensures
        match bounds {
            Some((start, end)) => spec_section_bounds(views(lines@), header@) == Some(
                (start as int, end as int),
            ),
            None => spec_section_bounds(views(lines@), header@) is None,
        },
        bounds matches Some((start, end)) ==> start < end <= lines@.len(),
{
    let ghost all = views(lines@);
    let ghost is_header = equals_line(header@);
    let ghost is_open = section_opener();
    proof {
        lemma_first_match(all, is_header);
    }
    let n = lines.len();
    let mut start: usize = 0;
    while start < n && !text_eq(lines[start].as_str(), header)
        invariant
            n == lines@.len(),
            all == views(lines@),
            start <= n,
            forall|j: int| 0 <= j < start ==> lines@[j]@ != header@,
        decreases n - start,
    {
        start = start + 1;
    }
    if start == n {
        assert forall|j: int| 0 <= j < all.len() implies !is_header(#[trigger] all[j]) by {
            assert(all[j] == lines@[j]@);
        }
        return None;
    }
    proof {
        let k = first_match(all, is_header)->0;
        assert(all[start as int] == lines@[start as int]@);
        if k < start {
            assert(all[k] == lines@[k]@);
        }
        assert(!(k > start));
    }
    let mut end: usize = start + 1;
    while end < n && !starts_with(lines[end].as_str(), "[")
        invariant
            n == lines@.len(),
            all == views(lines@),
            start < end <= n,
            forall|j: int| start < j < end ==> !opens_section(#[trigger] lines@[j]@),
        decreases n - end,
    {
        end = end + 1;
    }
    proof {
        let tail = all.skip(start + 1);
        lemma_first_match(tail, is_open);
        assert forall|j: int| 0 <= j < end - start - 1 implies !is_open(#[trigger] tail[j]) by {
            assert(tail[j] == lines@[start + 1 + j]@);
        }
        if end < n {
            assert(tail[end - start - 1] == lines@[end as int]@);
            let k = first_match(tail, is_open)->0;
            assert(!(k < end - start - 1));
        } else {
            assert(first_match(tail, is_open) is None);
        }
    }
    Some((start, end))
}

/// `key=value` in quotes.
pub open spec fn key_line_text(key: Seq<char>, value: Seq<char>) -> Seq<char> {
    key + "=\""@ + value + "\""@
}

/// A line that sets `key`.
pub open spec fn sets_key(line: Seq<char>, key: Seq<char>) -> bool {
    has_prefix(line, key + "="@)
}

/// Whether a line sets `key`.
pub open spec fn key_setter(key: Seq<char>) -> spec_fn(Seq<char>) -> bool {
    |line: Seq<char>| sets_key(line, key)
}

/// The lines after setting `key` to `value` in preset `index`: the first line
/// of the section that sets the key is replaced, or a line is added at the
/// section's end; nothing changes without that section.
pub open spec fn spec_ensure_preset_key(
    lines: Seq<Seq<char>>,
    index: usize,
    key: Seq<char>,
    value: Seq<char>,
) -> Seq<Seq<char>> {
    match spec_section_bounds(lines, preset_header_text(index)) {
        None => lines,
        Some((start, end)) => {
            let replacement = key_line_text(key, value);
            match first_match(lines.subrange(start + 1, end), key_setter(key)) {
                Some(offset) => lines.update(start + 1 + offset, replacement),
                None => lines.insert(end, replacement),
            }
        },
    }
}

/// Sets `key` to `value` (quoted) in the section of preset `index`.
pub fn ensure_preset_key(lines: &mut Vec<String>, index: usize, key: &str, value: &str)
    ensures
        views(final(lines)@) == spec_ensure_preset_key(views(old(lines)@), index, key@, value@),
{
    let header = preset_header(index);
    let (start, end) = match section_bounds(lines.as_slice(), header.as_str()) {
        Some(bounds) => bounds,
        None => {
            return;
        },
    };
    let replacement = concat3(key, "=\"", value);
    let mut replacement = replacement;
    replacement.append("\"");
    let mut key_prefix = String::from_str(key);
    key_prefix.append("=");
    let ghost before = views(lines@);
    let ghost region = before.subrange(start + 1, end as int);
    let ghost sets = key_setter(key@);
    proof {
        lemma_first_match(region, sets);
        assert(key_prefix@ =~= key@ + "="@);
    }
    let mut i: usize = start + 1;
    while i < end
        invariant
            before == views(lines@),
            lines@.len() == before.len(),
            start < end <= lines@.len(),
            start + 1 <= i <= end,
            region == before.subrange(start + 1, end as int),
            sets == key_setter(key@),
            replacement@ == key_line_text(key@, value@),
            before == views(old(lines)@),
            spec_section_bounds(before, preset_header_text(index)) == Some(
                (start as int, end as int),
            ),
            key_prefix@ == key@ + "="@,
            forall|j: int| start + 1 <= j < i ==> !sets_key(#[trigger] before[j], key@),
        decreases end - i,
    {
        if starts_with(lines[i].as_str(), key_prefix.as_str()) {
            proof {
                assert(before[i as int] == lines@[i as int]@);
                assert(region[i - start - 1] == before[i as int]);
                assert(sets(region[i - start - 1]));
                lemma_first_match(region, sets);
                let k = first_match(region, sets)->0;
                assert(region[i - start - 1] == before[i as int]);
                if k < i - start - 1 {
                    assert(region[k] == before[start + 1 + k]);
                }
                assert(first_match(region, sets) == Some(i - start - 1));
            }
            lines.set(i, replacement);
            assert(views(lines@) =~= before.update(i as int, replacement@));
            assert(replacement@ == key_line_text(key@, value@));
            assert(first_match(before.subrange(start + 1, end as int), key_setter(key@)) == Some(i - start - 1));
            return;
        }
        assert(before[i as int] == lines@[i as int]@);
        i = i + 1;
    }
    proof {
        assert forall|j: int| 0 <= j < region.len() implies !sets(#[trigger] region[j]) by {
            assert(region[j] == before[start + 1 + j]);
        }
    }
    lines.insert(end, replacement);
    assert(views(lines@) =~= before.insert(end as int, replacement@));
    assert(replacement@ == key_line_text(key@, value@));
    assert(first_match(before.subrange(start + 1, end as int), key_setter(key@)) is None);
}

} // verus!

verus! {

/// The key of an option line: the text before its first `=`.
pub open spec fn option_key(option: Seq<char>) -> Seq<char> {
    match find_char(option, '=') {
        Some(k) => option.subrange(0, k),
        None => option,
    }
}

/// Some line strictly between `start` and `end` sets `key`.
pub open spec fn sets_key_between(lines: Seq<Seq<char>>, start: int, end: int, key: Seq<char>) -> bool {
    exists|i: int| start < i < end && sets_key(#[trigger] lines[i], key)
}

/// The lines after adding, in order, each of `defaults` whose key the
/// section between `start` and `end` does not set yet, at the section's end.
pub open spec fn add_missing_options(
    lines: Seq<Seq<char>>,
    start: int,
    end: int,
    defaults: Seq<Seq<char>>,
) -> Seq<Seq<char>>
    decreases defaults.len(),
{
    if defaults.len() == 0 {
        lines
    } else if sets_key_between(lines, start, end, option_key(defaults[0])) {
        add_missing_options(lines, start, end, defaults.drop_first())
    } else {
        add_missing_options(lines.insert(end, defaults[0]), start, end + 1, defaults.drop_first())
    }
}

/// `lines` with an empty line added unless they are empty or end in one.
pub open spec fn pad_with_empty_line(lines: Seq<Seq<char>>) -> Seq<Seq<char>> {
    if lines.len() > 0 && lines.last().len() > 0 {
        lines.push(Seq::empty())
    } else {
        lines
    }
}

/// The lines after making sure that the options section of preset `index`
/// sets every option that the target needs, creating the section at the
/// end if it is missing.
pub open spec fn spec_ensure_options(lines: Seq<Seq<char>>, index: usize, target: ExportTarget) -> Seq<
    Seq<char>,
> {
    let defaults = default_options(target);
    if defaults.len() == 0 {
        lines
    } else {
        match spec_section_bounds(lines, options_header_text(index)) {
            Some((start, end)) => add_missing_options(lines, start, end, defaults),
            None => {
                let padded = pad_with_empty_line(lines);
                add_missing_options(
                    padded.push(options_header_text(index)),
                    padded.len() as int,
                    padded.len() + 1int,
                    defaults,
                )
            },
        }
    }
}

/// The key of an option line.
fn option_key_text(option: &str) -> (key: String)
    ensures
        key@ == option_key(option@),
{
    match find(option, '=') {
        Some(k) => {
            proof {
                lemma_find_char(option@, '=');
            }
            crate::lines::slice_text(option, 0, k)
        },
        None => String::from_str(option),
    }
}

/// Whether a line strictly between `start` and `end` sets `key`.
fn sets_key_between_exec(lines: &Vec<String>, start: usize, end: usize, key: &str) -> (found: bool)
    requires
        start < end <= lines@.len(),
    ensures
        found == sets_key_between(views(lines@), start as int, end as int, key@),
{
    let mut key_prefix = String::from_str(key);
    key_prefix.append("=");
    let ghost all = views(lines@);
    let mut i: usize = start + 1;
    while i < end
        invariant
            all == views(lines@),
            start < end <= lines@.len(),
            start + 1 <= i <= end,
            key_prefix@ == key@ + "="@,
            forall|j: int| start < j < i ==> !sets_key(#[trigger] all[j], key@),
        decreases end - i,
    {
        if starts_with(lines[i].as_str(), key_prefix.as_str()) {
            assert(all[i as int] == lines@[i as int]@);
            return true;
        }
        assert(all[i as int] == lines@[i as int]@);
        i = i + 1;
    }
    false
}

/// Makes sure that the options section of preset `index` sets every option
/// that the target needs.
pub fn ensure_options(lines: &mut Vec<String>, index: usize, target: ExportTarget)
    ensures
        views(final(lines)@) == spec_ensure_options(views(old(lines)@), index, target),
{
    let defaults = default_export_options(target);
    let ghost spec_defaults = default_options(target);
    if defaults.len() == 0 {
        return;
    }
    let header = options_header(index);
    let bounds = section_bounds(lines.as_slice(), header.as_str());
    let ghost original = views(lines@);
    let (start, mut end) = match bounds {
        Some(b) => b,
        None => {
            let n = lines.len();
            if n > 0 && lines[n - 1].unicode_len() > 0 {
                lines.push(String::new());
                assert(views(lines@) =~= original.push(Seq::empty()));
            } else {
                if n > 0 {
                    assert(original.last() == lines@[n - 1]@);
                }
            }
            assert(views(lines@) == pad_with_empty_line(original));
            let ghost padded = views(lines@);
            lines.push(header);
            assert(views(lines@) =~= padded.push(options_header_text(index)));
            let start = lines.len() - 1;
            (start, lines.len())
        },
    };
    let ghost goal = add_missing_options(views(lines@), start as int, end as int, spec_defaults);
    assert(goal == spec_ensure_options(original, index, target));
    let mut j: usize = 0;
    assert(spec_defaults.skip(0) =~= spec_defaults);
    while j < defaults.len()
        invariant
            defaults@.map_values(|o: &str| o@) == spec_defaults,
            j <= defaults@.len(),
            start < end <= lines@.len(),
            add_missing_options(views(lines@), start as int, end as int, spec_defaults.skip(j as int))
                == goal,
        decreases defaults@.len() - j,
    {
        let option = defaults[j];
        assert(option@ == spec_defaults[j as int]);
        let key = option_key_text(option);
        let ghost rest = spec_defaults.skip(j as int);
        assert(rest[0] == spec_defaults[j as int]);
        assert(rest.drop_first() =~= spec_defaults.skip(j + 1));
        if !sets_key_between_exec(lines, start, end, key.as_str()) {
            let ghost before = views(lines@);
            lines.insert(end, String::from_str(option));
            assert(views(lines@) =~= before.insert(end as int, option@));
            let new_len = lines.len();
            assert(end < new_len);
            end = end + 1;
        }
        j = j + 1;
    }
    assert(spec_defaults.skip(j as int) =~= Seq::<Seq<char>>::empty());
}

/// Why an existing preset file could not be updated.
#[derive(Debug, Clone, Copy, PartialEq, Eq, Structural)]
pub enum ExportPresetError {
    /// No preset has the wanted name, and creating one was not asked for.
    PresetNotFound,
}

/// The lines of the file after a new preset `next` is appended, separated by
/// an empty line.
pub open spec fn with_new_preset(lines: Seq<Seq<char>>, next: usize, name: Seq<char>, target: ExportTarget) -> Seq<
    Seq<char>,
> {
    pad_with_empty_line(lines) + text_lines(join(default_preset_lines(next, name, target), "\r\n"@))
}

/// The largest preset number plus one, or zero without presets.
pub open spec fn next_preset_number(max: Option<usize>) -> int {
    match max {
        Some(m) => m + 1,
        None => 0,
    }
}

/// The contents of `export_presets.cfg` after the export made sure of its
/// preset: a new file with preset 0 when there is none; else the preset
/// named `name` (appended with the next free number if missing and `force`),
/// set to include the stage manifest and given the target's options, lines
/// joined by `\r\n`. `None` when the preset is missing and not to be made.
pub open spec fn spec_updated_export_preset(
    existing: Option<Seq<char>>,
    name: Seq<char>,
    target: ExportTarget,
    force: bool,
) -> Option<Seq<char>> {
    match existing {
        None => Some(join(default_preset_lines(0, name, target), "\r\n"@)),
        Some(text) => {
            let lines = text_lines(text);
            let scan = preset_scan(lines, name_line_text(name));
            if scan.1 is None && !force {
                None
            } else {
                let index: usize = match scan.1 {
                    Some(i) => i,
                    None => next_preset_number(scan.2) as usize,
                };
                let with_preset = match scan.1 {
                    Some(_) => lines,
                    None => with_new_preset(lines, index, name, target),
                };
                Some(
                    join(
                        spec_ensure_options(
                            spec_ensure_preset_key(
                                with_preset,
                                index,
                                "include_filter"@,
                                STAGE_MANIFEST_FILTER@,
                            ),
                            index,
                            target,
                        ),
                        "\r\n"@,
                    ),
                )
            }
        },
    }
}

/// Makes sure that `export_presets.cfg` (its contents `existing`, `None` if
/// the file does not exist) has a usable preset `preset_name`; returns the
/// contents to write.
pub fn updated_export_preset(
    existing: Option<&str>,
    preset_name: &str,
    target: ExportTarget,
    force: bool,
) -> (updated: Result<String, ExportPresetError>)
    requires
        existing matches Some(text) ==> {
            let scan = preset_scan(text_lines(text@), name_line_text(preset_name@));
            !(scan.1 is None && force && scan.2 == Some(usize::MAX))
        },
    ensures
        match updated {
            Ok(text) => spec_updated_export_preset(
                match existing {
                    Some(t) => Some(t@),
                    None => None,
                },
                preset_name@,
                target,
                force,
            ) == Some(text@),
            Err(e) => e == ExportPresetError::PresetNotFound && spec_updated_export_preset(
                match existing {
                    Some(t) => Some(t@),
                    None => None,
                },
                preset_name@,
                target,
                force,
            ) is None,
        },
{
    let text = match existing {
        None => {
            return Ok(default_export_preset(0, preset_name, target));
        },
        Some(text) => text,
    };
    let mut lines = split_lines(text);
    let (found, max_index) = find_preset_index(lines.as_slice(), preset_name);
    let ghost original = views(lines@);
    let index = match found {
        Some(index) => index,
        None => {
            if !force {
                return Err(ExportPresetError::PresetNotFound);
            }
            let next: usize = match max_index {
                Some(m) => m + 1,
                None => 0,
            };
            let n = lines.len();
            if n > 0 && lines[n - 1].unicode_len() > 0 {
                lines.push(String::new());
                assert(views(lines@) =~= original.push(Seq::empty()));
            } else {
                if n > 0 {
                    assert(original.last() == lines@[n - 1]@);
                }
            }
            assert(views(lines@) == pad_with_empty_line(original));
            let preset = default_export_preset(next, preset_name, target);
            let extra = split_lines(preset.as_str());
            let ghost padded = views(lines@);
            let mut i: usize = 0;
            while i < extra.len()
                invariant
                    i <= extra@.len(),
                    views(lines@) == padded + views(extra@).take(i as int),
                decreases extra@.len() - i,
            {
                let ghost before = views(lines@);
                lines.push(String::from_str(extra[i].as_str()));
                assert(views(lines@) =~= before.push(extra@[i as int]@));
                assert(views(extra@).take(i + 1) =~= views(extra@).take(i as int).push(
                    extra@[i as int]@,
                ));
                assert(views(lines@) =~= padded + views(extra@).take(i + 1));
                i = i + 1;
            }
            assert(views(extra@).take(i as int) =~= views(extra@));
            next
        },
    };
    ensure_preset_key(&mut lines, index, "include_filter", STAGE_MANIFEST_FILTER);
    ensure_options(&mut lines, index, target);
    Ok(join_texts(&lines, "\r\n"))
}

} // verus!

verus! {

/// Splitting the lines joined by `\r\n` gives them back, when none holds a
/// line break and the last is not empty.
proof fn lemma_text_lines_of_crlf_join(parts: Seq<Seq<char>>)
    requires
        forall|i: int| 0 <= i < parts.len() ==> !(#[trigger] parts[i]).contains('\n'),
        parts.len() > 0 ==> parts.last().len() > 0,
    ensures
        text_lines(join(parts, "\r\n"@)) == parts,
    decreases parts.len(),
{
    reveal_strlit("\r\n");
    reveal_strlit("\r");
    reveal_strlit("\n");
    if parts.len() == 0 {
        assert(text_lines(Seq::<char>::empty()) =~= Seq::<Seq<char>>::empty());
    } else if parts.len() == 1 {
        lemma_find_char(parts[0], '\n');
        assert(text_lines(parts[0]) =~= seq![parts[0]]);
        assert(parts =~= seq![parts[0]]);
    } else {
        let rest = parts.drop_first();
        assert forall|i: int| 0 <= i < rest.len() implies !(#[trigger] rest[i]).contains('\n') by {
            assert(rest[i] == parts[i + 1]);
        }
        lemma_text_lines_of_crlf_join(rest);
        crate::lines::lemma_join_front(parts, "\r\n"@);
        let first = parts[0] + "\r"@;
        assert(!parts[0].contains('\n'));
        assert(!first.contains('\n')) by {
            if first.contains('\n') {
                let j = choose|j: int| 0 <= j < first.len() && first[j] == '\n';
                if j < parts[0].len() {
                    assert(first[j] == parts[0][j]);
                }
            }
        }
        assert(join(parts, "\r\n"@) =~= first + "\n"@ + join(rest, "\r\n"@));
        crate::lines::lemma_text_lines_front(first, join(rest, "\r\n"@));
        assert(crate::lines::strip_cr(first) =~= parts[0]);
        assert(parts =~= seq![parts[0]] + rest);
    }
}

/// No character of `a + b` is `c` when neither holds it.
proof fn lemma_concat_lacks(a: Seq<char>, b: Seq<char>, c: char)
    requires
        !a.contains(c),
        !b.contains(c),
    ensures
        !(a + b).contains(c),
{
    if (a + b).contains(c) {
        let j = choose|j: int| 0 <= j < (a + b).len() && (a + b)[j] == c;
        if j < a.len() {
            assert((a + b)[j] == a[j]);
        } else {
            assert((a + b)[j] == b[j - a.len()]);
        }
    }
}

/// The scan of a preset's lines after its header and name: no further
/// line is a preset header, so the preset stays found.
proof fn lemma_scan_keeps_found(lines: Seq<Seq<char>>, name_line: Seq<char>, index: usize, k: int)
    requires
        2 <= k <= lines.len(),
        preset_scan(lines.take(2), name_line) == (Some(index), Some(index), Some(index)),
        forall|j: int| 2 <= j < lines.len() ==> spec_parse_preset_header(#[trigger] lines[j], "preset."@)
            is None,
    ensures
        preset_scan(lines.take(k), name_line) == (Some(index), Some(index), Some(index)),
    decreases k,
{
    if k > 2 {
        lemma_scan_keeps_found(lines, name_line, index, k - 1);
        assert(lines.take(k).drop_last() =~= lines.take(k - 1));
        assert(lines.take(k).last() == lines[k - 1]);
    }
}

/// A newly written preset is found again under its name and number when its
/// text is read back, provided the name holds no line break.
pub proof fn law_created_preset_is_found(index: usize, name: Seq<char>, target: ExportTarget)
    requires
        !name.contains('\n'),
    ensures
        ({
            let scan = preset_scan(
                text_lines(join(default_preset_lines(index, name, target), "\r\n"@)),
                name_line_text(name),
            );
            scan.1 == Some(index) && scan.2 == Some(index)
        }),
{
    reveal_strlit("[preset.");
    reveal_strlit("]");
    reveal_strlit(".options]");
    reveal_strlit("name=\"");
    reveal_strlit("\"");
    reveal_strlit("platform=\"");
    reveal_strlit("Windows Desktop");
    reveal_strlit("macOS");
    reveal_strlit("runnable=true");
    reveal_strlit("dedicated_server=false");
    reveal_strlit("custom_features=\"\"");
    reveal_strlit("export_filter=\"all_resources\"");
    reveal_strlit("include_filter=\"");
    reveal_strlit("pipeline/ldtk/stage_manifest.txt");
    reveal_strlit("exclude_filter=\"\"");
    reveal_strlit("export_path=\"\"");
    reveal_strlit("encryption_include_filters=\"\"");
    reveal_strlit("encryption_exclude_filters=\"\"");
    reveal_strlit("encrypt_pck=false");
    reveal_strlit("encrypt_directory=false");
    reveal_strlit("binary_format/architecture=\"x86_64\"");
    reveal_strlit("binary_format/embed_pck=false");
    let lines = default_preset_lines(index, name, target);
    let digits = decimal(index as nat);
    crate::text::lemma_decimal_digits(index as nat);
    assert(!digits.contains('\n')) by {
        if digits.contains('\n') {
            let j = choose|j: int| 0 <= j < digits.len() && digits[j] == '\n';
            assert(is_digit(digits[j]));
        }
    }
    lemma_concat_lacks("[preset."@, digits, '\n');
    lemma_concat_lacks("[preset."@ + digits, "]"@, '\n');
    lemma_concat_lacks("[preset."@ + digits, ".options]"@, '\n');
    lemma_concat_lacks("name=\""@, name, '\n');
    lemma_concat_lacks("name=\""@ + name, "\""@, '\n');
    lemma_concat_lacks("platform=\""@, platform_name(target), '\n');
    lemma_concat_lacks("platform=\""@ + platform_name(target), "\""@, '\n');
    lemma_concat_lacks("include_filter=\""@, STAGE_MANIFEST_FILTER@, '\n');
    lemma_concat_lacks("include_filter=\""@ + STAGE_MANIFEST_FILTER@, "\""@, '\n');
    assert forall|i: int| 0 <= i < lines.len() implies !(#[trigger] lines[i]).contains('\n') by {
        if i == 14 {
            assert(lines[i].len() == 0);
        }
    }
    lemma_text_lines_of_crlf_join(lines);
    let name_line = name_line_text(name);
    law_preset_header_round_trip(index);
    law_options_header_is_no_preset_header(index);
    assert(lines.take(2).drop_last() =~= lines.take(1));
    assert(lines.take(1).drop_last() =~= Seq::<Seq<char>>::empty());
    assert(spec_parse_preset_header(lines[1], "preset."@) is None) by {
        assert(lines[1][0] == 'n');
    }
    assert(lines.take(1).last() == lines[0]);
    assert(lines[0] == preset_header_text(index));
    assert(preset_scan(Seq::<Seq<char>>::empty(), name_line) == (
        None::<usize>,
        None::<usize>,
        None::<usize>,
    ));
    assert(preset_scan(lines.take(1), name_line) == (Some(index), None::<usize>, Some(index)));
    assert(lines.take(2).last() == lines[1]);
    assert(lines[1] == name_line);
    assert(preset_scan(lines.take(2), name_line) == (Some(index), Some(index), Some(index)));
    assert forall|j: int| 2 <= j < lines.len() implies spec_parse_preset_header(
        #[trigger] lines[j],
        "preset."@,
    ) is None by {
        if j != 15 && j != 14 {
            assert(lines[j][0] != '[');
        }
    }
    lemma_scan_keeps_found(lines, name_line, index, lines.len() as int);
    assert(lines.take(lines.len() as int) =~= lines);
}


/// A new preset ships the stage manifest, whatever its target, number and
/// name: its section (from its header to the next line that opens a
/// section) holds the line `include_filter="pipeline/ldtk/stage_manifest.txt"`.
pub proof fn law_new_preset_includes_manifest(index: usize, name: Seq<char>, target: ExportTarget)
    ensures
        ({
            let lines = default_preset_lines(index, name, target);
            &&& lines[0] == preset_header_text(index)
            &&& exists|i: int|
                0 < i < lines.len() && lines[i] == "include_filter=\"pipeline/ldtk/stage_manifest.txt\""@
                    && forall|j: int| 0 < j <= i ==> !has_prefix(#[trigger] lines[j], "["@)
        }),
{
    reveal_strlit("include_filter=\"");
    reveal_strlit("\"");
    reveal_strlit("pipeline/ldtk/stage_manifest.txt");
    reveal_strlit("include_filter=\"pipeline/ldtk/stage_manifest.txt\"");
    reveal_strlit("[");
    reveal_strlit("name=\"");
    reveal_strlit("platform=\"");
    reveal_strlit("runnable=true");
    reveal_strlit("dedicated_server=false");
    reveal_strlit("custom_features=\"\"");
    reveal_strlit("export_filter=\"all_resources\"");
    let lines = default_preset_lines(index, name, target);
    assert(lines[7] =~= "include_filter=\"pipeline/ldtk/stage_manifest.txt\""@);
    assert forall|j: int| 0 < j <= 7 implies !has_prefix(#[trigger] lines[j], "["@) by {
        assert(lines[j][0] != '[');
        if has_prefix(lines[j], "["@) {
            assert(lines[j].subrange(0, 1)[0] == lines[j][0]);
        }
    }
}

} // verus!

verus! {

/// A line that a preset scan passes over: no preset header and not the line
/// that names the wanted preset.
pub open spec fn neutral_line(line: Seq<char>, name_line: Seq<char>) -> bool {
    spec_parse_preset_header(line, "preset."@) is None && line != name_line
}

/// No line holds a line break.
pub open spec fn no_line_breaks(lines: Seq<Seq<char>>) -> bool {
    forall|i: int| 0 <= i < lines.len() ==> !(#[trigger] lines[i]).contains('\n')
}

proof fn lemma_scan_push_neutral(lines: Seq<Seq<char>>, x: Seq<char>, name_line: Seq<char>)
    requires
        neutral_line(x, name_line),
    ensures
        preset_scan(lines.push(x), name_line) == preset_scan(lines, name_line),
{
    assert(lines.push(x).drop_last() =~= lines);
}

proof fn lemma_scan_insert_neutral(lines: Seq<Seq<char>>, k: int, x: Seq<char>, name_line: Seq<char>)
    requires
        0 <= k <= lines.len(),
        neutral_line(x, name_line),
    ensures
        preset_scan(lines.insert(k, x), name_line) == preset_scan(lines, name_line),
    decreases lines.len(),
{
    if k == lines.len() {
        assert(lines.insert(k, x) =~= lines.push(x));
        lemma_scan_push_neutral(lines, x, name_line);
    } else {
        let front = lines.drop_last();
        lemma_scan_insert_neutral(front, k, x, name_line);
        assert(lines.insert(k, x).drop_last() =~= front.insert(k, x));
        assert(lines.insert(k, x).last() == lines.last());
    }
}

proof fn lemma_scan_update_neutral(lines: Seq<Seq<char>>, k: int, x: Seq<char>, name_line: Seq<char>)
    requires
        0 <= k < lines.len(),
        neutral_line(lines[k], name_line),
        neutral_line(x, name_line),
    ensures
        preset_scan(lines.update(k, x), name_line) == preset_scan(lines, name_line),
    decreases lines.len(),
{
    let front = lines.drop_last();
    if k == lines.len() - 1 {
        assert(lines.update(k, x) =~= front.push(x));
        lemma_scan_push_neutral(front, x, name_line);
        assert(lines =~= front.push(lines[k]));
        lemma_scan_push_neutral(front, lines[k], name_line);
    } else {
        lemma_scan_update_neutral(front, k, x, name_line);
        assert(lines.update(k, x).drop_last() =~= front.update(k, x));
        assert(lines.update(k, x).last() == lines.last());
    }
}

proof fn lemma_add_missing_neutral(
    lines: Seq<Seq<char>>,
    start: int,
    end: int,
    defaults: Seq<Seq<char>>,
    name_line: Seq<char>,
)
    requires
        0 <= end <= lines.len(),
        forall|i: int| 0 <= i < defaults.len() ==> neutral_line(#[trigger] defaults[i], name_line),
        forall|i: int| 0 <= i < defaults.len() ==> !(#[trigger] defaults[i]).contains('\n'),
    ensures
        preset_scan(add_missing_options(lines, start, end, defaults), name_line) == preset_scan(
            lines,
            name_line,
        ),
        no_line_breaks(lines) ==> no_line_breaks(add_missing_options(lines, start, end, defaults)),
    decreases defaults.len(),
{
    if defaults.len() > 0 {
        let rest = defaults.drop_first();
        assert forall|i: int| 0 <= i < rest.len() implies neutral_line(#[trigger] rest[i], name_line) by {
            assert(rest[i] == defaults[i + 1]);
        }
        assert forall|i: int| 0 <= i < rest.len() implies !(#[trigger] rest[i]).contains('\n') by {
            assert(rest[i] == defaults[i + 1]);
        }
        assert(neutral_line(defaults[0], name_line));
        if sets_key_between(lines, start, end, option_key(defaults[0])) {
            lemma_add_missing_neutral(lines, start, end, rest, name_line);
        } else {
            let inserted = lines.insert(end, defaults[0]);
            lemma_scan_insert_neutral(lines, end, defaults[0], name_line);
            lemma_add_missing_neutral(inserted, start, end + 1, rest, name_line);
            if no_line_breaks(lines) {
                assert forall|i: int| 0 <= i < inserted.len() implies !(#[trigger] inserted[i]).contains(
                    '\n',
                ) by {
                    if i < end {
                        assert(inserted[i] == lines[i]);
                    } else if i > end {
                        assert(inserted[i] == lines[i - 1]);
                    }
                }
            }
        }
    }
}

/// The lines of a text hold no line break.
proof fn lemma_text_lines_no_breaks(s: Seq<char>)
    ensures
        no_line_breaks(text_lines(s)),
    decreases s.len(),
{
    if s.len() > 0 {
        lemma_find_char(s, '\n');
        match find_char(s, '\n') {
            None => {},
            Some(k) => {
                lemma_text_lines_no_breaks(s.skip(k + 1));
                let head = s.subrange(0, k);
                assert(!head.contains('\n')) by {
                    if head.contains('\n') {
                        let j = choose|j: int| 0 <= j < head.len() && head[j] == '\n';
                        assert(s[j] == '\n');
                    }
                }
                let first = crate::lines::strip_cr(head);
                assert(!first.contains('\n')) by {
                    if first.contains('\n') {
                        let j = choose|j: int| 0 <= j < first.len() && first[j] == '\n';
                        assert(head[j] == first[j]);
                    }
                }
                let all = text_lines(s);
                assert(all == seq![first] + text_lines(s.skip(k + 1)));
                assert forall|i: int| 0 <= i < all.len() implies !(#[trigger] all[i]).contains('\n') by {
                    if i > 0 {
                        assert(all[i] == text_lines(s.skip(k + 1))[i - 1]);
                    }
                }
            },
        }
    }
}

/// Splitting lines joined by `\r\n` gives them back, but for an empty last
/// line, which is lost.
proof fn lemma_text_lines_of_crlf_join_any(parts: Seq<Seq<char>>)
    requires
        no_line_breaks(parts),
        parts.len() > 0,
    ensures
        text_lines(join(parts, "\r\n"@)) == if parts.last().len() == 0 {
            parts.drop_last()
        } else {
            parts
        },
    decreases parts.len(),
{
    if parts.last().len() > 0 {
        lemma_text_lines_of_crlf_join(parts);
    } else if parts.len() == 1 {
        assert(join(parts, "\r\n"@) == parts[0]);
        assert(parts.drop_last() =~= Seq::<Seq<char>>::empty());
        assert(text_lines(parts[0]) =~= Seq::<Seq<char>>::empty());
    } else {
        reveal_strlit("\r\n");
        reveal_strlit("\r");
        reveal_strlit("\n");
        let rest = parts.drop_first();
        assert forall|i: int| 0 <= i < rest.len() implies !(#[trigger] rest[i]).contains('\n') by {
            assert(rest[i] == parts[i + 1]);
        }
        lemma_text_lines_of_crlf_join_any(rest);
        crate::lines::lemma_join_front(parts, "\r\n"@);
        let first = parts[0] + "\r"@;
        assert(!parts[0].contains('\n'));
        lemma_concat_lacks(parts[0], "\r"@, '\n');
        assert(join(parts, "\r\n"@) =~= first + "\n"@ + join(rest, "\r\n"@));
        crate::lines::lemma_text_lines_front(first, join(rest, "\r\n"@));
        assert(crate::lines::strip_cr(first) =~= parts[0]);
        assert(rest.last() == parts.last());
        assert(parts.drop_last() =~= seq![parts[0]] + rest.drop_last());
    }
}

/// The shape of a new preset's lines: no line break, its header first, its
/// name line second, no other preset header, a last line that is not empty.
proof fn lemma_default_preset_shape(index: usize, name: Seq<char>, target: ExportTarget)
    requires
        !name.contains('\n'),
    ensures
        ({
            let lines = default_preset_lines(index, name, target);
            &&& no_line_breaks(lines)
            &&& lines.len() >= 2
            &&& spec_parse_preset_header(lines[0], "preset."@) == Some(index)
            &&& lines[1] == name_line_text(name)
            &&& spec_parse_preset_header(lines[1], "preset."@) is None
            &&& forall|j: int| 2 <= j < lines.len() ==> neutral_line(#[trigger] lines[j], name_line_text(name))
            &&& lines.last().len() > 0
        }),
{
    reveal_strlit("[preset.");
    reveal_strlit("]");
    reveal_strlit(".options]");
    reveal_strlit("name=\"");
    reveal_strlit("\"");
    reveal_strlit("platform=\"");
    reveal_strlit("Windows Desktop");
    reveal_strlit("macOS");
    reveal_strlit("runnable=true");
    reveal_strlit("dedicated_server=false");
    reveal_strlit("custom_features=\"\"");
    reveal_strlit("export_filter=\"all_resources\"");
    reveal_strlit("include_filter=\"");
    reveal_strlit("pipeline/ldtk/stage_manifest.txt");
    reveal_strlit("exclude_filter=\"\"");
    reveal_strlit("export_path=\"\"");
    reveal_strlit("encryption_include_filters=\"\"");
    reveal_strlit("encryption_exclude_filters=\"\"");
    reveal_strlit("encrypt_pck=false");
    reveal_strlit("encrypt_directory=false");
    reveal_strlit("binary_format/architecture=\"x86_64\"");
    reveal_strlit("binary_format/embed_pck=false");
    let lines = default_preset_lines(index, name, target);
    let digits = decimal(index as nat);
    crate::text::lemma_decimal_digits(index as nat);
    assert(!digits.contains('\n')) by {
        if digits.contains('\n') {
            let j = choose|j: int| 0 <= j < digits.len() && digits[j] == '\n';
            assert(is_digit(digits[j]));
        }
    }
    lemma_concat_lacks("[preset."@, digits, '\n');
    lemma_concat_lacks("[preset."@ + digits, "]"@, '\n');
    lemma_concat_lacks("[preset."@ + digits, ".options]"@, '\n');
    lemma_concat_lacks("name=\""@, name, '\n');
    lemma_concat_lacks("name=\""@ + name, "\""@, '\n');
    lemma_concat_lacks("platform=\""@, platform_name(target), '\n');
    lemma_concat_lacks("platform=\""@ + platform_name(target), "\""@, '\n');
    lemma_concat_lacks("include_filter=\""@, STAGE_MANIFEST_FILTER@, '\n');
    lemma_concat_lacks("include_filter=\""@ + STAGE_MANIFEST_FILTER@, "\""@, '\n');
    assert forall|i: int| 0 <= i < lines.len() implies !(#[trigger] lines[i]).contains('\n') by {
        if i == 14 {
            assert(lines[i].len() == 0);
        }
    }
    law_preset_header_round_trip(index);
    law_options_header_is_no_preset_header(index);
    let name_line = name_line_text(name);
    assert(name_line[0] == 'n');
    assert(lines[1][0] == 'n');
    assert forall|j: int| 2 <= j < lines.len() implies neutral_line(#[trigger] lines[j], name_line) by {
        if j == 14 {
            assert(lines[j].len() == 0);
        } else if j == 15 {
            assert(lines[j][0] == '[');
        } else {
            assert(lines[j][0] != '[');
            assert(lines[j][0] != 'n');
        }
    }
}

/// Scanning past a preset's header and name line finds that preset, and
/// neutral lines after them keep it found.
proof fn lemma_scan_finds_appended(
    before: Seq<Seq<char>>,
    preset: Seq<Seq<char>>,
    name_line: Seq<char>,
    index: usize,
    k: int,
)
    requires
        preset.len() >= 2,
        2 <= k <= preset.len(),
        spec_parse_preset_header(preset[0], "preset."@) == Some(index),
        preset[1] == name_line,
        spec_parse_preset_header(preset[1], "preset."@) is None,
        forall|j: int| 2 <= j < preset.len() ==> neutral_line(#[trigger] preset[j], name_line),
    ensures
        preset_scan(before + preset.take(k), name_line).1 == Some(index),
        preset_scan(before + preset.take(k), name_line).0 == Some(index),
    decreases k,
{
    if k == 2 {
        let one = before + preset.take(1);
        assert(one.drop_last() =~= before);
        assert(one.last() == preset[0]);
        assert(preset_scan(one, name_line).0 == Some(index));
        let two = before + preset.take(2);
        assert(two.drop_last() =~= one);
        assert(two.last() == preset[1]);
        assert(two.last() == name_line);
    } else {
        lemma_scan_finds_appended(before, preset, name_line, index, k - 1);
        let shorter = before + preset.take(k - 1);
        let longer = before + preset.take(k);
        assert(longer =~= shorter.push(preset[k - 1]));
        assert(neutral_line(preset[k - 1], name_line));
        lemma_scan_push_neutral(shorter, preset[k - 1], name_line);
    }
}

/// After the export has made sure of its preset, reading the written file
/// back finds a preset with the wanted name, provided the name holds no line
/// break.
pub proof fn law_updated_preset_is_found(
    existing: Option<Seq<char>>,
    name: Seq<char>,
    target: ExportTarget,
    force: bool,
)
    requires
        !name.contains('\n'),
        existing matches Some(text) ==> {
            let scan = preset_scan(text_lines(text), name_line_text(name));
            !(scan.1 is None && force && scan.2 == Some(usize::MAX))
        },
        spec_updated_export_preset(existing, name, target, force) is Some,
    ensures
        preset_scan(
            text_lines(spec_updated_export_preset(existing, name, target, force)->0),
            name_line_text(name),
        ).1 is Some,
{
    let name_line = name_line_text(name);
    reveal_strlit("name=\"");
    assert(name_line[0] == 'n');
    match existing {
        None => {
            lemma_default_preset_shape(0, name, target);
            let lines = default_preset_lines(0, name, target);
            lemma_text_lines_of_crlf_join(lines);
            lemma_scan_finds_appended(Seq::empty(), lines, name_line, 0, lines.len() as int);
            assert(Seq::<Seq<char>>::empty() + lines.take(lines.len() as int) =~= lines);
        },
        Some(text) => {
            let lines = text_lines(text);
            lemma_text_lines_no_breaks(text);
            let scan = preset_scan(lines, name_line);
            let index: usize = match scan.1 {
                Some(i) => i,
                None => next_preset_number(scan.2) as usize,
            };
            let with_preset = match scan.1 {
                Some(_) => lines,
                None => with_new_preset(lines, index, name, target),
            };
            if scan.1 is None {
                lemma_default_preset_shape(index, name, target);
                let fresh = default_preset_lines(index, name, target);
                lemma_text_lines_of_crlf_join(fresh);
                let padded = pad_with_empty_line(lines);
                assert(with_preset == padded + fresh);
                lemma_scan_finds_appended(padded, fresh, name_line, index, fresh.len() as int);
                assert(padded + fresh.take(fresh.len() as int) =~= padded + fresh);
                assert(no_line_breaks(padded)) by {
                    assert forall|i: int| 0 <= i < padded.len() implies !(#[trigger] padded[i]).contains(
                        '\n',
                    ) by {
                        if i < lines.len() {
                            assert(padded[i] == lines[i]);
                        }
                    }
                }
                assert forall|i: int| 0 <= i < with_preset.len() implies !(
                #[trigger] with_preset[i]).contains('\n') by {
                    if i < padded.len() {
                        assert(with_preset[i] == padded[i]);
                    } else {
                        assert(with_preset[i] == fresh[i - padded.len()]);
                    }
                }
            }
            assert(preset_scan(with_preset, name_line).1 is Some);
            assert(no_line_breaks(with_preset));
            let keyed = spec_ensure_preset_key(
                with_preset,
                index,
                "include_filter"@,
                STAGE_MANIFEST_FILTER@,
            );
            lemma_ensure_key_keeps_scan(with_preset, index, name_line);
            let optioned = spec_ensure_options(keyed, index, target);
            lemma_ensure_options_keeps_scan(keyed, index, target, name_line);
            if optioned.len() > 0 {
                lemma_text_lines_of_crlf_join_any(optioned);
                if optioned.last().len() == 0 {
                    assert(optioned =~= optioned.drop_last().push(optioned.last()));
                    assert(neutral_line(optioned.last(), name_line));
                    lemma_scan_push_neutral(optioned.drop_last(), optioned.last(), name_line);
                }
            } else {
                assert(preset_scan(optioned, name_line).1 is None);
            }
        },
    }
}

/// The section under a header lies inside the lines and holds its header.
proof fn lemma_section_bounds_range(lines: Seq<Seq<char>>, header: Seq<char>)
    ensures
        spec_section_bounds(lines, header) matches Some((start, end)) ==> 0 <= start < end
            <= lines.len() && lines[start] == header,
{
    lemma_first_match(lines, equals_line(header));
    match first_match(lines, equals_line(header)) {
        None => {},
        Some(start) => {
            lemma_first_match(lines.skip(start + 1), section_opener());
        },
    }
}

/// Setting the include filter changes no preset header and no name line.
proof fn lemma_ensure_key_keeps_scan(lines: Seq<Seq<char>>, index: usize, name_line: Seq<char>)
    requires
        name_line.len() > 0,
        name_line[0] == 'n',
        no_line_breaks(lines),
    ensures
        preset_scan(
            spec_ensure_preset_key(lines, index, "include_filter"@, STAGE_MANIFEST_FILTER@),
            name_line,
        ) == preset_scan(lines, name_line),
        no_line_breaks(spec_ensure_preset_key(lines, index, "include_filter"@, STAGE_MANIFEST_FILTER@)),
{
    reveal_strlit("include_filter");
    reveal_strlit("=");
    reveal_strlit("=\"");
    reveal_strlit("\"");
    reveal_strlit("pipeline/ldtk/stage_manifest.txt");
    let key = "include_filter"@;
    let replacement = key_line_text(key, STAGE_MANIFEST_FILTER@);
    assert(replacement[0] == 'i');
    assert(neutral_line(replacement, name_line));
    lemma_concat_lacks(key, "=\""@, '\n');
    lemma_concat_lacks(key + "=\""@, STAGE_MANIFEST_FILTER@, '\n');
    lemma_concat_lacks(key + "=\""@ + STAGE_MANIFEST_FILTER@, "\""@, '\n');
    let header = preset_header_text(index);
    lemma_section_bounds_range(lines, header);
    match spec_section_bounds(lines, header) {
        None => {},
        Some((start, end)) => {
            let region = lines.subrange(start + 1, end);
            let sets = key_setter(key);
            lemma_first_match(region, sets);
            match first_match(region, sets) {
                Some(offset) => {
                    let k = start + 1 + offset;
                    assert(region[offset] == lines[k]);
                    assert(sets_key(lines[k], key));
                    assert(lines[k].subrange(0, (key + "="@).len() as int) == key + "="@);
                    assert(lines[k][0] == lines[k].subrange(0, (key + "="@).len() as int)[0]);
                    assert(lines[k][0] == 'i');
                    assert(neutral_line(lines[k], name_line));
                    lemma_scan_update_neutral(lines, k, replacement, name_line);
                    let updated = lines.update(k, replacement);
                    assert forall|i: int| 0 <= i < updated.len() implies !(
                    #[trigger] updated[i]).contains('\n') by {
                        if i != k {
                            assert(updated[i] == lines[i]);
                        }
                    }
                },
                None => {
                    lemma_scan_insert_neutral(lines, end, replacement, name_line);
                    let inserted = lines.insert(end, replacement);
                    assert forall|i: int| 0 <= i < inserted.len() implies !(
                    #[trigger] inserted[i]).contains('\n') by {
                        if i < end {
                            assert(inserted[i] == lines[i]);
                        } else if i > end {
                            assert(inserted[i] == lines[i - 1]);
                        }
                    }
                },
            }
        },
    }
}

/// Adding the target's options changes no preset header and no name line.
proof fn lemma_ensure_options_keeps_scan(
    lines: Seq<Seq<char>>,
    index: usize,
    target: ExportTarget,
    name_line: Seq<char>,
)
    requires
        name_line.len() > 0,
        name_line[0] == 'n',
        no_line_breaks(lines),
    ensures
        preset_scan(spec_ensure_options(lines, index, target), name_line) == preset_scan(
            lines,
            name_line,
        ),
        no_line_breaks(spec_ensure_options(lines, index, target)),
{
    reveal_strlit("binary_format/architecture=\"x86_64\"");
    reveal_strlit("binary_format/embed_pck=false");
    reveal_strlit("[preset.");
    reveal_strlit(".options]");
    let defaults = default_options(target);
    assert forall|i: int| 0 <= i < defaults.len() implies neutral_line(#[trigger] defaults[i], name_line) by {
        assert(defaults[i][0] == 'b');
    }
    assert forall|i: int| 0 <= i < defaults.len() implies !(#[trigger] defaults[i]).contains('\n') by {
        if defaults[i].contains('\n') {
            let j = choose|j: int| 0 <= j < defaults[i].len() && defaults[i][j] == '\n';
        }
    }
    if defaults.len() > 0 {
        let header = options_header_text(index);
        lemma_section_bounds_range(lines, header);
        match spec_section_bounds(lines, header) {
            Some((start, end)) => {
                lemma_add_missing_neutral(lines, start, end, defaults, name_line);
            },
            None => {
                let padded = pad_with_empty_line(lines);
                if lines.len() > 0 && lines.last().len() > 0 {
                    assert(neutral_line(Seq::empty(), name_line));
                    lemma_scan_push_neutral(lines, Seq::empty(), name_line);
                }
                law_options_header_is_no_preset_header(index);
                assert(header[0] == '[');
                assert(neutral_line(header, name_line));
                lemma_scan_push_neutral(padded, header, name_line);
                let headed = padded.push(header);
                crate::text::lemma_decimal_digits(index as nat);
                let digits = decimal(index as nat);
                assert(!digits.contains('\n')) by {
                    if digits.contains('\n') {
                        let j = choose|j: int| 0 <= j < digits.len() && digits[j] == '\n';
                        assert(is_digit(digits[j]));
                    }
                }
                lemma_concat_lacks("[preset."@, digits, '\n');
                lemma_concat_lacks("[preset."@ + digits, ".options]"@, '\n');
                assert forall|i: int| 0 <= i < headed.len() implies !(#[trigger] headed[i]).contains(
                    '\n',
                ) by {
                    if i < lines.len() {
                        assert(headed[i] == lines[i]);
                    } else if i < padded.len() {
                        assert(headed[i].len() == 0);
                    }
                }
                lemma_add_missing_neutral(headed, padded.len() as int, padded.len() + 1int, defaults, name_line);
            },
        }
    }
}

} // verus!

verus! {

/// The section under `header` starts at the first line equal to it and runs
/// to the next line that starts with `[` (or to the end): every line inside
/// it, empty lines included, does not start with `[`. Without such a line
/// there is no section.
pub proof fn law_section_spans_to_next_bracket(lines: Seq<Seq<char>>, header: Seq<char>)
    ensures
        spec_section_bounds(lines, header) is None <==> !lines.contains(header),
        spec_section_bounds(lines, header) matches Some((start, end)) ==> {
            &&& 0 <= start < end <= lines.len()
            &&& lines[start] == header
            &&& forall|j: int| 0 <= j < start ==> lines[j] != header
            &&& forall|j: int| start < j < end ==> !has_prefix(#[trigger] lines[j], "["@)
            &&& end < lines.len() ==> has_prefix(lines[end], "["@)
        },
{
    lemma_first_match(lines, equals_line(header));
    if lines.contains(header) {
        let i = choose|i: int| 0 <= i < lines.len() && lines[i] == header;
        assert(equals_line(header)(lines[i]));
    }
    match first_match(lines, equals_line(header)) {
        None => {},
        Some(start) => {
            let tail = lines.skip(start + 1);
            lemma_first_match(tail, section_opener());
            assert(lines[start] == header);
            assert forall|j: int| 0 <= j < start implies lines[j] != header by {
                assert(!equals_line(header)(lines[j]));
            }
            let end = (spec_section_bounds(lines, header)->0).1;
            assert forall|j: int| start < j < end implies !has_prefix(#[trigger] lines[j], "["@) by {
                assert(tail[j - start - 1] == lines[j]);
                assert(!section_opener()(tail[j - start - 1]));
            }
            if end < lines.len() {
                assert(tail[end - start - 1] == lines[end]);
            }
        },
    }
}

/// Setting a key in a preset replaces the first line of the preset's section
/// (from its header to the next line that starts with `[`) that starts with
/// `<key>=`, wherever it stands in the section, empty lines included.
pub proof fn law_key_line_replaced_in_section(
    lines: Seq<Seq<char>>,
    index: usize,
    key: Seq<char>,
    value: Seq<char>,
    start: int,
    end: int,
    k: int,
)
    requires
        0 <= start < lines.len(),
        lines[start] == preset_header_text(index),
        forall|j: int| 0 <= j < start ==> lines[j] != preset_header_text(index),
        start < k < end <= lines.len(),
        forall|j: int| start < j < end ==> !has_prefix(#[trigger] lines[j], "["@),
        end < lines.len() ==> has_prefix(lines[end], "["@),
        has_prefix(lines[k], key + "="@),
        forall|j: int| start < j < k ==> !has_prefix(#[trigger] lines[j], key + "="@),
    ensures
        spec_ensure_preset_key(lines, index, key, value) == lines.update(
            k,
            key + "=\""@ + value + "\""@,
        ),
{
    lemma_section_at(lines, preset_header_text(index), start, end);
    let region = lines.subrange(start + 1, end);
    lemma_first_match(region, key_setter(key));
    assert(key_setter(key)(region[k - start - 1]));
    let m = first_match(region, key_setter(key))->0;
    if m < k - start - 1 {
        assert(region[m] == lines[start + 1 + m]);
    }
    if m > k - start - 1 {
        assert(!key_setter(key)(region[k - start - 1]));
    }
}

/// Setting a key that the preset's section (from its header to the next
/// line that starts with `[`) does not set yet adds its line at the end of
/// the section.
pub proof fn law_key_line_added_to_section(
    lines: Seq<Seq<char>>,
    index: usize,
    key: Seq<char>,
    value: Seq<char>,
    start: int,
    end: int,
)
    requires
        0 <= start < lines.len(),
        lines[start] == preset_header_text(index),
        forall|j: int| 0 <= j < start ==> lines[j] != preset_header_text(index),
        start < end <= lines.len(),
        forall|j: int| start < j < end ==> !has_prefix(#[trigger] lines[j], "["@),
        end < lines.len() ==> has_prefix(lines[end], "["@),
        forall|j: int| start < j < end ==> !has_prefix(#[trigger] lines[j], key + "="@),
    ensures
        spec_ensure_preset_key(lines, index, key, value) == lines.insert(
            end,
            key + "=\""@ + value + "\""@,
        ),
{
    lemma_section_at(lines, preset_header_text(index), start, end);
    let region = lines.subrange(start + 1, end);
    lemma_first_match(region, key_setter(key));
    assert forall|j: int| 0 <= j < region.len() implies !key_setter(key)(#[trigger] region[j]) by {
        assert(region[j] == lines[start + 1 + j]);
    }
}

/// The section bounds are the first header line and the next line that
/// starts with `[`.
proof fn lemma_section_at(lines: Seq<Seq<char>>, header: Seq<char>, start: int, end: int)
    requires
        0 <= start < lines.len(),
        lines[start] == header,
        forall|j: int| 0 <= j < start ==> lines[j] != header,
        start < end <= lines.len(),
        forall|j: int| start < j < end ==> !has_prefix(#[trigger] lines[j], "["@),
        end < lines.len() ==> has_prefix(lines[end], "["@),
    ensures
        spec_section_bounds(lines, header) == Some((start, end)),
{
    lemma_first_match(lines, equals_line(header));
    assert(equals_line(header)(lines[start]));
    let s = first_match(lines, equals_line(header))->0;
    if s < start {
        assert(!equals_line(header)(lines[s]) || lines[s] != header);
    }
    assert(s == start);
    let tail = lines.skip(start + 1);
    lemma_first_match(tail, section_opener());
    match first_match(tail, section_opener()) {
        Some(offset) => {
            assert(tail[offset] == lines[start + 1 + offset]);
            if start + 1 + offset < end {
                assert(!has_prefix(lines[start + 1 + offset], "["@));
            }
            if start + 1 + offset > end {
                assert(tail[end - start - 1] == lines[end]);
                assert(!section_opener()(tail[end - start - 1]));
            }
        },
        None => {
            if end < lines.len() {
                assert(tail[end - start - 1] == lines[end]);
            }
        },
    }
}

} // verus!

verus! {

/// Some line strictly between `start` and `end` starts with `prefix`.
pub open spec fn some_line_starts_with(lines: Seq<Seq<char>>, start: int, end: int, prefix: Seq<char>) -> bool {
    exists|j: int| start < j < end && has_prefix(#[trigger] lines[j], prefix)
}

proof fn lemma_all_options_set(lines: Seq<Seq<char>>, start: int, end: int, defaults: Seq<Seq<char>>)
    requires
        forall|i: int| 0 <= i < defaults.len() ==> some_line_starts_with(lines, start, end, option_key(#[trigger] defaults[i]) + "="@),
    ensures
        add_missing_options(lines, start, end, defaults) == lines,
    decreases defaults.len(),
{
    if defaults.len() > 0 {
        let rest = defaults.drop_first();
        assert forall|i: int| 0 <= i < rest.len() implies some_line_starts_with(lines, start, end, option_key(#[trigger] rest[i]) + "="@) by {
            assert(rest[i] == defaults[i + 1]);
        }
        lemma_all_options_set(lines, start, end, rest);
        assert(some_line_starts_with(lines, start, end, option_key(defaults[0]) + "="@));
        let j = choose|j: int| start < j < end && has_prefix(#[trigger] lines[j], option_key(defaults[0]) + "="@);
        assert(sets_key(lines[j], option_key(defaults[0])));
    }
}

/// When the options section of preset `index` (from its header to the next
/// line that starts with `[`) already has, for every option the target
/// needs, some line starting with `<key>=` (wherever it stands in the
/// section, empty lines included), making sure of the options changes
/// nothing: the user's values stay.
pub proof fn law_set_options_are_kept(
    lines: Seq<Seq<char>>,
    index: usize,
    target: ExportTarget,
    start: int,
    end: int,
)
    requires
        0 <= start < lines.len(),
        lines[start] == options_header_text(index),
        forall|j: int| 0 <= j < start ==> lines[j] != options_header_text(index),
        start < end <= lines.len(),
        forall|j: int| start < j < end ==> !has_prefix(#[trigger] lines[j], "["@),
        end < lines.len() ==> has_prefix(lines[end], "["@),
        forall|i: int|
            0 <= i < default_options(target).len() ==> some_line_starts_with(
                lines,
                start,
                end,
                option_key(#[trigger] default_options(target)[i]) + "="@,
            ),
    ensures
        spec_ensure_options(lines, index, target) == lines,
{
    lemma_section_at(lines, options_header_text(index), start, end);
    lemma_all_options_set(lines, start, end, default_options(target));
}

} // verus!

verus! {

proof fn lemma_option_keys_of_defaults()
    ensures
        option_key("binary_format/architecture=\"x86_64\""@) == "binary_format/architecture"@,
        option_key("binary_format/embed_pck=false"@) == "binary_format/embed_pck"@,
{
    reveal_strlit("binary_format/architecture=\"x86_64\"");
    reveal_strlit("binary_format/architecture");
    reveal_strlit("binary_format/embed_pck=false");
    reveal_strlit("binary_format/embed_pck");
    let a = "binary_format/architecture=\"x86_64\""@;
    lemma_find_char(a, '=');
    assert(a[26] == '=');
    assert(forall|j: int| 0 <= j < 26 ==> a[j] != '=');
    assert(a.subrange(0, 26) =~= "binary_format/architecture"@);
    let b = "binary_format/embed_pck=false"@;
    lemma_find_char(b, '=');
    assert(b[23] == '=');
    assert(forall|j: int| 0 <= j < 23 ==> b[j] != '=');
    assert(b.subrange(0, 23) =~= "binary_format/embed_pck"@);
}

} // verus!

verus! {

/// A Windows preset whose options section (from its header to the next line
/// that starts with `[`) sets neither the architecture nor the embedding of
/// the pack gets both lines added at the end of the section, the
/// architecture first; a macOS preset needs no options and is left as it is.
pub proof fn law_missing_options_added(lines: Seq<Seq<char>>, index: usize, start: int, end: int)
    requires
        0 <= start < lines.len(),
        lines[start] == options_header_text(index),
        forall|j: int| 0 <= j < start ==> lines[j] != options_header_text(index),
        start < end <= lines.len(),
        forall|j: int| start < j < end ==> !has_prefix(#[trigger] lines[j], "["@),
        end < lines.len() ==> has_prefix(lines[end], "["@),
        !some_line_starts_with(lines, start, end, "binary_format/architecture="@),
        !some_line_starts_with(lines, start, end, "binary_format/embed_pck="@),
    ensures
        spec_ensure_options(lines, index, ExportTarget::Windows) == lines.insert(
            end,
            "binary_format/architecture=\"x86_64\""@,
        ).insert(end + 1, "binary_format/embed_pck=false"@),
        spec_ensure_options(lines, index, ExportTarget::Macos) == lines,
{
    reveal_strlit("binary_format/architecture=\"x86_64\"");
    reveal_strlit("binary_format/architecture");
    reveal_strlit("binary_format/embed_pck=false");
    reveal_strlit("binary_format/embed_pck");
    reveal_strlit("=");
    reveal_strlit("binary_format/architecture=");
    reveal_strlit("binary_format/embed_pck=");
    lemma_section_at(lines, options_header_text(index), start, end);
    lemma_option_keys_of_defaults();
    let defaults = default_options(ExportTarget::Windows);
    let arch = "binary_format/architecture=\"x86_64\""@;
    let embed = "binary_format/embed_pck=false"@;
    assert(defaults[0] == arch);
    assert(defaults[1] == embed);
    assert("binary_format/architecture"@ + "="@ =~= "binary_format/architecture="@);
    assert("binary_format/embed_pck"@ + "="@ =~= "binary_format/embed_pck="@);
    assert(!sets_key_between(lines, start, end, "binary_format/architecture"@)) by {
        if sets_key_between(lines, start, end, "binary_format/architecture"@) {
            let j = choose|j: int| start < j < end && sets_key(#[trigger] lines[j], "binary_format/architecture"@);
            assert(has_prefix(lines[j], "binary_format/architecture="@));
        }
    }
    let lines1 = lines.insert(end, arch);
    assert(!sets_key_between(lines1, start, end + 1, "binary_format/embed_pck"@)) by {
        if sets_key_between(lines1, start, end + 1, "binary_format/embed_pck"@) {
            let j = choose|j: int| start < j < end + 1 && sets_key(#[trigger] lines1[j], "binary_format/embed_pck"@);
            if j == end {
                assert(lines1[j] == arch);
                assert(lines1[j].subrange(0, 24)[14] == 'e');
            } else {
                assert(lines1[j] == lines[j]);
                assert(has_prefix(lines[j], "binary_format/embed_pck="@));
            }
        }
    }
    let rest = defaults.drop_first();
    assert(rest.drop_first() =~= Seq::<Seq<char>>::empty());
    assert(rest[0] == embed);
    assert(defaults.len() == 2);
    assert(option_key(defaults[0]) == "binary_format/architecture"@);
    assert(option_key(rest[0]) == "binary_format/embed_pck"@);
    let lines2 = lines1.insert(end + 1, embed);
    assert(add_missing_options(lines2, start, end + 2, rest.drop_first()) == lines2);
    assert(add_missing_options(lines1, start, end + 1, rest) == lines2);
    assert(add_missing_options(lines, start, end, defaults) == lines2);
}

} // verus!

verus! {

/// Inserting option lines keeps every line that was there.
proof fn lemma_add_missing_keeps(
    lines: Seq<Seq<char>>,
    start: int,
    end: int,
    defaults: Seq<Seq<char>>,
    x: Seq<char>,
)
    requires
        0 <= end <= lines.len(),
        lines.contains(x),
    ensures
        add_missing_options(lines, start, end, defaults).contains(x),
    decreases defaults.len(),
{
    if defaults.len() > 0 {
        if sets_key_between(lines, start, end, option_key(defaults[0])) {
            lemma_add_missing_keeps(lines, start, end, defaults.drop_first(), x);
        } else {
            let inserted = lines.insert(end, defaults[0]);
            let i = choose|i: int| 0 <= i < lines.len() && lines[i] == x;
            if i < end {
                assert(inserted[i] == x);
            } else {
                assert(inserted[i + 1] == x);
            }
            lemma_add_missing_keeps(inserted, start, end + 1, defaults.drop_first(), x);
        }
    }
}

/// Making sure of the options keeps every line that was there.
proof fn lemma_ensure_options_keeps(lines: Seq<Seq<char>>, index: usize, target: ExportTarget, x: Seq<char>)
    requires
        lines.contains(x),
    ensures
        spec_ensure_options(lines, index, target).contains(x),
{
    let defaults = default_options(target);
    if defaults.len() > 0 {
        let header = options_header_text(index);
        lemma_section_bounds_range(lines, header);
        match spec_section_bounds(lines, header) {
            Some((start, end)) => {
                lemma_add_missing_keeps(lines, start, end, defaults, x);
            },
            None => {
                let padded = pad_with_empty_line(lines);
                let i = choose|i: int| 0 <= i < lines.len() && lines[i] == x;
                assert(padded[i] == x);
                let headed = padded.push(header);
                assert(headed[i] == x);
                lemma_add_missing_keeps(headed, padded.len() as int, padded.len() + 1int, defaults, x);
            },
        }
    }
}

/// Setting a key in a preset whose header is among the lines leaves the key
/// line among them.
proof fn lemma_ensure_key_sets(lines: Seq<Seq<char>>, index: usize, key: Seq<char>, value: Seq<char>)
    requires
        lines.contains(preset_header_text(index)),
    ensures
        spec_ensure_preset_key(lines, index, key, value).contains(key_line_text(key, value)),
{
    law_section_spans_to_next_bracket(lines, preset_header_text(index));
    lemma_section_bounds_range(lines, preset_header_text(index));
    let (start, end) = spec_section_bounds(lines, preset_header_text(index))->0;
    let region = lines.subrange(start + 1, end);
    lemma_first_match(region, key_setter(key));
    let result = spec_ensure_preset_key(lines, index, key, value);
    match first_match(region, key_setter(key)) {
        Some(offset) => {
            assert(result[start + 1 + offset] == key_line_text(key, value));
        },
        None => {
            assert(result[end] == key_line_text(key, value));
        },
    }
}

/// After the export has made sure of its preset, the written file holds the
/// line that makes the preset ship the stage manifest, provided the name
/// holds no line break and a preset found by name has its plain header
/// `[preset.<n>]` among the lines.
pub proof fn law_updated_preset_ships_manifest(
    existing: Option<Seq<char>>,
    name: Seq<char>,
    target: ExportTarget,
    force: bool,
)
    requires
        !name.contains('\n'),
        existing matches Some(text) ==> {
            let scan = preset_scan(text_lines(text), name_line_text(name));
            &&& !(scan.1 is None && force && scan.2 == Some(usize::MAX))
            &&& scan.1 matches Some(i) ==> text_lines(text).contains(preset_header_text(i))
        },
        spec_updated_export_preset(existing, name, target, force) is Some,
    ensures
        text_lines(spec_updated_export_preset(existing, name, target, force)->0).contains(
            "include_filter=\"pipeline/ldtk/stage_manifest.txt\""@,
        ),
{
    reveal_strlit("include_filter=\"pipeline/ldtk/stage_manifest.txt\"");
    reveal_strlit("include_filter");
    reveal_strlit("=\"");
    reveal_strlit("\"");
    reveal_strlit("pipeline/ldtk/stage_manifest.txt");
    let manifest_line = "include_filter=\"pipeline/ldtk/stage_manifest.txt\""@;
    assert(key_line_text("include_filter"@, STAGE_MANIFEST_FILTER@) =~= manifest_line);
    let name_line = name_line_text(name);
    reveal_strlit("name=\"");
    assert(name_line[0] == 'n');
    match existing {
        None => {
            lemma_default_preset_shape(0, name, target);
            let lines = default_preset_lines(0, name, target);
            lemma_text_lines_of_crlf_join(lines);
            law_new_preset_includes_manifest(0, name, target);
        },
        Some(text) => {
            let lines = text_lines(text);
            lemma_text_lines_no_breaks(text);
            let scan = preset_scan(lines, name_line);
            let index: usize = match scan.1 {
                Some(i) => i,
                None => next_preset_number(scan.2) as usize,
            };
            let with_preset = match scan.1 {
                Some(_) => lines,
                None => with_new_preset(lines, index, name, target),
            };
            if scan.1 is None {
                lemma_default_preset_shape(index, name, target);
                let fresh = default_preset_lines(index, name, target);
                lemma_text_lines_of_crlf_join(fresh);
                let padded = pad_with_empty_line(lines);
                assert(with_preset == padded + fresh);
                assert(with_preset[padded.len() as int] == fresh[0]);
                assert(fresh[0] == preset_header_text(index));
                assert(no_line_breaks(padded)) by {
                    assert forall|i: int| 0 <= i < padded.len() implies !(#[trigger] padded[i]).contains(
                        '\n',
                    ) by {
                        if i < lines.len() {
                            assert(padded[i] == lines[i]);
                        }
                    }
                }
                assert forall|i: int| 0 <= i < with_preset.len() implies !(
                #[trigger] with_preset[i]).contains('\n') by {
                    if i < padded.len() {
                        assert(with_preset[i] == padded[i]);
                    } else {
                        assert(with_preset[i] == fresh[i - padded.len()]);
                    }
                }
            }
            assert(with_preset.contains(preset_header_text(index)));
            assert(no_line_breaks(with_preset));
            let keyed = spec_ensure_preset_key(
                with_preset,
                index,
                "include_filter"@,
                STAGE_MANIFEST_FILTER@,
            );
            lemma_ensure_key_sets(with_preset, index, "include_filter"@, STAGE_MANIFEST_FILTER@);
            lemma_ensure_key_keeps_scan(with_preset, index, name_line);
            let optioned = spec_ensure_options(keyed, index, target);
            lemma_ensure_options_keeps(keyed, index, target, manifest_line);
            lemma_ensure_options_keeps_scan(keyed, index, target, name_line);
            lemma_text_lines_of_crlf_join_any(optioned);
            let i = choose|i: int| 0 <= i < optioned.len() && optioned[i] == manifest_line;
            if optioned.last().len() == 0 {
                assert(i != optioned.len() - 1);
                assert(optioned.drop_last()[i] == manifest_line);
            }
        },
    }
}

} // verus!
