//! Text as a sequence of lines: splitting as `str::lines` does, joining with
//! a separator, trimming white space, and searching lists of lines.
use vstd::prelude::*;
use crate::text::{find, find_char, lemma_find_char};

verus! {

/// The character views of a list of strings.
pub open spec fn views(lines: Seq<String>) -> Seq<Seq<char>> {
    lines.map_values(|line: String| line@)
}

/// The parts with `sep` between each two neighbours.
pub open spec fn join(parts: Seq<Seq<char>>, sep: Seq<char>) -> Seq<char>
    decreases parts.len(),
{
    if parts.len() == 0 {
        Seq::empty()
    } else if parts.len() == 1 {
        parts[0]
    } else {
        join(parts.drop_last(), sep) + sep + parts.last()
    }
}

/// The position of the first element that satisfies `pred`.
pub open spec fn first_match<A>(s: Seq<A>, pred: spec_fn(A) -> bool) -> Option<int>
    decreases s.len(),
{
    if s.len() == 0 {
        None
    } else if pred(s[0]) {
        Some(0)
    } else {
        match first_match(s.drop_first(), pred) {
            Some(k) => Some(k + 1),
            None => None,
        }
    }
}

pub proof fn lemma_first_match<A>(s: Seq<A>, pred: spec_fn(A) -> bool)
    ensures
        first_match(s, pred) is None <==> forall|i: int| 0 <= i < s.len() ==> !pred(#[trigger] s[i]),
        first_match(s, pred) matches Some(k) ==> 0 <= k < s.len() && pred(s[k]) && forall|j: int|
            0 <= j < k ==> !pred(#[trigger] s[j]),
    decreases s.len(),
{
    if s.len() > 0 {
        lemma_first_match(s.drop_first(), pred);
        if !pred(s[0]) {
            if first_match(s, pred) is None {
                assert forall|i: int| 0 <= i < s.len() implies !pred(#[trigger] s[i]) by {
                    if i > 0 {
                        assert(s[i] == s.drop_first()[i - 1]);
                    }
                }
            } else {
                let k = first_match(s, pred)->0;
                assert(s[k] == s.drop_first()[k - 1]);
                assert forall|j: int| 0 <= j < k implies !pred(#[trigger] s[j]) by {
                    if j > 0 {
                        assert(s[j] == s.drop_first()[j - 1]);
                    }
                }
                assert(!pred(s.drop_first()[k - 1]) ==> false);
            }
        }
    }
}

/// A line without the carriage return of a `\r\n` ending.
pub open spec fn strip_cr(line: Seq<char>) -> Seq<char> {
    if line.len() > 0 && line.last() == '\r' {
        line.drop_last()
    } else {
        line
    }
}

/// The lines of a text as `str::lines` gives them: split at `\n`, a `\r`
/// just before it removed, no empty line after a final `\n`.
pub open spec fn text_lines(s: Seq<char>) -> Seq<Seq<char>>
    decreases s.len(),
{
    if s.len() == 0 {
        Seq::empty()
    } else {
        match find_char(s, '\n') {
            None => seq![s],
            Some(k) => {
                proof {
                    lemma_find_char(s, '\n');
                }
                seq![strip_cr(s.subrange(0, k))] + text_lines(s.skip(k + 1))
            },
        }
    }
}

/// A white-space character in the sense of `char::is_whitespace` (Unicode
/// `White_Space`).
pub open spec fn is_white_space(c: char) -> bool {
    let u = c as int;
    (9 <= u <= 13) || u == 0x20 || u == 0x85 || u == 0xA0 || u == 0x1680 || (0x2000 <= u
        <= 0x200A) || u == 0x2028 || u == 0x2029 || u == 0x202F || u == 0x205F || u == 0x3000
}

pub open spec fn trim_start(s: Seq<char>) -> Seq<char>
    decreases s.len(),
{
    if s.len() > 0 && is_white_space(s[0]) {
        trim_start(s.drop_first())
    } else {
        s
    }
}

pub open spec fn trim_end(s: Seq<char>) -> Seq<char>
    decreases s.len(),
{
    if s.len() > 0 && is_white_space(s.last()) {
        trim_end(s.drop_last())
    } else {
        s
    }
}

/// `str::trim`: white space removed from both ends.
pub open spec fn trim(s: Seq<char>) -> Seq<char> {
    trim_end(trim_start(s))
}

proof fn lemma_views_push(lines: Seq<String>, line: String)
    ensures
        views(lines.push(line)) == views(lines).push(line@),
{
    assert(views(lines.push(line)) =~= views(lines).push(line@));
}

/// Joins the strings with `sep` between neighbours.
pub fn join_texts(parts: &Vec<String>, sep: &str) -> (joined: String)
    ensures
        joined@ == join(views(parts@), sep@),
{
    let mut joined = String::new();
    let n = parts.len();
    let mut i: usize = 0;
    assert(views(parts@).take(0) =~= Seq::<Seq<char>>::empty());
    while i < n
        invariant
            n == parts@.len(),
            i <= n,
            joined@ == join(views(parts@).take(i as int), sep@),
        decreases n - i,
    {
        let ghost vs = views(parts@);
        assert(vs.take(i + 1).drop_last() =~= vs.take(i as int));
        assert(vs.take(i + 1).last() == parts@[i as int]@);
        if i > 0 {
            joined.append(sep);
        } else {
            assert(vs.take(1) =~= seq![parts@[0]@]);
        }
        joined.append(parts[i].as_str());
        i = i + 1;
    }
    assert(views(parts@).take(n as int) =~= views(parts@));
    joined
}

/// Builds a string from the characters of `s` between `from` and `to`.
pub fn slice_text(s: &str, from: usize, to: usize) -> (part: String)
    requires
        from <= to <= s@.len(),
    ensures
        part@ == s@.subrange(from as int, to as int),
{
    String::from_str(s.substring_char(from, to))
}

/// The lines of `text`, as `str::lines` splits them.
pub fn split_lines(text: &str) -> (lines: Vec<String>)
    ensures
        views(lines@) == text_lines(text@),
{
    let mut lines: Vec<String> = Vec::new();
    let mut rest: &str = text;
    let mut done = false;
    while !done
        invariant
            views(lines@) + (if done {
                Seq::<Seq<char>>::empty()
            } else {
                text_lines(rest@)
            }) == text_lines(text@),
        decreases rest@.len(), if done {
            0int
        } else {
            1int
        },
    {
        let n = rest.unicode_len();
        if n == 0 {
            assert(views(lines@) + text_lines(rest@) =~= views(lines@));
            done = true;
        } else {
            let ghost before = lines@;
            match find(rest, '\n') {
                None => {
                    lines.push(String::from_str(rest));
                    proof {
                        lemma_views_push(before, lines@.last());
                        assert(views(lines@) =~= views(before) + text_lines(rest@));
                    }
                    done = true;
                },
                Some(k) => {
                    proof {
                        lemma_find_char(rest@, '\n');
                    }
                    let end = if k > 0 && rest.get_char(k - 1) == '\r' {
                        k - 1
                    } else {
                        k
                    };
                    let line = slice_text(rest, 0, end);
                    assert(line@ == strip_cr(rest@.subrange(0, k as int)));
                    let tail = rest.substring_char(k + 1, n);
                    assert(tail@ =~= rest@.skip(k + 1));
                    lines.push(line);
                    proof {
                        lemma_views_push(before, line);
                        assert(views(lines@) + text_lines(tail@) =~= views(before) + text_lines(
                            rest@,
                        ));
                    }
                    rest = tail;
                },
            }
        }
    }
    assert(views(lines@) =~= views(lines@) + Seq::<Seq<char>>::empty());
    lines
}

/// Whether `c` is white space in the sense of `char::is_whitespace`.
fn is_white_space_exec(c: char) -> (ws: bool)
    ensures
        ws == is_white_space(c),
{
    let u = c as u32;
    (9 <= u && u <= 13) || u == 0x20 || u == 0x85 || u == 0xA0 || u == 0x1680 || (0x2000 <= u
        && u <= 0x200A) || u == 0x2028 || u == 0x2029 || u == 0x202F || u == 0x205F || u == 0x3000
}

proof fn lemma_trim_start_skip(s: Seq<char>, i: int)
    requires
        0 <= i <= s.len(),
        forall|j: int| 0 <= j < i ==> is_white_space(#[trigger] s[j]),
    ensures
        trim_start(s) == trim_start(s.skip(i)),
    decreases i,
{
    if i > 0 {
        assert(s.drop_first().skip(i - 1) =~= s.skip(i));
        assert forall|j: int| 0 <= j < i - 1 implies is_white_space(#[trigger] s.drop_first()[j]) by {
            assert(s.drop_first()[j] == s[j + 1]);
        }
        lemma_trim_start_skip(s.drop_first(), i - 1);
    } else {
        assert(s.skip(0) =~= s);
    }
}

proof fn lemma_trim_end_take(s: Seq<char>, i: int)
    requires
        0 <= i <= s.len(),
        forall|j: int| i <= j < s.len() ==> is_white_space(#[trigger] s[j]),
    ensures
        trim_end(s) == trim_end(s.take(i)),
    decreases s.len() - i,
{
    if i < s.len() {
        assert(s.drop_last().take(i) =~= s.take(i));
        assert forall|j: int| i <= j < s.drop_last().len() implies is_white_space(
            #[trigger] s.drop_last()[j],
        ) by {
            assert(s.drop_last()[j] == s[j]);
        }
        lemma_trim_end_take(s.drop_last(), i);
    } else {
        assert(s.take(i) =~= s);
    }
}

/// `str::trim`: `s` without white space at either end.
pub fn trim_text(s: &str) -> (trimmed: String)
    ensures
        trimmed@ == trim(s@),
{
    let n = s.unicode_len();
    let mut start: usize = 0;
    while start < n && is_white_space_exec(s.get_char(start))
        invariant
            n == s@.len(),
            start <= n,
            forall|j: int| 0 <= j < start ==> is_white_space(#[trigger] s@[j]),
        decreases n - start,
    {
        start = start + 1;
    }
    proof {
        lemma_trim_start_skip(s@, start as int);
    }
    let ghost after_start = s@.skip(start as int);
    assert(trim_start(after_start) == after_start);
    let mut end: usize = n;
    while end > start && is_white_space_exec(s.get_char(end - 1))
        invariant
            n == s@.len(),
            start <= end <= n,
            forall|j: int| end <= j < n ==> is_white_space(#[trigger] s@[j]),
        decreases end,
    {
        end = end - 1;
    }
    proof {
        assert forall|j: int| end - start <= j < after_start.len() implies is_white_space(
            #[trigger] after_start[j],
        ) by {
            assert(after_start[j] == s@[start + j]);
        }
        lemma_trim_end_take(after_start, end - start);
        let kept = after_start.take(end - start);
        assert(kept =~= s@.subrange(start as int, end as int));
        if kept.len() > 0 {
            assert(kept.last() == s@[end - 1]);
        }
    }
    slice_text(s, start, end)
}

} // verus!

verus! {

/// Joining splits off the first part in front.
pub proof fn lemma_join_front(parts: Seq<Seq<char>>, sep: Seq<char>)
    requires
        parts.len() >= 2,
    ensures
        join(parts, sep) == parts[0] + sep + join(parts.drop_first(), sep),
    decreases parts.len(),
{
    if parts.len() == 2 {
        assert(parts.drop_last().len() == 1);
        assert(parts.drop_first().len() == 1);
        assert(join(parts.drop_last(), sep) == parts[0]);
        assert(join(parts.drop_first(), sep) == parts[1]);
        assert(join(parts, sep) == join(parts.drop_last(), sep) + sep + parts.last());
    } else {
        lemma_join_front(parts.drop_last(), sep);
        assert(parts.drop_first().drop_last() =~= parts.drop_last().drop_first());
        assert(parts.drop_last()[0] == parts[0]);
        assert(parts.drop_first().last() == parts.last());
        let x = join(parts.drop_last().drop_first(), sep);
        assert(join(parts.drop_first(), sep) == x + sep + parts.last());
        assert((parts[0] + sep + x) + sep + parts.last() =~= parts[0] + sep + (x + sep
            + parts.last()));
    }
}

/// The first line break in `a` followed by a line break is right after `a`
/// when `a` has none.
pub proof fn lemma_text_lines_front(a: Seq<char>, b: Seq<char>)
    requires
        !a.contains('\n'),
    ensures
        text_lines(a + "\n"@ + b) == seq![strip_cr(a)] + text_lines(b),
{
    reveal_strlit("\n");
    let s = a + "\n"@ + b;
    lemma_find_char(s, '\n');
    assert(s[a.len() as int] == '\n');
    let k = find_char(s, '\n')->0;
    if k < a.len() {
        assert(s[k] == a[k]);
    }
    assert(s.subrange(0, a.len() as int) =~= a);
    assert(s.skip(a.len() + 1int) =~= b);
}

/// Splitting the lines joined by `\n` gives them back, when none holds a
/// line break, none but the last ends in a carriage return, and the last is
/// not empty.
pub proof fn lemma_text_lines_of_join(parts: Seq<Seq<char>>)
    requires
        forall|i: int| 0 <= i < parts.len() ==> !(#[trigger] parts[i]).contains('\n'),
        forall|i: int|
            0 <= i < parts.len() - 1 ==> strip_cr(#[trigger] parts[i]) == parts[i],
        parts.len() > 0 ==> parts.last().len() > 0,
    ensures
        text_lines(join(parts, "\n"@)) == parts,
    decreases parts.len(),
{
    if parts.len() == 0 {
        assert(text_lines(Seq::<char>::empty()) =~= Seq::<Seq<char>>::empty());
    } else if parts.len() == 1 {
        lemma_find_char(parts[0], '\n');
        assert(text_lines(parts[0]) =~= seq![parts[0]]);
        assert(parts =~= seq![parts[0]]);
    } else {
        let rest = parts.drop_first();
        assert forall|i: int| 0 <= i < rest.len() implies !(#[trigger] rest[i]).contains('\n') by {
            assert(rest[i] == parts[i + 1]);
        }
        assert forall|i: int| 0 <= i < rest.len() - 1 implies strip_cr(#[trigger] rest[i])
            == rest[i] by {
            assert(rest[i] == parts[i + 1]);
        }
        lemma_text_lines_of_join(rest);
        lemma_join_front(parts, "\n"@);
        assert(!parts[0].contains('\n'));
        assert(strip_cr(parts[0]) == parts[0]);
        lemma_text_lines_front(parts[0], join(rest, "\n"@));
        assert(parts =~= seq![parts[0]] + rest);
    }
}

/// A filter that every element passes keeps the sequence.
pub proof fn lemma_filter_keeps_all<A>(s: Seq<A>, pred: spec_fn(A) -> bool)
    requires
        forall|i: int| 0 <= i < s.len() ==> pred(#[trigger] s[i]),
    ensures
        s.filter(pred) == s,
    decreases s.len(),
{
    reveal(Seq::filter);
    if s.len() > 0 {
        assert forall|i: int| 0 <= i < s.drop_last().len() implies pred(#[trigger] s.drop_last()[i]) by {
            assert(s.drop_last()[i] == s[i]);
        }
        lemma_filter_keeps_all(s.drop_last(), pred);
        assert(s.drop_last().push(s.last()) =~= s);
    }
}

/// Trimming leaves a text alone that starts and ends with a character that
/// is no white space.
pub proof fn lemma_trim_unchanged(s: Seq<char>)
    requires
        s.len() > 0,
        !is_white_space(s[0]),
        !is_white_space(s.last()),
    ensures
        trim(s) == s,
{
}

} // verus!
