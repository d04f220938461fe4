//! The text figures: their names, and filling in a figure's template.

use crate::text::{
    contains_chars, contains_text, copy_range, ends_with, ends_with_chars, join_chars, join_with,
    lemma_split_on_nonempty, matches_at, replace_chars, replaced, rows, split_chars, split_on,
    starts_with, texts, to_chars, to_text, trim_end_chars, trimmed_end,
};
use vstd::prelude::*;

verus! {

/// The last component of a path whose components are separated by `/`.
pub open spec fn file_name(path: Seq<char>) -> Seq<char> {
    split_on(path, '/').last()
}

/// The names of the figures among `paths`: of each path whose file name
/// ends in `.cow`, the file name without `.cow`, in the order of the paths.
pub open spec fn cow_names(paths: Seq<Seq<char>>) -> Seq<Seq<char>>
    decreases paths.len(),
{
    if paths.len() == 0 {
        Seq::empty()
    } else if ends_with(file_name(paths.last()), ".cow"@) {
        cow_names(paths.drop_last()).push(replaced(file_name(paths.last()), ".cow"@, Seq::empty()))
    } else {
        cow_names(paths.drop_last())
    }
}

/// A template line that is drawn: neither a comment, which starts with
/// `##`, nor a line of the frame around the drawing, which holds `EOC`.
pub open spec fn is_drawn(line: Seq<char>) -> bool {
    !starts_with(line, "##"@) && !contains_text(line, "EOC"@)
}

/// The lines of `lines` that are drawn, in order.
pub open spec fn drawn_lines(lines: Seq<Seq<char>>) -> Seq<Seq<char>>
    decreases lines.len(),
{
    if lines.len() == 0 {
        Seq::empty()
    } else if is_drawn(lines.last()) {
        drawn_lines(lines.drop_last()).push(lines.last())
    } else {
        drawn_lines(lines.drop_last())
    }
}

/// The drawing of a template: its drawn lines without the white space at
/// the end.
pub open spec fn drawing(template: Seq<char>) -> Seq<char> {
    trimmed_end(join_with(drawn_lines(split_on(template, '\n')), '\n'))
}

/// A drawing with its placeholders filled in, one after the other: `$eyes`,
/// `$thoughts`, `$tongue`, then a doubled backslash for a single one and
/// `\@` for `@`.
pub open spec fn filled(
    drawing: Seq<char>,
    thoughts: Seq<char>,
    eyes: Seq<char>,
    tongue: Seq<char>,
) -> Seq<char> {
    let with_eyes = replaced(drawing, "$eyes"@, eyes);
    let with_thoughts = replaced(with_eyes, "$thoughts"@, thoughts);
    let with_tongue = replaced(with_thoughts, "$tongue"@, tongue);
    let unescaped = replaced(with_tongue, "\\\\"@, "\\"@);
    replaced(unescaped, "\\@"@, "@"@)
}

/// The names of the figures among the asset paths `paths`.
pub fn list_cows(paths: &Vec<String>) -> (names: Vec<String>)
    ensures
        texts(names@) == cow_names(texts(paths@)),
{
    let ghost all = texts(paths@);
    let suffix = to_chars(".cow");
    let nothing: Vec<char> = Vec::new();
    let mut names: Vec<String> = Vec::new();
    let mut i: usize = 0;
    assert(all.take(0) =~= Seq::<Seq<char>>::empty());
    assert(texts(names@) =~= cow_names(all.take(0)));
    while i < paths.len()
        invariant
            i <= paths.len(),
            all == texts(paths@),
            suffix@ == ".cow"@,
            nothing@ == Seq::<char>::empty(),
            texts(names@) == cow_names(all.take(i as int)),
        decreases paths.len() - i,
    {
        let path = to_chars(paths[i].as_str());
        let parts = split_chars(&path, '/');
        proof {
            lemma_split_on_nonempty(path@, '/');
            let upto = all.take(i + 1);
            assert(upto.drop_last() =~= all.take(i as int));
            assert(upto.last() == path@);
        }
        let file = &parts[parts.len() - 1];
        assert(file@ == file_name(path@));
        if ends_with_chars(file, &suffix) {
            let name = to_text(&replace_chars(file, &suffix, &nothing));
            let ghost before = texts(names@);
            names.push(name);
            assert(texts(names@) =~= before.push(replaced(file@, ".cow"@, Seq::empty())));
        }
        i += 1;
    }
    assert(all.take(paths.len() as int) =~= all);
    names
}

/// Keeps the lines that are drawn.
fn keep_drawn(lines: &Vec<Vec<char>>) -> (kept: Vec<Vec<char>>)
    ensures
        rows(kept@) == drawn_lines(rows(lines@)),
{
    let ghost all = rows(lines@);
    let comment = to_chars("##");
    let marker = to_chars("EOC");
    let mut kept: Vec<Vec<char>> = Vec::new();
    let mut i: usize = 0;
    assert(all.take(0) =~= Seq::<Seq<char>>::empty());
    assert(rows(kept@) =~= drawn_lines(all.take(0)));
    while i < lines.len()
        invariant
            i <= lines.len(),
            all == rows(lines@),
            comment@ == "##"@,
            marker@ == "EOC"@,
            rows(kept@) == drawn_lines(all.take(i as int)),
        decreases lines.len() - i,
    {
        let line = &lines[i];
        proof {
            let upto = all.take(i + 1);
            assert(upto.drop_last() =~= all.take(i as int));
            assert(upto.last() == line@);
        }
        if !matches_at(line, &comment, 0) && !contains_chars(line, &marker) {
            let ghost before = rows(kept@);
            let copy = copy_range(line, 0, line.len());
            assert(copy@ =~= line@);
            kept.push(copy);
            assert(rows(kept@) =~= before.push(line@));
        }
        i += 1;
    }
    assert(all.take(lines.len() as int) =~= all);
    kept
}

/// Turns the template `s` of a figure into the figure: the drawn lines,
/// without the white space at the end, with eyes, tongue and the line of
/// thoughts filled in.
pub fn format_animal(s: String, thoughts: &str, eyes: &str, tongue: &str) -> (r: String)
    ensures
        r@ == filled(drawing(s@), thoughts@, eyes@, tongue@),
{
    let template = to_chars(s.as_str());
    let lines = split_chars(&template, '\n');
    let kept = keep_drawn(&lines);
    let joined = join_chars(&kept, '\n');
    let body = trim_end_chars(&joined);
    let with_eyes = replace_chars(&body, &to_chars("$eyes"), &to_chars(eyes));
    let with_thoughts = replace_chars(&with_eyes, &to_chars("$thoughts"), &to_chars(thoughts));
    let with_tongue = replace_chars(&with_thoughts, &to_chars("$tongue"), &to_chars(tongue));
    let unescaped = replace_chars(&with_tongue, &to_chars("\\\\"), &to_chars("\\"));
    let done = replace_chars(&unescaped, &to_chars("\\@"), &to_chars("@"));
    to_text(&done)
}

} // verus!
