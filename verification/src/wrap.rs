//! Breaking a message into body lines that fit a width: splitting at
//! newlines, expanding tabs, truncating, greedy word packing and hyphenation.
//! Every length here is a count of characters, never of bytes.

use crate::text::{
    copy_range, extend_range, extend_repeated, repeated, rows, split_chars, split_on, truncated,
};
use vstd::prelude::*;

verus! {

/// The smallest width for which word splitting is defined.
pub const MIN_WIDTH: usize = 4;

/// `l` without one trailing carriage return, if it ends in one.
pub open spec fn strip_cr(l: Seq<char>) -> Seq<char> {
    if l.len() > 0 && l.last() == '\r' {
        l.drop_last()
    } else {
        l
    }
}

/// The lines of a message. Each newline ends a line, and a carriage return
/// directly before that newline belongs to the line ending. Text after the
/// last newline is a line of its own unless it is empty.
pub open spec fn text_lines(s: Seq<char>) -> Seq<Seq<char>> {
    let pieces = split_on(s, '\n');
    let ended = Seq::new((pieces.len() - 1) as nat, |i: int| strip_cr(pieces[i]));
    if pieces.last().len() == 0 {
        ended
    } else {
        ended.push(pieces.last())
    }
}

/// `l` with every tab replaced by four spaces.
pub open spec fn expand_tabs(l: Seq<char>) -> Seq<char>
    decreases l.len(),
{
    if l.len() == 0 {
        l
    } else if l.last() == '\t' {
        expand_tabs(l.drop_last()) + repeated(' ', 4)
    } else {
        expand_tabs(l.drop_last()).push(l.last())
    }
}

/// The marker that ends a truncated line.
pub open spec fn ellipsis() -> Seq<char> {
    seq!['.', '.', '.']
}

/// Three quarters of `width`, rounded down: a line holding at least this
/// many characters is closed rather than filled further.
pub open spec fn three_quarters(width: nat) -> nat {
    (3 * width) / 4
}

/// `cur` with `word` added, separated by one space unless `cur` is empty.
pub open spec fn join_word(cur: Seq<char>, word: Seq<char>) -> Seq<char> {
    if cur.len() > 0 {
        cur.push(' ') + word
    } else {
        word
    }
}

/// The lines produced by placing `word` after `cur` when it does not fit
/// whole: each line but the last takes the longest prefix of what is left
/// that leaves room for a hyphen, and ends in that hyphen; the last line
/// takes the remainder.
pub open spec fn split_word(cur: Seq<char>, word: Seq<char>, width: nat) -> Seq<Seq<char>>
    decreases word.len(), cur.len(),
    when width >= 4 && cur.len() + 2 <= width
{
    let room = width - cur.len() - 1;
    if word.len() > room {
        seq![join_word(cur, word.take(room - 1)).push('-')] + split_word(
            Seq::empty(),
            word.skip(room - 1),
            width,
        )
    } else {
        seq![join_word(cur, word)]
    }
}

/// The lines produced by packing `words` greedily, starting from the partly
/// filled line `cur`.
pub open spec fn wrap_words(words: Seq<Seq<char>>, cur: Seq<char>, width: nat) -> Seq<Seq<char>>
    decreases words.len(), cur.len(),
    when width >= 4
{
    if words.len() == 0 {
        if cur.len() > 0 {
            seq![cur]
        } else {
            Seq::empty()
        }
    } else if cur.len() + words[0].len() < width {
        wrap_words(words.drop_first(), join_word(cur, words[0]), width)
    } else if cur.len() >= three_quarters(width) {
        seq![cur] + wrap_words(words, Seq::empty(), width)
    } else {
        split_word(cur, words[0], width) + wrap_words(words.drop_first(), Seq::empty(), width)
    }
}

/// The body lines that one input line becomes.
pub open spec fn fit_line(line: Seq<char>, width: nat, wrap: bool) -> Seq<Seq<char>> {
    if line.len() <= width {
        seq![line]
    } else if !wrap {
        seq![truncated(line, (width - 3) as nat) + ellipsis()]
    } else {
        wrap_words(split_on(line, ' '), Seq::empty(), width)
    }
}

/// The body lines that a list of input lines becomes, tabs expanded first.
pub open spec fn fit_lines(lines: Seq<Seq<char>>, width: nat, wrap: bool) -> Seq<Seq<char>>
    decreases lines.len(),
{
    if lines.len() == 0 {
        Seq::empty()
    } else {
        fit_lines(lines.drop_last(), width, wrap) + fit_line(
            expand_tabs(lines.last()),
            width,
            wrap,
        )
    }
}

/// The body of the bubble for a message. A message that yields no line at
/// all is shown as one empty line.
pub open spec fn body_lines(text: Seq<char>, width: nat, wrap: bool) -> Seq<Seq<char>> {
    let fitted = fit_lines(text_lines(text), width, wrap);
    if fitted.len() == 0 {
        seq![Seq::empty()]
    } else {
        fitted
    }
}

/// No line of `lines` is longer than `width`.
pub open spec fn all_within(lines: Seq<Seq<char>>, width: nat) -> bool {
    forall|i: int| 0 <= i < lines.len() ==> #[trigger] lines[i].len() <= width
}

/// A message that holds neither a newline nor a tab.
pub open spec fn is_plain(text: Seq<char>) -> bool {
    !text.contains('\n') && !text.contains('\t')
}

/// The word that hyphenated pieces were cut from: every piece but the last
/// without its final character, followed by the last piece.
pub open spec fn dehyphenated(pieces: Seq<Seq<char>>) -> Seq<char>
    decreases pieces.len(),
{
    if pieces.len() == 0 {
        Seq::empty()
    } else if pieces.len() == 1 {
        pieces[0]
    } else {
        pieces[0].drop_last() + dehyphenated(pieces.drop_first())
    }
}

/// A line without tabs is left as it is by tab expansion.
pub proof fn lemma_expand_tabs_without_tabs(l: Seq<char>)
    requires
        !l.contains('\t'),
    ensures
        expand_tabs(l) == l,
    decreases l.len(),
{
    if l.len() > 0 {
        let t = l.drop_last();
        assert forall|i: int| 0 <= i < t.len() implies t[i] != '\t' by {
            assert(l[i] == t[i]);
            assert(l.contains(l[i]));
        }
        lemma_expand_tabs_without_tabs(t);
        assert(l.contains(l.last()));
        assert(t.push(l.last()) =~= l);
    }
}

/// Hyphenation never produces a line longer than the width, and always
/// produces at least one line.
pub proof fn lemma_split_word_fits(cur: Seq<char>, word: Seq<char>, width: nat)
    requires
        width >= 4,
        cur.len() + 2 <= width,
    ensures
        split_word(cur, word, width).len() >= 1,
        all_within(split_word(cur, word, width), width),
    decreases word.len(), cur.len(),
{
    let room = width - cur.len() - 1;
    if word.len() > room {
        let rest = split_word(Seq::empty(), word.skip(room - 1), width);
        lemma_split_word_fits(Seq::empty(), word.skip(room - 1), width);
        let first = join_word(cur, word.take(room - 1)).push('-');
        assert(first.len() <= width);
        assert forall|i: int| 0 <= i < (seq![first] + rest).len() implies #[trigger] (seq![first]
            + rest)[i].len() <= width by {
            if i > 0 {
                assert((seq![first] + rest)[i] == rest[i - 1]);
            }
        }
    }
}

/// Word packing never produces a line longer than the width.
pub proof fn lemma_wrap_words_fit(words: Seq<Seq<char>>, cur: Seq<char>, width: nat)
    requires
        width >= 4,
        cur.len() <= width,
    ensures
        all_within(wrap_words(words, cur, width), width),
    decreases words.len(), cur.len(),
{
    if words.len() == 0 {
    } else if cur.len() + words[0].len() < width {
        lemma_wrap_words_fit(words.drop_first(), join_word(cur, words[0]), width);
    } else if cur.len() >= three_quarters(width) {
        let rest = wrap_words(words, Seq::empty(), width);
        lemma_wrap_words_fit(words, Seq::empty(), width);
        assert forall|i: int| 0 <= i < (seq![cur] + rest).len() implies #[trigger] (seq![cur]
            + rest)[i].len() <= width by {
            if i > 0 {
                assert((seq![cur] + rest)[i] == rest[i - 1]);
            }
        }
    } else {
        let head = split_word(cur, words[0], width);
        let rest = wrap_words(words.drop_first(), Seq::empty(), width);
        lemma_split_word_fits(cur, words[0], width);
        lemma_wrap_words_fit(words.drop_first(), Seq::empty(), width);
        assert forall|i: int| 0 <= i < (head + rest).len() implies #[trigger] (head
            + rest)[i].len() <= width by {
            if i >= head.len() {
                assert((head + rest)[i] == rest[i - head.len()]);
            } else {
                assert((head + rest)[i] == head[i]);
            }
        }
    }
}

/// With wrapping off, a line longer than the width is cut to its first
/// `width - 3` characters followed by three dots, which is exactly `width`
/// characters.
pub proof fn lemma_truncation(line: Seq<char>, width: nat)
    requires
        width >= 4,
        line.len() > width,
    ensures
        fit_line(line, width, false) == seq![truncated(line, (width - 3) as nat) + ellipsis()],
        fit_line(line, width, false)[0].len() == width,
{
}

/// No body line that an input line becomes is longer than the width.
pub proof fn lemma_fit_line_fits(line: Seq<char>, width: nat, wrap: bool)
    requires
        width >= 4,
    ensures
        all_within(fit_line(line, width, wrap), width),
{
    if line.len() <= width {
    } else if !wrap {
        lemma_truncation(line, width);
    } else {
        lemma_wrap_words_fit(split_on(line, ' '), Seq::empty(), width);
    }
}

/// No body line is longer than the width, for any list of input lines.
pub proof fn lemma_fit_lines_fit(lines: Seq<Seq<char>>, width: nat, wrap: bool)
    requires
        width >= 4,
    ensures
        all_within(fit_lines(lines, width, wrap), width),
    decreases lines.len(),
{
    if lines.len() > 0 {
        let head = fit_lines(lines.drop_last(), width, wrap);
        let tail = fit_line(expand_tabs(lines.last()), width, wrap);
        lemma_fit_lines_fit(lines.drop_last(), width, wrap);
        lemma_fit_line_fits(expand_tabs(lines.last()), width, wrap);
        assert forall|i: int| 0 <= i < (head + tail).len() implies #[trigger] (head
            + tail)[i].len() <= width by {
            if i >= head.len() {
                assert((head + tail)[i] == tail[i - head.len()]);
            } else {
                assert((head + tail)[i] == head[i]);
            }
        }
    }
}

/// The body of a bubble has at least one line, and none of its lines is
/// longer than the requested width.
pub proof fn lemma_body_fits(text: Seq<char>, width: nat, wrap: bool)
    requires
        width >= 4,
    ensures
        body_lines(text, width, wrap).len() >= 1,
        all_within(body_lines(text, width, wrap), width),
{
    lemma_fit_lines_fit(text_lines(text), width, wrap);
}

/// A plain message that is no longer than the width is the whole body, as
/// one line.
pub proof fn lemma_short_message_is_body(text: Seq<char>, width: nat, wrap: bool)
    requires
        width >= 4,
        is_plain(text),
        text.len() <= width,
    ensures
        body_lines(text, width, wrap) == seq![text],
{
    crate::text::lemma_split_on_absent(text, '\n');
    let lines = text_lines(text);
    if text.len() == 0 {
        assert(lines =~= Seq::<Seq<char>>::empty());
        assert(text =~= Seq::<char>::empty());
    } else {
        assert(lines =~= seq![text]);
        assert(lines.drop_last() =~= Seq::<Seq<char>>::empty());
        lemma_expand_tabs_without_tabs(text);
        assert(fit_lines(lines.drop_last(), width, wrap) =~= Seq::<Seq<char>>::empty());
        assert(fit_lines(lines, width, wrap) =~= seq![text]);
    }
}

/// With wrapping off, a plain message longer than the width becomes one
/// body line: its first `width - 3` characters and three dots, `width`
/// characters in all.
pub proof fn lemma_long_message_is_truncated(text: Seq<char>, width: nat)
    requires
        width >= 4,
        is_plain(text),
        text.len() > width,
    ensures
        body_lines(text, width, false) == seq![truncated(text, (width - 3) as nat) + ellipsis()],
        body_lines(text, width, false)[0].len() == width,
{
    crate::text::lemma_split_on_absent(text, '\n');
    let lines = text_lines(text);
    assert(lines =~= seq![text]);
    assert(lines.drop_last() =~= Seq::<Seq<char>>::empty());
    lemma_expand_tabs_without_tabs(text);
    lemma_truncation(text, width);
    assert(fit_lines(lines.drop_last(), width, false) =~= Seq::<Seq<char>>::empty());
    assert(fit_lines(lines, width, false) =~= fit_line(text, width, false));
}

/// Hyphenating a word from the start of a line: every piece but the last
/// fills `width - 1` columns and ends in the added hyphen, the last piece
/// fits too, and the pieces without those hyphens spell the word. A word
/// too long for one line gives at least two pieces.
pub proof fn lemma_hyphenation(word: Seq<char>, width: nat)
    requires
        width >= 4,
    ensures
        split_word(Seq::empty(), word, width).len() >= 1,
        word.len() >= width ==> split_word(Seq::empty(), word, width).len() >= 2,
        forall|i: int|
            0 <= i < split_word(Seq::empty(), word, width).len() - 1 ==> {
                &&& (#[trigger] split_word(Seq::empty(), word, width)[i]).len() == width - 1
                &&& split_word(Seq::empty(), word, width)[i].last() == '-'
            },
        split_word(Seq::empty(), word, width).last().len() <= width - 1,
        dehyphenated(split_word(Seq::empty(), word, width)) == word,
    decreases word.len(),
{
    let room = width - 1;
    let pieces = split_word(Seq::empty(), word, width);
    if word.len() > room {
        let first = join_word(Seq::empty(), word.take(room - 1)).push('-');
        let rest = split_word(Seq::empty(), word.skip(room - 1), width);
        lemma_hyphenation(word.skip(room - 1), width);
        assert(pieces == seq![first] + rest);
        assert(pieces.drop_first() =~= rest);
        assert(first.drop_last() =~= word.take(room - 1));
        assert(word.take(room - 1) + word.skip(room - 1) =~= word);
        assert(pieces.last() == rest.last());
        assert forall|i: int| 0 <= i < pieces.len() - 1 implies {
            &&& (#[trigger] pieces[i]).len() == width - 1
            &&& pieces[i].last() == '-'
        } by {
            if i > 0 {
                assert(pieces[i] == rest[i - 1]);
            }
        }
    }
}

/// With wrapping on, a line that is a single word longer than the width is
/// hyphenated from the start of a line.
pub proof fn lemma_long_word_is_hyphenated(word: Seq<char>, width: nat)
    requires
        width >= 4,
        !word.contains(' '),
        word.len() > width,
    ensures
        fit_line(word, width, true) == split_word(Seq::empty(), word, width),
{
    crate::text::lemma_split_on_absent(word, ' ');
    let words = seq![word];
    assert(words.drop_first() =~= Seq::<Seq<char>>::empty());
    let pieces = split_word(Seq::empty(), word, width);
    assert(wrap_words(words.drop_first(), Seq::empty(), width) =~= Seq::<Seq<char>>::empty());
    assert(pieces + Seq::<Seq<char>>::empty() =~= pieces);
}

/// Splits a message into its lines.
pub fn split_lines(s: &Vec<char>) -> (lines: Vec<Vec<char>>)
    ensures
        rows(lines@) == text_lines(s@),
{
    let pieces = split_chars(s, '\n');
    proof {
        crate::text::lemma_split_on_nonempty(s@, '\n');
    }
    let ghost all = split_on(s@, '\n');
    let n: usize = pieces.len() - 1;
    let mut lines: Vec<Vec<char>> = Vec::new();
    let mut i: usize = 0;
    while i < n
        invariant
            i <= n,
            n + 1 == pieces.len(),
            rows(pieces@) == all,
            rows(lines@) == Seq::new(i as nat, |k: int| strip_cr(all[k])),
        decreases n - i,
    {
        let piece = &pieces[i];
        assert(piece@ == all[i as int]);
        let len: usize = piece.len();
        let keep: usize = if len > 0 && piece[len - 1] == '\r' {
            len - 1
        } else {
            len
        };
        let line = copy_range(piece, 0, keep);
        assert(line@ =~= strip_cr(piece@));
        let ghost before = rows(lines@);
        lines.push(line);
        assert(rows(lines@) =~= before.push(strip_cr(all[i as int])));
        assert(rows(lines@) =~= Seq::new((i + 1) as nat, |k: int| strip_cr(all[k])));
        i += 1;
    }
    let last = &pieces[n];
    assert(last@ == all.last());
    if last.len() > 0 {
        let ghost before = rows(lines@);
        let line = copy_range(last, 0, last.len());
        assert(line@ =~= last@);
        lines.push(line);
        assert(rows(lines@) =~= before.push(all.last()));
    }
    lines
}

/// Replaces every tab of `l` by four spaces.
pub fn expand_line_tabs(l: &Vec<char>) -> (r: Vec<char>)
    ensures
        r@ == expand_tabs(l@),
{
    let mut r: Vec<char> = Vec::new();
    let mut i: usize = 0;
    while i < l.len()
        invariant
            i <= l.len(),
            r@ == expand_tabs(l@.take(i as int)),
        decreases l.len() - i,
    {
        let c = l[i];
        proof {
            let t = l@.take(i + 1);
            assert(t.drop_last() =~= l@.take(i as int));
            assert(t.last() == c);
        }
        if c == '\t' {
            extend_repeated(&mut r, ' ', 4);
        } else {
            r.push(c);
        }
        i += 1;
    }
    assert(l@.take(l.len() as int) == l@);
    r
}

/// Three quarters of `width`, rounded down.
pub fn flush_threshold(width: usize) -> (t: usize)
    ensures
        t == three_quarters(width as nat),
{
    (width / 4) * 3 + ((width % 4) * 3) / 4
}

/// Adds `word[from..to]` to the line `cur`, after a space unless `cur` is
/// empty.
fn push_word(cur: &mut Vec<char>, word: &Vec<char>, from: usize, to: usize)
    requires
        from <= to <= word.len(),
    ensures
        final(cur)@ == join_word(old(cur)@, word@.subrange(from as int, to as int)),
{
    if cur.len() > 0 {
        cur.push(' ');
    }
    extend_range(cur, word, from, to);
    assert(Seq::<char>::empty() + word@.subrange(from as int, to as int) =~= word@.subrange(
        from as int,
        to as int,
    ));
}

/// Places a word that does not fit after `cur`, hyphenating it over as many
/// lines as it needs.
pub fn hyphenate(cur: Vec<char>, word: &Vec<char>, width: usize) -> (lines: Vec<Vec<char>>)
    requires
        width >= MIN_WIDTH,
        cur@.len() + 2 <= width,
    ensures
        rows(lines@) == split_word(cur@, word@, width as nat),
{
    let ghost whole = split_word(cur@, word@, width as nat);
    let mut lines: Vec<Vec<char>> = Vec::new();
    let mut cur = cur;
    let mut start: usize = 0;
    let mut room: usize = width - cur.len() - 1;
    assert(word@.skip(0) =~= word@);
    assert(rows(lines@) + whole =~= whole);
    while word.len() - start > room
        invariant
            width >= MIN_WIDTH,
            start <= word.len(),
            cur@.len() + 2 <= width,
            room == width - cur@.len() - 1,
            rows(lines@) + split_word(cur@, word@.skip(start as int), width as nat) == whole,
        decreases word.len() - start, cur@.len(),
    {
        let ghost rest = word@.skip(start as int);
        let ghost before = rows(lines@);
        let ghost line_before = cur@;
        let end: usize = start + (room - 1);
        push_word(&mut cur, word, start, end);
        cur.push('-');
        proof {
            assert(word@.subrange(start as int, end as int) =~= rest.take(room - 1));
            assert(rest.skip(room - 1) =~= word@.skip(end as int));
            assert(cur@ == join_word(line_before, rest.take(room - 1)).push('-'));
        }
        lines.push(cur);
        proof {
            assert(rows(lines@) =~= before.push(
                join_word(line_before, rest.take(room - 1)).push('-'),
            ));
            assert(rows(lines@) + split_word(
                Seq::empty(),
                word@.skip(end as int),
                width as nat,
            ) =~= before + split_word(line_before, rest, width as nat));
        }
        cur = Vec::new();
        start = end;
        room = width - 1;
    }
    let ghost rest = word@.skip(start as int);
    let ghost before = rows(lines@);
    let ghost line_before = cur@;
    push_word(&mut cur, word, start, word.len());
    assert(word@.subrange(start as int, word.len() as int) =~= rest);
    lines.push(cur);
    assert(rows(lines@) =~= before + split_word(line_before, rest, width as nat));
    lines
}

/// Packs the words of `line` onto lines of at most `width` characters.
pub fn wrap_line(line: &Vec<char>, width: usize) -> (lines: Vec<Vec<char>>)
    requires
        width >= MIN_WIDTH,
    ensures
        rows(lines@) == wrap_words(split_on(line@, ' '), Seq::empty(), width as nat),
{
    let words = split_chars(line, ' ');
    let ghost all = rows(words@);
    let ghost whole = wrap_words(all, Seq::empty(), width as nat);
    let threshold: usize = flush_threshold(width);
    let mut lines: Vec<Vec<char>> = Vec::new();
    let mut cur: Vec<char> = Vec::new();
    let mut i: usize = 0;
    assert(all.skip(0) =~= all);
    assert(rows(lines@) + whole =~= whole);
    while i < words.len()
        invariant
            i <= words.len(),
            width >= MIN_WIDTH,
            rows(words@) == all,
            threshold == three_quarters(width as nat),
            rows(lines@) + wrap_words(all.skip(i as int), cur@, width as nat) == whole,
        decreases words.len() - i, cur@.len(),
    {
        let word = &words[i];
        let ghost rest = all.skip(i as int);
        let ghost before = rows(lines@);
        let ghost line_before = cur@;
        proof {
            assert(rest[0] == word@);
            assert(rest.drop_first() =~= all.skip(i + 1));
        }
        if word.len() < width && cur.len() < width - word.len() {
            push_word(&mut cur, word, 0, word.len());
            assert(word@.subrange(0, word.len() as int) =~= word@);
            i += 1;
        } else if cur.len() >= threshold {
            lines.push(cur);
            cur = Vec::new();
            assert(rows(lines@) =~= before.push(line_before));
            assert(rows(lines@) + wrap_words(rest, Seq::empty(), width as nat) =~= before
                + wrap_words(rest, line_before, width as nat));
        } else {
            let mut pieces = hyphenate(cur, word, width);
            let ghost split = rows(pieces@);
            lines.append(&mut pieces);
            cur = Vec::new();
            assert(rows(lines@) =~= before + split);
            assert(rows(lines@) + wrap_words(rest.drop_first(), Seq::empty(), width as nat)
                =~= before + wrap_words(rest, line_before, width as nat));
            i += 1;
        }
    }
    assert(all.skip(words.len() as int) =~= Seq::<Seq<char>>::empty());
    if cur.len() > 0 {
        let ghost before = rows(lines@);
        let ghost line_before = cur@;
        lines.push(cur);
        assert(rows(lines@) =~= before + seq![line_before]);
    } else {
        assert(rows(lines@) + Seq::<Seq<char>>::empty() =~= rows(lines@));
    }
    lines
}

/// Turns one input line, tabs already expanded, into body lines: kept as it
/// is when it fits, truncated when wrapping is off, wrapped otherwise.
pub fn fit(line: Vec<char>, width: usize, wrap: bool) -> (lines: Vec<Vec<char>>)
    requires
        width >= MIN_WIDTH,
    ensures
        rows(lines@) == fit_line(line@, width as nat, wrap),
{
    if line.len() <= width {
        let ghost whole = line@;
        let mut lines: Vec<Vec<char>> = Vec::new();
        lines.push(line);
        assert(rows(lines@) =~= seq![whole]);
        lines
    } else if !wrap {
        let mut cut = copy_range(&line, 0, width - 3);
        assert(cut@ =~= truncated(line@, (width - 3) as nat));
        extend_repeated(&mut cut, '.', 3);
        assert(repeated('.', 3) =~= ellipsis());
        let ghost whole = cut@;
        let mut lines: Vec<Vec<char>> = Vec::new();
        lines.push(cut);
        assert(rows(lines@) =~= seq![whole]);
        lines
    } else {
        wrap_line(&line, width)
    }
}

/// Lays a message out as the body lines of a bubble.
pub fn layout_body(text: &Vec<char>, width: usize, wrap: bool) -> (body: Vec<Vec<char>>)
    requires
        width >= MIN_WIDTH,
    ensures
        rows(body@) == body_lines(text@, width as nat, wrap),
{
    let input = split_lines(text);
    let ghost all = rows(input@);
    let mut body: Vec<Vec<char>> = Vec::new();
    let mut i: usize = 0;
    assert(rows(body@) =~= fit_lines(all.take(0), width as nat, wrap));
    while i < input.len()
        invariant
            i <= input.len(),
            width >= MIN_WIDTH,
            rows(input@) == all,
            rows(body@) == fit_lines(all.take(i as int), width as nat, wrap),
        decreases input.len() - i,
    {
        let ghost before = rows(body@);
        let line = expand_line_tabs(&input[i]);
        let mut fitted = fit(line, width, wrap);
        let ghost added = rows(fitted@);
        body.append(&mut fitted);
        proof {
            let upto = all.take(i + 1);
            assert(upto.drop_last() =~= all.take(i as int));
            assert(upto.last() == input@[i as int]@);
            assert(rows(body@) =~= before + added);
        }
        i += 1;
    }
    assert(all.take(input.len() as int) =~= all);
    if body.len() == 0 {
        body.push(Vec::new());
        assert(rows(body@) =~= seq![Seq::<char>::empty()]);
    }
    body
}

} // verus!
