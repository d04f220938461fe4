use rcowsay::bubble::{frame, layout, make_bubble, Bubble, LayoutError, LayoutRequest};
use rcowsay::glyphs::{GlyphSet, Mood, Style};
use rcowsay::text::{get_index, truncate};
use rcowsay::wrap::{fit, hyphenate, layout_body, split_lines, wrap_line};

fn chars(s: &str) -> Vec<char> {
    s.chars().collect()
}

fn text(v: &Vec<char>) -> String {
    v.iter().collect()
}

fn texts(v: &Vec<Vec<char>>) -> Vec<String> {
    v.iter().map(text).collect()
}

fn request(message: &str, width: usize, wrap: bool, mood: Mood, style: Style) -> LayoutRequest {
    LayoutRequest {
        text: message.to_string(),
        max_width: width,
        wrap_enabled: wrap,
        mood,
        style,
    }
}

fn laid_out(message: &str, width: usize, wrap: bool, mood: Mood, style: Style) -> Bubble {
    match layout(&request(message, width, wrap, mood, style)) {
        Ok(b) => b,
        Err(e) => panic!("layout failed: {:?}", e),
    }
}

#[test]
fn hello_world_in_a_classic_bubble() {
    let b = laid_out("Hello World", 40, true, Mood::Speak, Style::Classic);
    assert_eq!(text(&b.top), " -------------");
    assert_eq!(texts(&b.rows), vec!["< Hello World >"]);
    assert_eq!(text(&b.bottom), " -------------");
    assert_eq!(b.top.len() - 1, 13);
    assert_eq!(b.render(), " -------------\n< Hello World >\n -------------");
    assert_eq!(
        make_bubble("Hello World".to_string(), 40, false, true, false),
        " -------------\n< Hello World >\n -------------"
    );
}

#[test]
fn short_message_is_one_body_line() {
    for message in ["", "x", "Hello", "exactly ten"] {
        let body = layout_body(&chars(message), 11, true);
        assert_eq!(texts(&body), vec![message]);
        let body = layout_body(&chars(message), 11, false);
        assert_eq!(texts(&body), vec![message]);
    }
    let b = laid_out("Hello", 5, true, Mood::Speak, Style::Classic);
    assert_eq!(texts(&b.rows), vec!["< Hello >"]);
}

#[test]
fn thinking_bubble_uses_parentheses() {
    assert_eq!(
        make_bubble("Hello".to_string(), 40, true, true, false),
        " -------\n( Hello )\n -------"
    );
}

#[test]
fn modern_bubbles_are_boxes() {
    assert_eq!(
        make_bubble("Hello".to_string(), 40, false, true, true),
        "┌───────┐\n│ Hello │\n└───────┘"
    );
    assert_eq!(
        make_bubble("Hello".to_string(), 40, true, true, true),
        "╭┄┄┄┄┄┄┄╮\n┊ Hello ┊\n╰┄┄┄┄┄┄┄╯"
    );
}

#[test]
fn two_lines_use_the_single_line_glyphs() {
    assert_eq!(
        make_bubble("one\ntwo!".to_string(), 40, false, true, false),
        " ------\n< one  >\n< two! >\n ------"
    );
}

#[test]
fn three_lines_use_corner_glyphs_in_classic_style() {
    assert_eq!(
        make_bubble("a\nbb\nccc".to_string(), 40, false, true, false),
        " -----\n/ a   \\\n| bb  |\n\\ ccc /\n -----"
    );
    assert_eq!(
        make_bubble("a\nbb\nccc".to_string(), 40, true, true, false),
        " -----\n( a   )\n( bb  )\n( ccc )\n -----"
    );
}

#[test]
fn three_lines_use_side_glyphs_in_modern_style() {
    assert_eq!(
        make_bubble("a\nbb\nccc".to_string(), 40, false, true, true),
        "┌─────┐\n│ a   │\n│ bb  │\n│ ccc │\n└─────┘"
    );
    assert_eq!(
        make_bubble("a\nbb\nccc".to_string(), 40, true, true, true),
        "╭┄┄┄┄┄╮\n┊ a   ┊\n┊ bb  ┊\n┊ ccc ┊\n╰┄┄┄┄┄╯"
    );
}

#[test]
fn glyph_lookup() {
    let g = GlyphSet::resolve(Style::Classic, Mood::Speak);
    assert_eq!((g.sleft, g.sright), ('<', '>'));
    assert_eq!((g.topleft, g.topright), ('/', '\\'));
    assert_eq!((g.midleft, g.midright), ('|', '|'));
    assert_eq!((g.botleft, g.botright), ('\\', '/'));
    assert_eq!((g.top_rule, g.bottom_rule), ('-', '-'));
    assert_eq!(g.left(Style::Classic, 1, 0), '<');
    assert_eq!(g.left(Style::Classic, 2, 1), '<');
    assert_eq!(g.left(Style::Classic, 3, 0), '/');
    assert_eq!(g.left(Style::Classic, 3, 1), '|');
    assert_eq!(g.left(Style::Classic, 3, 2), '\\');
    assert_eq!(g.right(Style::Classic, 3, 0), '\\');
    assert_eq!(g.right(Style::Classic, 3, 2), '/');
    let m = GlyphSet::resolve(Style::Modern, Mood::Think);
    assert_eq!((m.sleft, m.topleft, m.botright, m.top_rule), ('┊', '╭', '╯', '┄'));
    assert_eq!(m.left(Style::Modern, 3, 0), '┊');
    assert_eq!(m.right(Style::Modern, 3, 2), '┊');
    let s = GlyphSet::resolve(Style::Modern, Mood::Speak);
    assert_eq!((s.sleft, s.topleft, s.topright, s.botleft, s.botright), ('│', '┌', '┐', '└', '┘'));
    assert_eq!((s.top_rule, s.bottom_rule), ('─', '─'));
    let t = GlyphSet::resolve(Style::Classic, Mood::Think);
    assert_eq!((t.sleft, t.sright, t.topleft, t.botright), ('(', ')', '(', ')'));
}

#[test]
fn words_are_packed_greedily() {
    let body = layout_body(
        &chars("The quick brown fox jumps over the lazy dog and keeps running far away"),
        20,
        true,
    );
    assert_eq!(
        texts(&body),
        vec!["The quick brown fox", "jumps over the lazy", "dog and keeps runni-", "ng", "far away"]
    );
    assert_eq!(
        make_bubble(
            "The quick brown fox jumps over the lazy dog and keeps running far away".to_string(),
            20,
            false,
            true,
            false
        ),
        " ----------------------\n/ The quick brown fox  \\\n| jumps over the lazy  |\n| dog and keeps runni- |\n| ng                   |\n\\ far away             /\n ----------------------"
    );
}

#[test]
fn a_line_three_quarters_full_is_closed_before_a_long_word() {
    let body = wrap_line(&chars("aaaa bbbb cccc dd eeeeeeeeee"), 20);
    assert_eq!(texts(&body), vec!["aaaa bbbb cccc dd", "eeeeeeeeee"]);
}

#[test]
fn a_line_less_than_three_quarters_full_takes_part_of_a_long_word() {
    let body = wrap_line(&chars("ab cdefghijklmnopqrstuvwxyzABCDEFG"), 20);
    assert_eq!(texts(&body), vec!["ab cdefghijklmnopqr-", "stuvwxyzABCDEFG"]);
}

#[test]
fn a_long_word_is_hyphenated() {
    let word = "abcdefghijklmnopqrstuvwxyz";
    let pieces = texts(&fit(chars(word), 10, true));
    assert_eq!(pieces, vec!["abcdefgh-", "ijklmnop-", "qrstuvwx-", "yz"]);
    let mut joined = String::new();
    for (i, piece) in pieces.iter().enumerate() {
        if i + 1 < pieces.len() {
            assert!(piece.ends_with('-'));
            assert_eq!(piece.chars().count(), 9);
            joined.push_str(&piece[..piece.len() - 1]);
        } else {
            joined.push_str(piece);
        }
    }
    assert_eq!(joined, word);
    assert_eq!(texts(&hyphenate(Vec::new(), &chars(word), 10)), pieces);
}

#[test]
fn hyphenation_at_the_smallest_width() {
    let body = layout_body(&chars("ab cdefg"), 4, true);
    assert_eq!(texts(&body), vec!["ab -", "cd-", "efg"]);
    assert_eq!(texts(&hyphenate(chars("ab"), &chars("cdefg"), 4)), vec!["ab -", "cd-", "efg"]);
}

#[test]
fn wrapping_counts_characters_not_bytes() {
    let body = layout_body(&chars("ñandú ñandú ñandú ñandú ñandú"), 12, true);
    assert_eq!(texts(&body), vec!["ñandú ñandú", "ñandú ñandú", "ñandú"]);
}

#[test]
fn repeated_spaces_are_kept_inside_a_line() {
    let body = layout_body(&chars("aaaa  bbbb cccc dddd"), 10, true);
    assert_eq!(texts(&body), vec!["aaaa  bbbb", "cccc dddd"]);
}

#[test]
fn long_lines_are_truncated_without_wrapping() {
    let body = layout_body(&chars("abcdefghijklmnop"), 10, false);
    assert_eq!(texts(&body), vec!["abcdefg..."]);
    assert_eq!(text(&body[0]), format!("{}...", truncate("abcdefghijklmnop", 7)));
    assert_eq!(body[0].len(), 10);
    assert_eq!(
        make_bubble("abcdefghijklmnop".to_string(), 10, false, false, false),
        " ------------\n< abcdefg... >\n ------------"
    );
}

#[test]
fn truncation_never_splits_a_character() {
    let message = "ä".repeat(12);
    let body = layout_body(&chars(&message), 10, false);
    assert_eq!(texts(&body), vec!["äääääää..."]);
    assert_eq!(body[0].len(), 10);
}

#[test]
fn tabs_become_four_spaces() {
    assert_eq!(texts(&layout_body(&chars("a\tb"), 40, true)), vec!["a    b"]);
    assert_eq!(
        make_bubble("a\tb".to_string(), 40, false, true, false),
        " --------\n< a    b >\n --------"
    );
}

#[test]
fn newlines_split_the_message() {
    assert_eq!(texts(&split_lines(&chars("a\nb"))), vec!["a", "b"]);
    assert_eq!(texts(&split_lines(&chars("a\r\nb\r\n"))), vec!["a", "b"]);
    assert_eq!(texts(&split_lines(&chars("a\n\nb"))), vec!["a", "", "b"]);
    assert_eq!(texts(&split_lines(&chars("a\n"))), vec!["a"]);
    assert_eq!(texts(&split_lines(&chars("a\r"))), vec!["a\r"]);
    assert_eq!(texts(&split_lines(&chars("\n"))), vec![""]);
    assert!(split_lines(&chars("")).is_empty());
}

#[test]
fn a_message_without_lines_is_one_empty_line() {
    assert_eq!(make_bubble(String::new(), 40, false, true, false), " --\n<  >\n --");
    assert_eq!(make_bubble(" ".repeat(12), 10, false, true, false), " --\n<  >\n --");
}

#[test]
fn width_below_four_is_refused() {
    for width in 0..4 {
        let r = layout(&request("Hello", width, true, Mood::Speak, Style::Classic));
        assert!(matches!(r, Err(LayoutError::WidthTooSmall)));
    }
    assert!(layout(&request("Hello", 4, true, Mood::Speak, Style::Classic)).is_ok());
}

#[test]
fn framed_lines_share_one_width_and_body_lines_fit() {
    let message = "Lorem ipsum dolor sit amet, consectetur adipiscing elit\nsed do\n\teiusmod tempor incididuntutlaboreetdoloremagnaaliqua";
    for width in 4..30 {
        for wrap in [true, false] {
            let body = layout_body(&chars(message), width, wrap);
            assert!(!body.is_empty());
            for line in &body {
                assert!(line.len() <= width);
            }
            let b = frame(&body, Style::Classic, Mood::Speak);
            let widest = body.iter().map(|l| l.len()).max().unwrap_or(0);
            assert_eq!(b.rows.len(), body.len());
            for row in &b.rows {
                assert_eq!(row.len(), widest + 4);
            }
            assert_eq!(b.width(), widest + 4);
            assert_eq!(b.top.len(), widest + 3);
            assert_eq!(b.bottom.len(), widest + 3);
            let m = frame(&body, Style::Modern, Mood::Think);
            for row in &m.rows {
                assert_eq!(row.len(), widest + 4);
            }
            assert_eq!(m.top.len(), widest + 4);
            assert_eq!(m.bottom.len(), widest + 4);
        }
    }
}

#[test]
fn taking_the_frame_away_gives_the_body_back() {
    let message = "The quick brown fox jumps over the lazy dog and keeps running far away";
    let body = layout_body(&chars(message), 20, true);
    let b = frame(&body, Style::Classic, Mood::Speak);
    let widest = body.iter().map(|l| l.len()).max().unwrap_or(0);
    for (row, line) in b.rows.iter().zip(body.iter()) {
        let pad = widest - line.len();
        assert_eq!(&row[2..row.len() - 2 - pad], &line[..]);
        assert!(row[row.len() - 2 - pad..row.len() - 1].iter().all(|c| *c == ' '));
        assert_eq!(row[1], ' ');
    }
}

#[test]
fn truncate_takes_whole_characters() {
    assert_eq!(truncate("héllo", 2), "hé");
    assert_eq!(truncate("héllo", 0), "");
    assert_eq!(truncate("héllo", 5), "héllo");
    assert_eq!(truncate("abc", 10), "abc");
    assert_eq!(truncate("", 3), "");
}

#[test]
fn get_index_gives_the_byte_position_of_a_character() {
    assert_eq!(get_index("héllo", 0), Some(0));
    assert_eq!(get_index("héllo", 1), Some(1));
    assert_eq!(get_index("héllo", 2), Some(3));
    assert_eq!(get_index("héllo", 4), Some(5));
    assert_eq!(get_index("héllo", 5), None);
    assert_eq!(get_index("", 0), None);
    assert_eq!(get_index("日本語", 2), Some(6));
}
