use dg_compiler::lexer::token::{Term, Token};
use dg_compiler::parser::transform::{blocks, parse_indent, strip, TAB_SIZE};
use dg_compiler::span::Span;

fn ws(lo: usize, text: &str, line: usize) -> Term {
    (Span::new(lo, lo + text.len(), line), Token::Whitespace(text.to_string()))
}

fn id(lo: usize, name: &str, line: usize) -> Term {
    (Span::new(lo, lo + name.len(), line), Token::Ident(name.to_string()))
}

fn kinds(terms: &[Term]) -> Vec<&Token> {
    terms.iter().map(|t| &t.1).collect()
}

#[test]
fn whitespace_without_a_line_break_sets_no_indentation() {
    assert_eq!(parse_indent(""), None);
    assert_eq!(parse_indent(" "), None);
    assert_eq!(parse_indent(" \t  "), None);
}

#[test]
fn indentation_is_what_follows_the_last_line_break() {
    assert_eq!(parse_indent("\n"), Some(0));
    assert_eq!(parse_indent("\n    "), Some(4));
    assert_eq!(parse_indent("\n\n  "), Some(2));
    assert_eq!(parse_indent("   \n  "), Some(2));
    assert_eq!(parse_indent("\n        \n "), Some(1));
    assert_eq!(parse_indent("  \n"), Some(0));
}

#[test]
fn a_tab_counts_for_four_columns() {
    assert_eq!(TAB_SIZE, 4);
    assert_eq!(parse_indent("\n\t"), Some(4));
    assert_eq!(parse_indent("\n \t "), Some(6));
    assert_eq!(parse_indent("\n\t\t"), Some(8));
}

#[test]
fn deeper_starts_equal_continues_shallower_ends() {
    let tokens = vec![
        id(0, "a", 0),
        ws(1, "\n  ", 0),
        id(4, "b", 1),
        ws(5, "\n  ", 1),
        id(8, "c", 2),
        ws(9, "\n", 2),
        id(10, "d", 3),
    ];
    let out = blocks(&tokens);
    assert_eq!(
        out,
        vec![
            id(0, "a", 0),
            (Span::new(1, 4, 0), Token::BlockStart),
            id(4, "b", 1),
            (Span::new(5, 8, 1), Token::BlockCont),
            id(8, "c", 2),
            (Span::new(9, 10, 2), Token::BlockEnd),
            id(10, "d", 3),
        ]
    );
}

#[test]
fn one_dedent_ends_every_deeper_block() {
    let tokens = vec![
        id(0, "a", 0),
        ws(1, "\n  ", 0),
        id(4, "b", 1),
        ws(5, "\n    ", 1),
        id(10, "c", 2),
        ws(11, "\n      ", 2),
        id(18, "d", 3),
        ws(19, "\n  ", 3),
        id(22, "e", 4),
    ];
    let out = blocks(&tokens);
    assert_eq!(
        kinds(&out),
        vec![
            &Token::Ident("a".to_string()),
            &Token::BlockStart,
            &Token::Ident("b".to_string()),
            &Token::BlockStart,
            &Token::Ident("c".to_string()),
            &Token::BlockStart,
            &Token::Ident("d".to_string()),
            &Token::BlockEnd,
            &Token::BlockEnd,
            &Token::Ident("e".to_string()),
            &Token::BlockEnd,
        ]
    );
    // The first end takes the place of the whitespace, the second stands
    // right after it, and the one at the end of the input after the last
    // token.
    assert_eq!(out[7].0, Span::new(19, 22, 3));
    assert_eq!(out[8].0, Span::new(22, 22, 3));
    assert_eq!(out[10].0, Span::new(23, 23, 4));
}

#[test]
fn a_dedent_between_two_levels_ends_the_deeper_one_only() {
    // Depth 2 was never open: the block of depth 4 ends, and the next line
    // of depth 2 is deeper than what is open then, which is nothing.
    let tokens = vec![ws(0, "\n    ", 0), id(5, "a", 1), ws(6, "\n  ", 1), id(9, "b", 2), ws(10, "\n  ", 2)];
    let out = blocks(&tokens);
    assert_eq!(
        kinds(&out),
        vec![
            &Token::BlockStart,
            &Token::Ident("a".to_string()),
            &Token::BlockEnd,
            &Token::Ident("b".to_string()),
            &Token::BlockStart,
            &Token::BlockEnd,
        ]
    );
}

#[test]
fn blocks_left_open_end_with_the_input() {
    let tokens = vec![id(0, "a", 0), ws(1, "\n  ", 0), id(4, "b", 1), ws(5, "\n    ", 1), id(10, "c", 2)];
    let out = blocks(&tokens);
    assert_eq!(out.len(), 7);
    assert_eq!(out[5], (Span::new(11, 11, 2), Token::BlockEnd));
    assert_eq!(out[6], (Span::new(11, 11, 2), Token::BlockEnd));
}

#[test]
fn no_tokens_give_no_tokens() {
    assert_eq!(blocks(&vec![]), vec![]);
    assert_eq!(strip(&vec![]), vec![]);
}

#[test]
fn a_line_break_at_depth_zero_continues() {
    let out = blocks(&vec![ws(0, "\n", 0), id(1, "a", 1), ws(2, "\n\n", 1), id(4, "b", 3)]);
    assert_eq!(
        kinds(&out),
        vec![&Token::BlockCont, &Token::Ident("a".to_string()), &Token::BlockCont, &Token::Ident("b".to_string())]
    );
}

#[test]
fn other_tokens_pass_unchanged() {
    let tokens = vec![
        (Span::new(0, 1, 0), Token::LParen),
        ws(1, "  ", 0),
        (Span::new(3, 8, 0), Token::Comment("note".to_string())),
        (Span::new(8, 9, 0), Token::Number(2.5f64.to_bits())),
        (Span::new(9, 10, 0), Token::Unknown("?".to_string())),
    ];
    assert_eq!(blocks(&tokens), tokens);
}

#[test]
fn strip_drops_whitespace_and_comments_only() {
    let tokens = vec![
        (Span::new(0, 1, 0), Token::LParen),
        ws(1, "  ", 0),
        (Span::new(3, 8, 0), Token::Comment("note".to_string())),
        (Span::new(8, 9, 0), Token::BlockCont),
        (Span::new(9, 10, 0), Token::Unknown("?".to_string())),
        ws(10, "\n", 0),
    ];
    assert_eq!(
        strip(&tokens),
        vec![
            (Span::new(0, 1, 0), Token::LParen),
            (Span::new(8, 9, 0), Token::BlockCont),
            (Span::new(9, 10, 0), Token::Unknown("?".to_string())),
        ]
    );
}

#[test]
fn the_markers_of_a_layout_match() {
    let tokens = vec![
        ws(0, "\n", 0),
        id(1, "a", 1),
        ws(2, "\n    ", 1),
        id(7, "b", 2),
        ws(8, "\n        ", 2),
        id(17, "c", 3),
        ws(18, " ", 3),
        id(19, "d", 3),
        ws(20, "\n  ", 3),
        id(23, "e", 4),
        ws(24, "\n      ", 4),
        id(31, "f", 5),
    ];
    let out = strip(&blocks(&tokens));
    let mut open: i64 = 0;
    for (_, token) in &out {
        match token {
            Token::BlockStart => open += 1,
            Token::BlockEnd => open -= 1,
            _ => {}
        }
        assert!(open >= 0);
    }
    assert_eq!(open, 0);
    assert_eq!(out.iter().filter(|t| t.1 == Token::BlockStart).count(), 3);
    assert!(out.iter().all(|t| !matches!(t.1, Token::Whitespace(_))));
}
