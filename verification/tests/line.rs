use crafty_novels::error::Error;
use crafty_novels::format::stendhal::parse;
use crafty_novels::syntax::minecraft::{Color, Format};
use crafty_novels::syntax::Token;

fn text(s: &str) -> Token {
    Token::Text(s.into())
}

fn tokens_of(input: &str) -> Vec<Token> {
    let mut tokens = Vec::new();
    parse::line(&mut tokens, input).unwrap();
    tokens
}

#[test]
fn line_format_codes_split_text() {
    assert_eq!(
        tokens_of("a§ob§rc"),
        vec![
            text("a"),
            Token::Format(Format::Italic),
            text("b"),
            Token::Format(Format::Reset),
            text("c"),
            Token::LineBreak,
        ]
    );
}

#[test]
fn line_unknown_code_fails_with_the_character() {
    let mut tokens = Vec::new();
    let result = parse::line(&mut tokens, "§z");
    assert!(matches!(result, Err(Error::NoSuchFormatCode('z'))));
    assert!(tokens.is_empty());
}

#[test]
fn line_lone_mark_fails_with_missing_code() {
    let mut tokens = Vec::new();
    let result = parse::line(&mut tokens, "§");
    assert!(matches!(result, Err(Error::MissingFormatCode)));
    assert!(tokens.is_empty());
}

#[test]
fn line_trailing_mark_fails_with_missing_code() {
    let mut tokens = Vec::new();
    let result = parse::line(&mut tokens, "abc§");
    assert!(matches!(result, Err(Error::MissingFormatCode)));
    assert!(tokens.is_empty());
}

#[test]
fn line_fault_keeps_tokens_before_it_and_drops_pending_text() {
    let mut tokens = vec![Token::ParagraphBreak];
    let result = parse::line(&mut tokens, "#- a b§");
    assert!(matches!(result, Err(Error::MissingFormatCode)));
    assert_eq!(
        tokens,
        vec![Token::ParagraphBreak, Token::ThematicBreak, text("a"), Token::Space]
    );
}

#[test]
fn line_mark_after_mark_is_an_unknown_code() {
    let mut tokens = Vec::new();
    let result = parse::line(&mut tokens, "§§");
    assert!(matches!(result, Err(Error::NoSuchFormatCode('§'))));
}

#[test]
fn line_mark_before_space_is_an_unknown_code() {
    let mut tokens = Vec::new();
    let result = parse::line(&mut tokens, "§ 0");
    assert!(matches!(result, Err(Error::NoSuchFormatCode(' '))));
}

#[test]
fn line_upper_case_code_is_unknown() {
    let mut tokens = Vec::new();
    let result = parse::line(&mut tokens, "x§O");
    assert!(matches!(result, Err(Error::NoSuchFormatCode('O'))));
}

#[test]
fn line_first_fault_wins() {
    let mut tokens = Vec::new();
    let result = parse::line(&mut tokens, "§z§");
    assert!(matches!(result, Err(Error::NoSuchFormatCode('z'))));
}

#[test]
fn line_page_marker_opens_a_page() {
    assert_eq!(
        tokens_of("#- Chapter One"),
        vec![
            Token::ThematicBreak,
            text("Chapter"),
            Token::Space,
            text("One"),
            Token::LineBreak,
        ]
    );
}

#[test]
fn line_after_page_marker_is_ordinary_content() {
    let mut with_marker = tokens_of("#- Chapter One");
    let without = tokens_of("Chapter One");
    assert_eq!(with_marker.remove(0), Token::ThematicBreak);
    assert_eq!(with_marker, without);
}

#[test]
fn line_doubled_page_marker_opens_a_page() {
    assert_eq!(
        tokens_of("##- Italic:§o text §rreset"),
        vec![
            Token::ThematicBreak,
            text("Italic:"),
            Token::Format(Format::Italic),
            Token::Space,
            text("text"),
            Token::Space,
            Token::Format(Format::Reset),
            text("reset"),
            Token::LineBreak,
        ]
    );
}

#[test]
fn line_page_marker_alone() {
    assert_eq!(tokens_of("#- "), vec![Token::ThematicBreak, Token::LineBreak]);
}

#[test]
fn line_page_marker_needs_its_space() {
    assert_eq!(tokens_of("#-x"), vec![text("#-x"), Token::LineBreak]);
    assert_eq!(tokens_of("#-"), vec![text("#-"), Token::LineBreak]);
}

#[test]
fn line_page_marker_only_counts_at_the_start() {
    assert_eq!(
        tokens_of("a #- b"),
        vec![
            text("a"),
            Token::Space,
            text("#-"),
            Token::Space,
            text("b"),
            Token::LineBreak,
        ]
    );
}

#[test]
fn line_second_page_marker_is_content() {
    assert_eq!(
        tokens_of("#- #- x"),
        vec![
            Token::ThematicBreak,
            text("#-"),
            Token::Space,
            text("x"),
            Token::LineBreak,
        ]
    );
}

#[test]
fn line_tripled_hash_is_content() {
    assert_eq!(
        tokens_of("###- x"),
        vec![text("###-"), Token::Space, text("x"), Token::LineBreak]
    );
}

#[test]
fn line_empty_yields_a_lone_line_break() {
    assert_eq!(tokens_of(""), vec![Token::LineBreak]);
}

#[test]
fn line_adjacent_characters_are_one_text() {
    assert_eq!(tokens_of("abc"), vec![text("abc"), Token::LineBreak]);
}

#[test]
fn line_never_has_two_texts_in_a_row() {
    for input in ["ab cd", "a§lb", "abc def§oghi §r jkl", "#- x§1y z", "  a  "] {
        let tokens = tokens_of(input);
        for pair in tokens.windows(2) {
            assert!(!(pair[0].is_text() && pair[1].is_text()));
        }
        for token in &tokens {
            assert_ne!(*token, text(""));
        }
        assert_eq!(tokens.last(), Some(&Token::LineBreak));
    }
}

#[test]
fn line_each_space_is_a_token() {
    assert_eq!(
        tokens_of(" a  b "),
        vec![
            Token::Space,
            text("a"),
            Token::Space,
            Token::Space,
            text("b"),
            Token::Space,
            Token::LineBreak,
        ]
    );
}

#[test]
fn line_end_adds_no_reset() {
    assert_eq!(
        tokens_of("§oabc"),
        vec![Token::Format(Format::Italic), text("abc"), Token::LineBreak]
    );
}

#[test]
fn line_codes_in_a_row() {
    assert_eq!(
        tokens_of("§l§4x"),
        vec![
            Token::Format(Format::Bold),
            Token::Format(Format::Color(Color::DarkRed)),
            text("x"),
            Token::LineBreak,
        ]
    );
}

#[test]
fn line_keeps_other_characters_verbatim() {
    assert_eq!(
        tokens_of("tab\there é–ü"),
        vec![text("tab\there"), Token::Space, text("é–ü"), Token::LineBreak]
    );
}

#[test]
fn line_appends_after_what_is_there() {
    let mut tokens = Vec::new();
    parse::line(&mut tokens, "one").unwrap();
    parse::line(&mut tokens, "").unwrap();
    parse::line(&mut tokens, "two").unwrap();
    assert_eq!(
        tokens,
        vec![
            text("one"),
            Token::LineBreak,
            Token::LineBreak,
            text("two"),
            Token::LineBreak,
        ]
    );
}

#[test]
fn line_chars_agrees_with_line() {
    for input in ["", "#- a§ob", "x y", "§k"] {
        let mut from_text = Vec::new();
        let mut from_chars = Vec::new();
        parse::line(&mut from_text, input).unwrap();
        let chars: Vec<char> = input.chars().collect();
        parse::line_chars(&mut from_chars, &chars).unwrap();
        assert_eq!(from_text, from_chars);
    }
}

#[test]
fn chars_of_gives_each_character() {
    assert_eq!(parse::chars_of(""), Vec::<char>::new());
    assert_eq!(parse::chars_of("a§é"), vec!['a', '§', 'é']);
}
