use crafty_novels::error::TokenizeError;
use crafty_novels::format::stendhal::split_lines;
use crafty_novels::format::stendhal::tokenize_lines;
use crafty_novels::import::Stendhal;
use crafty_novels::syntax::minecraft::Format;
use crafty_novels::syntax::{Metadata, Token, TokenList};

fn text(s: &str) -> Token {
    Token::Text(s.into())
}

fn lines(input: &str) -> Vec<String> {
    split_lines(input)
        .into_iter()
        .map(|line| line.into_iter().collect())
        .collect()
}

#[test]
fn tokenize_string_worked_example() {
    let input = "title: crafty_novels
author: RemasteredArch
pages:
#- Italic:§o text §rreset";

    let expected_metadata = Box::new([
        Metadata::Title("crafty_novels".into()),
        Metadata::Author("RemasteredArch".into()),
    ]);
    let expected_tokens = Box::new([
        Token::ThematicBreak,
        Token::Text("Italic:".into()),
        Token::Format(Format::Italic),
        Token::Space,
        Token::Text("text".into()),
        Token::Space,
        Token::Format(Format::Reset),
        Token::Text("reset".into()),
        Token::LineBreak,
    ]);

    assert_eq!(
        Stendhal::tokenize_string(input).unwrap(),
        TokenList::new_from_boxed(expected_metadata, expected_tokens)
    );
}

#[test]
fn tokenize_string_worked_example_with_doubled_marker() {
    let input = "title: crafty_novels\nauthor: RemasteredArch\npages:\n##- Italic:§o text §rreset";
    let list = Stendhal::tokenize_string(input).unwrap();
    assert_eq!(
        list.metadata_as_slice(),
        &[
            Metadata::Title("crafty_novels".into()),
            Metadata::Author("RemasteredArch".into()),
        ]
    );
    assert_eq!(
        list.tokens_as_slice(),
        &[
            Token::ThematicBreak,
            text("Italic:"),
            Token::Format(Format::Italic),
            Token::Space,
            text("text"),
            Token::Space,
            Token::Format(Format::Reset),
            text("reset"),
            Token::LineBreak,
        ]
    );
}

#[test]
fn tokenize_string_frontmatter_alone() {
    for input in ["title: T\nauthor: A\npages:\n", "title: T\nauthor: A\npages:"] {
        let list = Stendhal::tokenize_string(input).unwrap();
        assert_eq!(
            list.metadata_as_slice(),
            &[Metadata::Title("T".into()), Metadata::Author("A".into())]
        );
        assert!(list.tokens_as_slice().is_empty());
    }
}

#[test]
fn tokenize_string_blank_body_lines_are_line_breaks() {
    let list = Stendhal::tokenize_string("title: T\nauthor: A\npages:\n\n\n\n").unwrap();
    assert_eq!(
        list.tokens_as_slice(),
        &[Token::LineBreak, Token::LineBreak, Token::LineBreak]
    );
}

#[test]
fn tokenize_string_one_line_break_for_each_body_line() {
    let list = Stendhal::tokenize_string("title: T\nauthor: A\npages:\n#- a\n\nb c\n§r").unwrap();
    let breaks = list
        .tokens_as_slice()
        .iter()
        .filter(|token| **token == Token::LineBreak)
        .count();
    assert_eq!(breaks, 4);
    assert_eq!(
        list.tokens_as_slice(),
        &[
            Token::ThematicBreak,
            text("a"),
            Token::LineBreak,
            Token::LineBreak,
            text("b"),
            Token::Space,
            text("c"),
            Token::LineBreak,
            Token::Format(Format::Reset),
            Token::LineBreak,
        ]
    );
}

#[test]
fn tokenize_string_without_pages_line_fails() {
    let result = Stendhal::tokenize_string("title: T\nauthor: A\n");
    assert!(matches!(result, Err(TokenizeError::MalformedSyntaxItem)));
}

#[test]
fn tokenize_string_of_nothing_fails() {
    let result = Stendhal::tokenize_string("");
    assert!(matches!(result, Err(TokenizeError::MalformedSyntaxItem)));
}

#[test]
fn tokenize_string_with_malformed_frontmatter_fails() {
    for input in [
        "author: A\ntitle: T\npages:\n",
        "title:T\nauthor: A\npages:\n",
        "title: T\nauthor: A\npages: 3\n",
        "\ntitle: T\nauthor: A\npages:\n",
        "title: T\n\nauthor: A\npages:\n",
    ] {
        let result = Stendhal::tokenize_string(input);
        assert!(matches!(result, Err(TokenizeError::MalformedSyntaxItem)));
    }
}

#[test]
fn tokenize_string_with_bad_format_code_fails() {
    for input in [
        "title: T\nauthor: A\npages:\nfine\n§z\nfine",
        "title: T\nauthor: A\npages:\nfine\nbad§",
    ] {
        let result = Stendhal::tokenize_string(input);
        assert!(matches!(result, Err(TokenizeError::MalformedSyntaxItem)));
    }
}

#[test]
fn tokenize_string_does_not_read_codes_in_the_frontmatter() {
    let list = Stendhal::tokenize_string("title: §z\nauthor: a §\npages:\n").unwrap();
    assert_eq!(
        list.metadata_as_slice(),
        &[Metadata::Title("§z".into()), Metadata::Author("a §".into())]
    );
}

#[test]
fn tokenize_string_strips_carriage_returns_before_line_feeds() {
    let list = Stendhal::tokenize_string("title: T\r\nauthor: A\r\npages:\r\nab\r\n\r\ncd").unwrap();
    assert_eq!(
        list.metadata_as_slice(),
        &[Metadata::Title("T".into()), Metadata::Author("A".into())]
    );
    assert_eq!(
        list.tokens_as_slice(),
        &[
            text("ab"),
            Token::LineBreak,
            Token::LineBreak,
            text("cd"),
            Token::LineBreak,
        ]
    );
}

#[test]
fn tokenize_string_format_does_not_carry_a_reset_over_lines() {
    let list = Stendhal::tokenize_string("title: T\nauthor: A\npages:\n§oa\nb").unwrap();
    assert_eq!(
        list.tokens_as_slice(),
        &[
            Token::Format(Format::Italic),
            text("a"),
            Token::LineBreak,
            text("b"),
            Token::LineBreak,
        ]
    );
}

#[test]
fn tokenize_string_never_has_two_texts_in_a_row() {
    let list = Stendhal::tokenize_string("title: T\nauthor: A\npages:\nab\ncd ef\n#- gh§lij\nkl").unwrap();
    for pair in list.tokens_as_slice().windows(2) {
        assert!(!(pair[0].is_text() && pair[1].is_text()));
    }
}

#[test]
fn tokenize_lines_agrees_with_tokenize_string() {
    let input = "title: T\nauthor: A\npages:\n#- a b\n§1c";
    let by_line = tokenize_lines(&split_lines(input)).unwrap();
    assert_eq!(by_line, Stendhal::tokenize_string(input).unwrap());
    assert!(matches!(
        tokenize_lines(&split_lines("title: T")),
        Err(TokenizeError::MalformedSyntaxItem)
    ));
}

#[test]
fn split_lines_splits_as_str_lines_does() {
    for input in [
        "",
        "a",
        "a\n",
        "a\n\n",
        "\n",
        "\n\n",
        "a\nb",
        "a\r\nb\r\n",
        "a\r",
        "a\r\n",
        "\r",
        "\r\n",
        "a\r\r\n",
        "a\rb\nc",
        "\n\r",
        "title: T\nauthor: A\npages:\n",
        " a \n\tb\n§",
    ] {
        let expected: Vec<String> = input.lines().map(|line| line.to_string()).collect();
        assert_eq!(lines(input), expected);
    }
}

#[test]
fn split_lines_exact_values() {
    assert_eq!(lines("a\r\nb\n\nc\r"), vec!["a", "b", "", "c\r"]);
    assert_eq!(lines("\n"), vec![""]);
    assert_eq!(lines(""), Vec::<String>::new());
}
