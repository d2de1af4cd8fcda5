use crafty_novels::error::TokenizeError;
use crafty_novels::format::stendhal::stream::{Session, Pull, Step};
use crafty_novels::import::Stendhal;
use crafty_novels::syntax::{Metadata, Token, TokenList};

fn run(pulls: Vec<Pull>) -> Result<TokenList, TokenizeError> {
    let mut session = Session::new();
    for pull in pulls {
        match session.step(pull) {
            Step::More(next) => session = next,
            Step::Done(list) => return Ok(list),
            Step::Failed(kind) => return Err(kind),
        }
    }
    panic!("the session asked for more after the last pull");
}

fn run_lines(lines: &[&str]) -> Result<TokenList, TokenizeError> {
    let mut pulls: Vec<Pull> = lines.iter().map(|l| Pull::Line(l.to_string())).collect();
    pulls.push(Pull::End);
    run(pulls)
}

fn io_fault() -> std::io::Error {
    std::io::Error::new(std::io::ErrorKind::BrokenPipe, "gone")
}

#[test]
fn stream_agrees_with_string() {
    for input in [
        "title: T\nauthor: A\npages:\n",
        "title: T\nauthor: A\npages:\n#- a b\n\n§oc§r d",
        "title: crafty_novels\nauthor: RemasteredArch\npages:\n#- Italic:§o text §rreset",
    ] {
        let lines: Vec<&str> = input.lines().collect();
        assert_eq!(
            run_lines(&lines).unwrap(),
            Stendhal::tokenize_string(input).unwrap()
        );
    }
}

#[test]
fn stream_frontmatter_alone() {
    let list = run_lines(&["title: T", "author: A", "pages:"]).unwrap();
    assert_eq!(
        list.metadata_as_slice(),
        &[Metadata::Title("T".into()), Metadata::Author("A".into())]
    );
    assert!(list.tokens_as_slice().is_empty());
}

#[test]
fn stream_body_lines() {
    let list = run_lines(&["title: T", "author: A", "pages:", "x", ""]).unwrap();
    assert_eq!(
        list.tokens_as_slice(),
        &[Token::Text("x".into()), Token::LineBreak, Token::LineBreak]
    );
}

#[test]
fn stream_that_ends_in_the_frontmatter_fails() {
    for lines in [
        &[][..],
        &["title: T"][..],
        &["title: T", "author: A"][..],
        &["bad", "worse"][..],
    ] {
        assert!(matches!(
            run_lines(lines),
            Err(TokenizeError::MalformedSyntaxItem)
        ));
    }
}

#[test]
fn stream_with_malformed_frontmatter_fails_at_the_third_line() {
    let session = Session::new();
    let session = match session.step(Pull::Line("no title".to_string())) {
        Step::More(next) => next,
        _ => panic!("the first line was judged alone"),
    };
    let session = match session.step(Pull::Line("author: A".to_string())) {
        Step::More(next) => next,
        _ => panic!("the second line was judged alone"),
    };
    assert!(matches!(
        session.step(Pull::Line("pages:".to_string())),
        Step::Failed(TokenizeError::MalformedSyntaxItem)
    ));
}

#[test]
fn stream_fault_in_the_frontmatter_is_an_io_fault() {
    let result = run(vec![
        Pull::Line("no title".to_string()),
        Pull::Fault(io_fault()),
    ]);
    match result {
        Err(TokenizeError::Io(e)) => assert_eq!(e.kind(), std::io::ErrorKind::BrokenPipe),
        other => panic!("ended as {:?}", other),
    }
}

#[test]
fn stream_fault_at_the_first_pull_is_an_io_fault() {
    assert!(matches!(
        run(vec![Pull::Fault(io_fault())]),
        Err(TokenizeError::Io(_))
    ));
}

#[test]
fn stream_fault_in_the_body_is_an_io_fault() {
    let result = run(vec![
        Pull::Line("title: T".to_string()),
        Pull::Line("author: A".to_string()),
        Pull::Line("pages:".to_string()),
        Pull::Line("fine".to_string()),
        Pull::Fault(io_fault()),
    ]);
    assert!(matches!(result, Err(TokenizeError::Io(_))));
}

#[test]
fn stream_bad_format_code_fails_at_its_line() {
    let result = run(vec![
        Pull::Line("title: T".to_string()),
        Pull::Line("author: A".to_string()),
        Pull::Line("pages:".to_string()),
        Pull::Line("a§".to_string()),
    ]);
    assert!(matches!(result, Err(TokenizeError::MalformedSyntaxItem)));
    assert!(matches!(
        run_lines(&["title: T", "author: A", "pages:", "ok", "§z", "ok"]),
        Err(TokenizeError::MalformedSyntaxItem)
    ));
}

#[test]
fn stream_asks_for_more_until_the_end() {
    let mut session = Session::new();
    for text in ["title: T", "author: A", "pages:", "a", "b", "c"] {
        session = match session.step(Pull::Line(text.to_string())) {
            Step::More(next) => next,
            _ => panic!("stopped at {:?}", text),
        };
    }
    match session.step(Pull::End) {
        Step::Done(list) => assert_eq!(list.tokens_as_slice().len(), 6),
        _ => panic!("did not complete"),
    }
}
