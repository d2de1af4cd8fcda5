//! Parsing of the [Stendhal] format.
//! See [`Stendhal`] for more details.
//!
//! [Stendhal]: https://modrinth.com/mod/stendhal

use crate::error::{reported_as, Error, TokenizeError};
use crate::syntax::{
    boxed_slice, text_runs_collapsed, token_views, Token, TokenList, TokenListView, TokenView,
};
use parse::{
    chars_of, frontmatter_chars, frontmatter_of, line_chars, line_tokens, line_views, Emission,
};
use theory::lemma_document_collapsed;
use vstd::prelude::*;

pub mod parse;
pub mod stream;
pub mod theory;

verus! {

/// Parses the [Stendhal] format.
///
/// # Expected format
///
/// *Convention: `"a string"` `'a single character'` (the `"` or `'` are not necessarily
/// present).*
///
/// The first three lines make up the frontmatter:
/// 1. Starts with `"title: "`, the rest is considered the title of the book
/// 2. Starts with `"author: "`, the rest is considered the author's name, which is probably
///    whoever exported the book
/// 3. Is `"pages:"`
///
/// For the rest of the book:
/// - Any line that starts with `"#- "` (or with `"##- "`) is considered the start of a new
///   page, and the text following the marker makes up the first line of the new page
/// - `'§'`, followed by one of a set of characters makes up a format code, represented in
///   syntax by [`Format`][`crate::syntax::minecraft::Format`]
///     - The resulting format continues until the next line ending or
///       [reset][`crate::syntax::minecraft::Format::Reset`] format code
///
/// [Stendhal]: https://modrinth.com/mod/stendhal
pub struct Stendhal;

/// `line` without the carriage return that it ends in, if it ends in one.
pub open spec fn without_carriage_return(line: Seq<char>) -> Seq<char> {
    if line.len() > 0 && line.last() == '\r' {
        line.drop_last()
    } else {
        line
    }
}

/// The lines of `text` from position `start` on, where no line ends between `start` and
/// `at`.
///
/// A line ends at a line feed. The line feed is not part of the line, nor is a carriage
/// return just before it. What follows the last line feed is a line too, unless it is
/// empty; a carriage return at its end stays.
pub open spec fn lines_from(text: Seq<char>, start: int, at: int) -> Seq<Seq<char>>
    decreases text.len() - at,
{
    if at < 0 || at >= text.len() {
        if start >= text.len() {
            Seq::empty()
        } else {
            seq![text.skip(start)]
        }
    } else if text[at] == '\n' {
        seq![without_carriage_return(text.subrange(start, at))] + lines_from(text, at + 1, at + 1)
    } else {
        lines_from(text, start, at + 1)
    }
}

/// The lines of `text`, without their terminators.
pub open spec fn lines_of(text: Seq<char>) -> Seq<Seq<char>> {
    lines_from(text, 0, 0)
}

/// What the lines from position `from` on yield, each after the other, up to the first
/// fault.
pub open spec fn body_tokens(lines: Seq<Seq<char>>, from: int) -> Emission
    decreases lines.len() - from,
{
    if from < 0 || from >= lines.len() {
        Emission { tokens: Seq::empty(), fault: None }
    } else {
        let first = line_tokens(lines[from]);
        if first.fault is Some {
            first
        } else {
            body_tokens(lines, from + 1).after(first.tokens)
        }
    }
}

/// The document that `lines` hold: the metadata of the frontmatter and the tokens of the
/// lines after it, or the first fault.
pub open spec fn document_of(lines: Seq<Seq<char>>) -> Result<TokenListView, Error> {
    match frontmatter_of(lines) {
        None => Err(Error::IncompleteOrMissingFrontmatter),
        Some(metadata) => {
            let body = body_tokens(lines, 3);
            match body.fault {
                Some(fault) => Err(fault),
                None => Ok(TokenListView { metadata, tokens: body.tokens }),
            }
        },
    }
}

/// Split `input` into its lines, each given by its characters.
pub fn split_lines(input: &str) -> (lines: Vec<Vec<char>>)
    ensures
        line_views(lines@) == lines_of(input@),
{
    let text = chars_of(input);
    let mut lines: Vec<Vec<char>> = Vec::new();
    let mut current: Vec<char> = Vec::new();
    let ghost start: int = 0;
    let mut at: usize = 0;
    while at < text.len()
        invariant
            0 <= start <= at <= text@.len(),
            text@ == input@,
            current@ == text@.subrange(start, at as int),
            line_views(lines@) + lines_from(text@, start, at as int) == lines_of(text@),
        decreases text@.len() - at,
    {
        let c = text[at];
        if c == '\n' {
            if current.len() > 0 && current[current.len() - 1] == '\r' {
                current.pop();
            }
            assert(current@ == without_carriage_return(text@.subrange(start, at as int)));
            assert(line_views(lines@.push(current)) == line_views(lines@) + seq![current@]);
            assert(line_views(lines@) + (seq![current@] + lines_from(text@, at + 1, at + 1))
                == line_views(lines@) + seq![current@] + lines_from(text@, at + 1, at + 1));
            lines.push(current);
            current = Vec::new();
            proof {
                start = at + 1;
            }
        } else {
            current.push(c);
            assert(text@.subrange(start, at + 1) == text@.subrange(start, at as int).push(c));
        }
        at += 1;
    }
    if current.len() > 0 {
        assert(text@.subrange(start, at as int) == text@.skip(start));
        assert(line_views(lines@.push(current)) == line_views(lines@) + seq![current@]);
        lines.push(current);
    } else {
        assert(line_views(lines@) + Seq::<Seq<char>>::empty() == line_views(lines@));
    }
    lines
}

/// Tokenize a document given by its lines, each given by its characters.
pub fn tokenize_lines(lines: &[Vec<char>]) -> (result: Result<TokenList, TokenizeError>)
    ensures
        match document_of(line_views(lines@)) {
            Ok(document) => result matches Ok(list) && list@ == document,
            Err(fault) => result matches Err(kind) && kind == reported_as(fault),
        },
        result matches Ok(list) ==> text_runs_collapsed(list@.tokens),
{
    proof {
        lemma_document_collapsed(line_views(lines@));
    }
    let metadata = match frontmatter_chars(lines) {
        Ok(metadata) => metadata,
        Err(fault) => {
            return Err(TokenizeError::from(fault));
        },
    };
    let ghost all = line_views(lines@);
    let ghost emitted: Seq<TokenView> = Seq::empty();
    let mut tokens: Vec<Token> = Vec::new();
    let mut at: usize = 3;
    assert(token_views(tokens@) == emitted);
    while at < lines.len()
        invariant
            3 <= at <= lines@.len(),
            all == line_views(lines@),
            frontmatter_of(all) is Some,
            token_views(tokens@) == emitted,
            body_tokens(all, at as int).after(emitted) == body_tokens(all, 3),
        decreases lines@.len() - at,
    {
        let ghost first = line_tokens(all[at as int]);
        match line_chars(&mut tokens, lines[at].as_slice()) {
            Ok(()) => {
                proof {
                    body_tokens(all, at + 1).lemma_after_twice(emitted, first.tokens);
                    emitted = emitted + first.tokens;
                }
            },
            Err(fault) => {
                return Err(TokenizeError::from(fault));
            },
        }
        at += 1;
    }
    assert(emitted + Seq::<TokenView>::empty() == emitted);
    let list = TokenList::new_from_boxed(metadata, boxed_slice(tokens));
    Ok(list)
}

impl Stendhal {
    /// Parse a string in the Stendhal format into a list of tokens.
    ///
    /// The list holds the document that the lines of `input` form. Among its tokens no text
    /// is empty and no two neighbours are both text.
    ///
    /// # Errors
    ///
    /// [`TokenizeError::MalformedSyntaxItem`] if
    /// - `input` ends before the frontmatter is complete, or the frontmatter has another
    ///   shape than the expected one,
    /// - a line holds a `'§'` that isn't followed by another character, or
    /// - a line holds a `'§'` that isn't followed by a valid
    ///   [`Format`][`crate::syntax::minecraft::Format`] character.
    pub fn tokenize_string(input: &str) -> (result: Result<TokenList, TokenizeError>)
        ensures
            match document_of(lines_of(input@)) {
                Ok(document) => result matches Ok(list) && list@ == document,
                Err(fault) => result matches Err(kind) && kind == reported_as(fault),
            },
            result matches Ok(list) ==> text_runs_collapsed(list@.tokens),
    {
        let lines = split_lines(input);
        tokenize_lines(lines.as_slice())
    }
}

} // verus!
