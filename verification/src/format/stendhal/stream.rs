//! Tokenizing a document that arrives line by line.
//!
//! Pulling lines from a reader can fail, and is not done here. Whoever owns the reader
//! opens a [`Session`], pulls a line, hands the outcome to [`Session::step`] as a [`Pull`],
//! and goes on as the [`Step`] that comes back says.

use super::parse::{
    chars_of, frontmatter_chars, frontmatter_of, line_chars, line_views, Emission,
};
use super::theory::{lemma_body_tokens_push, lemma_document_collapsed};
use super::{body_tokens, document_of};
use crate::error::{reported_as, Error, TokenizeError};
use crate::syntax::{
    boxed_slice, metadata_views, text_runs_collapsed, token_views, Metadata, Token, TokenList,
};
use vstd::prelude::*;

verus! {

/// What one pull on the line source gave.
pub enum Pull {
    /// The next line, its terminator already stripped.
    Line(String),
    /// The source has no more lines.
    End,
    /// The source failed to produce the next line.
    Fault(std::io::Error),
}

/// What to do after a pull has been taken in.
pub enum Step {
    /// Pull again, and hand the outcome to the session that this holds.
    More(Session),
    /// The document is complete.
    Done(TokenList),
    /// The document cannot be tokenized; nothing of it is kept.
    Failed(TokenizeError),
}

/// The state of a tokenizer between two pulls: what the lines taken in so far amount to.
///
/// The first three lines are kept until all three are there, and only then read as the
/// frontmatter, so that a failing source is reported as such even where a line read
/// before the failure was malformed. Each later line is tokenized as it comes.
pub struct Session {
    header: Vec<Vec<char>>,
    metadata: Option<Box<[Metadata]>>,
    tokens: Vec<Token>,
    seen: Ghost<Seq<Seq<char>>>,
}

impl Session {
    #[verifier::type_invariant]
    spec fn inv(&self) -> bool {
        match self.metadata {
            None => {
                &&& self.seen@.len() < 3
                &&& line_views(self.header@) == self.seen@
                &&& self.tokens@.len() == 0
            },
            Some(metadata) => {
                &&& self.seen@.len() >= 3
                &&& frontmatter_of(self.seen@) == Some(metadata_views(metadata@))
                &&& body_tokens(self.seen@, 3) == (Emission {
                    tokens: token_views(self.tokens@),
                    fault: None,
                })
            },
        }
    }

    /// The lines taken in so far, in order.
    pub closed spec fn lines(&self) -> Seq<Seq<char>> {
        self.seen@
    }

    /// A session that has taken in no line yet.
    pub fn new() -> (session: Session)
        ensures
            session.lines() == Seq::<Seq<char>>::empty(),
    {
        let header: Vec<Vec<char>> = Vec::new();
        assert(line_views(header@) == Seq::<Seq<char>>::empty());
        Session { header, metadata: None, tokens: Vec::new(), seen: Ghost(Seq::empty()) }
    }

    /// Take in the outcome of one pull.
    ///
    /// - A line joins the lines taken in. While fewer than three are there, and as long as
    ///   the lines taken in form a document, more are asked for. The line that breaks the
    ///   document fails the run, with the fault that [`document_of`] gives.
    /// - The end of the source completes the run: with the document that the lines taken in
    ///   form, or, where fewer than three came, with the fault of a missing frontmatter.
    /// - A fault of the source fails the run and is handed on as [`TokenizeError::Io`].
    pub fn step(self, pull: Pull) -> (step: Step)
        ensures
            match pull {
                Pull::Line(text) => {
                    let lines = self.lines().push(text@);
                    if lines.len() < 3 {
                        step matches Step::More(next) && next.lines() == lines
                    } else {
                        match document_of(lines) {
                            Ok(_) => step matches Step::More(next) && next.lines() == lines,
                            Err(fault) => step matches Step::Failed(kind) && kind == reported_as(
                                fault,
                            ),
                        }
                    }
                },
                Pull::End => match document_of(self.lines()) {
                    Ok(document) => step matches Step::Done(list) && list@ == document
                        && text_runs_collapsed(list@.tokens),
                    Err(fault) => step matches Step::Failed(kind) && kind == reported_as(fault),
                },
                Pull::Fault(cause) => step == Step::Failed(TokenizeError::Io(cause)),
            },
    {
        proof {
            use_type_invariant(&self);
            lemma_document_collapsed(self.seen@);
        }
        let ghost seen = self.seen@;
        let Session { header, metadata, tokens, seen: _ } = self;
        let mut header = header;
        let mut tokens = tokens;
        match pull {
            Pull::Fault(cause) => Step::Failed(TokenizeError::Io(cause)),
            Pull::End => match metadata {
                None => Step::Failed(TokenizeError::from(Error::IncompleteOrMissingFrontmatter)),
                Some(metadata) => Step::Done(
                    TokenList::new_from_boxed(metadata, boxed_slice(tokens)),
                ),
            },
            Pull::Line(text) => {
                let chars = chars_of(text.as_str());
                let ghost lines = seen.push(chars@);
                match metadata {
                    None => {
                        assert(line_views(header@.push(chars)) == lines);
                        header.push(chars);
                        if header.len() < 3 {
                            Step::More(
                                Session { header, metadata: None, tokens, seen: Ghost(lines) },
                            )
                        } else {
                            match frontmatter_chars(header.as_slice()) {
                                Err(fault) => Step::Failed(TokenizeError::from(fault)),
                                Ok(found) => {
                                    assert(token_views(tokens@) == body_tokens(lines, 3).tokens);
                                    Step::More(
                                        Session {
                                            header: Vec::new(),
                                            metadata: Some(found),
                                            tokens,
                                            seen: Ghost(lines),
                                        },
                                    )
                                },
                            }
                        }
                    },
                    Some(found) => {
                        proof {
                            lemma_body_tokens_push(seen, 3, chars@);
                            assert(lines[0] == seen[0] && lines[1] == seen[1] && lines[2]
                                == seen[2]);
                        }
                        match line_chars(&mut tokens, chars.as_slice()) {
                            Err(fault) => Step::Failed(TokenizeError::from(fault)),
                            Ok(()) => Step::More(
                                Session {
                                    header,
                                    metadata: Some(found),
                                    tokens,
                                    seen: Ghost(lines),
                                },
                            ),
                        }
                    },
                }
            },
        }
    }
}

} // verus!
