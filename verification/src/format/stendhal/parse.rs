//! The grammar of the Stendhal format, line by line.
//!
//! The model at the top says, over sequences of characters, what each line yields. The
//! functions below it do the work and are proved to yield exactly that.
//!
//! Two choices that the format leaves open are settled here:
//! - an empty line yields a lone [`Token::LineBreak`]; no line ever yields a
//!   [`Token::ParagraphBreak`], which is left to whoever reads the token stream;
//! - a format lasts until the next reset code or line end, and no reset token is put at a
//!   line end: the reader of the stream ends the format at each [`Token::LineBreak`].

use super::theory::lemma_line_collapsed;
use crate::error::Error;
use crate::syntax::minecraft::{format_of, Format};
use crate::syntax::{
    boxed_slice, lemma_token_views_push, metadata_views, text_of, text_runs_collapsed,
    token_views, Metadata, MetadataView, Token, TokenView,
};
use vstd::prelude::*;

verus! {

/// The character that opens a format code.
pub const FORMAT_MARK: char = '§';

/// What a line, or a run of lines, yields: the tokens up to the end or to the first
/// fault, and that fault.
pub struct Emission {
    pub tokens: Seq<TokenView>,
    pub fault: Option<Error>,
}

impl Emission {
    /// The same outcome, with `before` in front of the tokens.
    pub open spec fn after(self, before: Seq<TokenView>) -> Emission {
        Emission { tokens: before + self.tokens, fault: self.fault }
    }

    /// Putting `second` and then `first` in front is putting `first + second` in front.
    pub proof fn lemma_after_twice(self, first: Seq<TokenView>, second: Seq<TokenView>)
        ensures
            self.after(second).after(first) == self.after(first + second),
    {
        assert(first + (second + self.tokens) =~= (first + second) + self.tokens);
    }
}

/// The token that pending text becomes: none where nothing is pending.
pub open spec fn text_run(pending: Seq<char>) -> Seq<TokenView> {
    if pending.len() == 0 {
        Seq::empty()
    } else {
        seq![TokenView::Text(pending)]
    }
}

/// What `line` yields from position `at` on, with the characters `pending` read but not
/// yet emitted.
///
/// A format code and a space each end the pending text; any other character joins it. The
/// end of the line ends the text too, and adds the line break. A `'§'` that no known code
/// follows is a fault, and what was pending then is not emitted.
pub open spec fn scan(line: Seq<char>, at: int, pending: Seq<char>) -> Emission
    decreases line.len() - at,
{
    if at < 0 || at >= line.len() {
        Emission { tokens: text_run(pending).push(TokenView::LineBreak), fault: None }
    } else if line[at] == FORMAT_MARK {
        if at + 1 >= line.len() {
            Emission { tokens: Seq::empty(), fault: Some(Error::MissingFormatCode) }
        } else {
            match format_of(line[at + 1]) {
                Some(format) => scan(line, at + 2, Seq::empty()).after(
                    text_run(pending).push(TokenView::Format(format)),
                ),
                None => Emission {
                    tokens: Seq::empty(),
                    fault: Some(Error::NoSuchFormatCode(line[at + 1])),
                },
            }
        }
    } else if line[at] == ' ' {
        scan(line, at + 1, Seq::empty()).after(text_run(pending).push(TokenView::Space))
    } else {
        scan(line, at + 1, pending.push(line[at]))
    }
}

/// The page marker that `line` opens with, or the empty sequence.
///
/// A page opens with `"#- "`; the doubled form `"##- "` is taken for the same.
pub open spec fn page_marker(line: Seq<char>) -> Seq<char> {
    if "#- "@.is_prefix_of(line) {
        "#- "@
    } else if "##- "@.is_prefix_of(line) {
        "##- "@
    } else {
        Seq::empty()
    }
}

/// What one line of the body yields.
///
/// A line that opens with a page marker yields a thematic break, and what follows the
/// marker is the first content of the new page.
pub open spec fn line_tokens(line: Seq<char>) -> Emission {
    let marker = page_marker(line);
    if marker.len() > 0 {
        scan(line, marker.len() as int, Seq::empty()).after(seq![TokenView::ThematicBreak])
    } else {
        scan(line, 0, Seq::empty())
    }
}

/// The metadata that the frontmatter holds, where `lines` opens with a well-formed one.
///
/// The first line is `"title: "` and the title, the second `"author: "` and the author,
/// each verbatim to the end of the line; the third is `"pages:"` and nothing else. Lines
/// after the third are not looked at.
pub open spec fn frontmatter_of(lines: Seq<Seq<char>>) -> Option<Seq<MetadataView>> {
    if lines.len() >= 3 && "title: "@.is_prefix_of(lines[0]) && "author: "@.is_prefix_of(lines[1])
        && lines[2] == "pages:"@ {
        Some(
            seq![
                MetadataView::Title(lines[0].skip("title: "@.len() as int)),
                MetadataView::Author(lines[1].skip("author: "@.len() as int)),
            ],
        )
    } else {
        None
    }
}

/// The lines that a sequence of vectors of characters stands for.
pub open spec fn line_views(lines: Seq<Vec<char>>) -> Seq<Seq<char>> {
    Seq::new(lines.len(), |i: int| lines[i]@)
}

/// The lines that a sequence of string slices stands for.
pub open spec fn str_views(lines: Seq<&str>) -> Seq<Seq<char>> {
    Seq::new(lines.len(), |i: int| lines[i]@)
}

/// The characters of `text`, in order.
pub fn chars_of(text: &str) -> (chars: Vec<char>)
    ensures
        chars@ == text@,
{
    broadcast use vstd::string::group_string_axioms;

    let mut chars: Vec<char> = Vec::new();
    for c in it: text.chars()
        invariant
            it.seq() == text@,
            chars@ == text@.take(it.index()),
    {
        chars.push(c);
    }
    assert(text@.take(text@.len() as int) == text@);
    chars
}

/// Whether `line` opens with `prefix`; if so, the length of `prefix` in characters.
pub fn match_prefix(line: &[char], prefix: &str) -> (len: Option<usize>)
    ensures
        len is Some <==> prefix@.is_prefix_of(line@),
        len matches Some(n) ==> n == prefix@.len(),
{
    broadcast use vstd::string::group_string_axioms;

    let mut at: usize = 0;
    for c in it: prefix.chars()
        invariant
            it.seq() == prefix@,
            at == it.index(),
            at <= line@.len(),
            line@.take(at as int) == prefix@.take(at as int),
    {
        if at >= line.len() || line[at] != c {
            assert(!prefix@.is_prefix_of(line@)) by {
                if prefix@.is_prefix_of(line@) {
                    assert(line@.subrange(0, prefix@.len() as int)[at as int] == prefix@[at as int]);
                }
            }
            return None;
        }
        assert(line@.take(at + 1) == line@.take(at as int).push(line@[at as int]));
        assert(prefix@.take(at + 1) == prefix@.take(at as int).push(prefix@[at as int]));
        at += 1;
    }
    assert(prefix@.take(prefix@.len() as int) == prefix@);
    Some(at)
}

/// Emit the pending text, if there is any, and leave nothing pending.
fn flush(tokens: &mut Vec<Token>, pending: &mut Vec<char>)
    ensures
        final(pending)@ == Seq::<char>::empty(),
        old(tokens)@.is_prefix_of(final(tokens)@),
        token_views(final(tokens)@) == token_views(old(tokens)@) + text_run(old(pending)@),
{
    if pending.len() > 0 {
        let token = Token::drain_text(pending);
        proof {
            lemma_token_views_push(tokens@, token);
        }
        tokens.push(token);
    } else {
        assert(token_views(tokens@) + text_run(pending@) == token_views(tokens@));
    }
}

/// Emit a token that carries no text.
fn emit(tokens: &mut Vec<Token>, token: Token)
    ensures
        old(tokens)@.is_prefix_of(final(tokens)@),
        token_views(final(tokens)@) == token_views(old(tokens)@).push(token@),
{
    proof {
        lemma_token_views_push(tokens@, token);
    }
    tokens.push(token);
}

/// Tokenize one line of the body, given by its characters, onto the end of `tokens`.
///
/// The tokens that were there stay. On a fault, the tokens of the line up to the fault
/// have been appended, and the text pending at the fault has not. Among the tokens
/// appended, no text is empty and no two neighbours are both text.
pub fn line_chars(tokens: &mut Vec<Token>, line: &[char]) -> (result: Result<(), Error>)
    ensures
        old(tokens)@.is_prefix_of(final(tokens)@),
        token_views(final(tokens)@) == token_views(old(tokens)@) + line_tokens(line@).tokens,
        text_runs_collapsed(token_views(final(tokens)@).skip(old(tokens)@.len() as int)),
        result == match line_tokens(line@).fault {
            Some(fault) => Err::<(), Error>(fault),
            None => Ok(()),
        },
{
    proof {
        lemma_line_collapsed(line@);
        assert((token_views(tokens@) + line_tokens(line@).tokens).skip(tokens@.len() as int)
            == line_tokens(line@).tokens);
    }
    let ghost before = token_views(tokens@);
    let ghost emitted: Seq<TokenView> = Seq::empty();
    let mut pending: Vec<char> = Vec::new();
    let mut at: usize = 0;
    let marker = match match_prefix(line, "#- ") {
        Some(len) => Some(len),
        None => match_prefix(line, "##- "),
    };
    proof {
        reveal_strlit("#- ");
        reveal_strlit("##- ");
    }
    if let Some(len) = marker {
        emit(tokens, Token::ThematicBreak);
        at = len;
        proof {
            emitted = seq![TokenView::ThematicBreak];
        }
    }
    assert(token_views(tokens@) == before + emitted);
    while at < line.len()
        invariant
            at <= line@.len(),
            old(tokens)@.is_prefix_of(tokens@),
            before == token_views(old(tokens)@),
            token_views(tokens@) == before + emitted,
            text_runs_collapsed(line_tokens(line@).tokens),
            scan(line@, at as int, pending@).after(emitted) == line_tokens(line@),
        decreases line@.len() - at,
    {
        let c = line[at];
        if c == FORMAT_MARK {
            if at + 1 >= line.len() {
                assert(emitted + Seq::<TokenView>::empty() == emitted);
                assert((before + emitted).skip(before.len() as int) == emitted);
                return Err(Error::MissingFormatCode);
            }
            let code = line[at + 1];
            match Format::from_code(code) {
                None => {
                    assert(emitted + Seq::<TokenView>::empty() == emitted);
                    assert((before + emitted).skip(before.len() as int) == emitted);
                    return Err(Error::NoSuchFormatCode(code));
                },
                Some(format) => {
                    let ghost step = text_run(pending@).push(TokenView::Format(format));
                    flush(tokens, &mut pending);
                    emit(tokens, Token::Format(format));
                    proof {
                        scan(line@, at + 2, Seq::empty()).lemma_after_twice(emitted, step);
                        assert(token_views(tokens@) == before + (emitted + step));
                        emitted = emitted + step;
                    }
                    at += 2;
                },
            }
        } else if c == ' ' {
            let ghost step = text_run(pending@).push(TokenView::Space);
            flush(tokens, &mut pending);
            emit(tokens, Token::Space);
            proof {
                scan(line@, at + 1, Seq::empty()).lemma_after_twice(emitted, step);
                assert(token_views(tokens@) == before + (emitted + step));
                emitted = emitted + step;
            }
            at += 1;
        } else {
            pending.push(c);
            at += 1;
        }
    }
    let ghost step = text_run(pending@).push(TokenView::LineBreak);
    flush(tokens, &mut pending);
    emit(tokens, Token::LineBreak);
    assert(token_views(tokens@) == before + (emitted + step));
    Ok(())
}

/// Tokenize one line of the body, its terminator already stripped, onto the end of
/// `tokens`.
///
/// The tokens that were there stay. On a fault, the tokens of the line up to the fault
/// have been appended, and the text pending at the fault has not. Among the tokens
/// appended, no text is empty and no two neighbours are both text.
pub fn line(tokens: &mut Vec<Token>, text: &str) -> (result: Result<(), Error>)
    ensures
        old(tokens)@.is_prefix_of(final(tokens)@),
        token_views(final(tokens)@) == token_views(old(tokens)@) + line_tokens(text@).tokens,
        text_runs_collapsed(token_views(final(tokens)@).skip(old(tokens)@.len() as int)),
        result == match line_tokens(text@).fault {
            Some(fault) => Err::<(), Error>(fault),
            None => Ok(()),
        },
{
    let chars = chars_of(text);
    line_chars(tokens, chars.as_slice())
}

/// Read the frontmatter off the first three of `lines`, each given by its characters.
///
/// Succeeds exactly where the three lines are there and have the shape that
/// [`frontmatter_of`] asks for. A missing line, a wrong prefix and content after
/// `"pages:"` are all reported as [`Error::IncompleteOrMissingFrontmatter`].
pub fn frontmatter_chars(lines: &[Vec<char>]) -> (result: Result<Box<[Metadata]>, Error>)
    ensures
        match frontmatter_of(line_views(lines@)) {
            Some(found) => result matches Ok(metadata) && metadata_views(metadata@) == found,
            None => result == Err::<Box<[Metadata]>, Error>(Error::IncompleteOrMissingFrontmatter),
        },
{
    if lines.len() < 3 {
        return Err(Error::IncompleteOrMissingFrontmatter);
    }
    let title = match match_prefix(lines[0].as_slice(), "title: ") {
        Some(len) => text_of(lines[0].as_slice(), len),
        None => {
            return Err(Error::IncompleteOrMissingFrontmatter);
        },
    };
    let author = match match_prefix(lines[1].as_slice(), "author: ") {
        Some(len) => text_of(lines[1].as_slice(), len),
        None => {
            return Err(Error::IncompleteOrMissingFrontmatter);
        },
    };
    match match_prefix(lines[2].as_slice(), "pages:") {
        Some(len) => {
            if lines[2].len() != len {
                return Err(Error::IncompleteOrMissingFrontmatter);
            }
            assert(lines@[2]@ == "pages:"@);
        },
        None => {
            return Err(Error::IncompleteOrMissingFrontmatter);
        },
    }
    let mut metadata: Vec<Metadata> = Vec::new();
    metadata.push(Metadata::Title(title));
    metadata.push(Metadata::Author(author));
    let boxed = boxed_slice(metadata);
    assert(metadata_views(boxed@) == frontmatter_of(line_views(lines@))->0);
    Ok(boxed)
}

/// Read the frontmatter off the first three of `lines`, their terminators already
/// stripped.
///
/// Succeeds exactly where the three lines are there and have the shape that
/// [`frontmatter_of`] asks for. A missing line, a wrong prefix and content after
/// `"pages:"` are all reported as [`Error::IncompleteOrMissingFrontmatter`].
pub fn frontmatter(lines: &[&str]) -> (result: Result<Box<[Metadata]>, Error>)
    ensures
        match frontmatter_of(str_views(lines@)) {
            Some(found) => result matches Ok(metadata) && metadata_views(metadata@) == found,
            None => result == Err::<Box<[Metadata]>, Error>(Error::IncompleteOrMissingFrontmatter),
        },
{
    if lines.len() < 3 {
        return Err(Error::IncompleteOrMissingFrontmatter);
    }
    let mut header: Vec<Vec<char>> = Vec::new();
    let mut at: usize = 0;
    while at < 3
        invariant
            at <= 3 <= lines@.len(),
            header@.len() == at,
            forall|i: int| 0 <= i < at ==> (#[trigger] header@[i])@ == lines@[i]@,
        decreases 3 - at,
    {
        header.push(chars_of(lines[at]));
        at += 1;
    }
    assert(frontmatter_of(line_views(header@)) == frontmatter_of(str_views(lines@)));
    frontmatter_chars(header.as_slice())
}

} // verus!
