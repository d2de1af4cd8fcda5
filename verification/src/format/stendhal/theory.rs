//! What holds of the grammar, whatever the input: statements over the model, each proved.

use super::parse::{frontmatter_of, line_tokens, page_marker, scan, text_run, Emission, FORMAT_MARK};
use super::{body_tokens, document_of, lines_from, lines_of, without_carriage_return};
use crate::error::Error;
use crate::syntax::minecraft::format_of;
use crate::syntax::{text_runs_collapsed, MetadataView, TokenListView, TokenView};
use vstd::prelude::*;

verus! {

/// Two collapsed sequences stay collapsed when joined, if the first does not end in text.
proof fn lemma_collapsed_join(first: Seq<TokenView>, second: Seq<TokenView>)
    requires
        text_runs_collapsed(first),
        text_runs_collapsed(second),
        first.len() > 0 ==> !(first.last() is Text),
    ensures
        text_runs_collapsed(first + second),
{
    let joined = first + second;
    assert forall|i: int| 0 <= i < joined.len() implies (#[trigger] joined[i] matches TokenView::Text(
        text,
    ) ==> text.len() > 0) by {
        if i < first.len() {
            assert(joined[i] == first[i]);
        } else {
            assert(joined[i] == second[i - first.len()]);
        }
    }
    assert forall|i: int| 0 <= i && i + 1 < joined.len() implies !(#[trigger] joined[i] is Text
        && joined[i + 1] is Text) by {
        if i + 1 < first.len() {
            assert(joined[i] == first[i] && joined[i + 1] == first[i + 1]);
        } else if i + 1 == first.len() {
            assert(joined[i] == first.last());
        } else {
            assert(joined[i] == second[i - first.len()]);
            assert(joined[i + 1] == second[i - first.len() + 1]);
        }
    }
}

/// What a scan yields is collapsed, and ends in a line break unless it ends in a fault.
proof fn lemma_scan_collapsed(line: Seq<char>, at: int, pending: Seq<char>)
    ensures
        text_runs_collapsed(scan(line, at, pending).tokens),
        scan(line, at, pending).fault is None ==> scan(line, at, pending).tokens.len() > 0 && scan(
            line,
            at,
            pending,
        ).tokens.last() == TokenView::LineBreak,
    decreases line.len() - at,
{
    if at < 0 || at >= line.len() {
    } else if line[at] == FORMAT_MARK {
        if at + 1 < line.len() {
            if let Some(format) = format_of(line[at + 1]) {
                let rest = scan(line, at + 2, Seq::empty());
                let step = text_run(pending).push(TokenView::Format(format));
                lemma_scan_collapsed(line, at + 2, Seq::empty());
                lemma_collapsed_join(step, rest.tokens);
            }
        }
    } else if line[at] == ' ' {
        let rest = scan(line, at + 1, Seq::empty());
        let step = text_run(pending).push(TokenView::Space);
        lemma_scan_collapsed(line, at + 1, Seq::empty());
        lemma_collapsed_join(step, rest.tokens);
    } else {
        lemma_scan_collapsed(line, at + 1, pending.push(line[at]));
    }
}

/// Within what one line yields, every run of literal characters is one token: no text is
/// empty, and no two neighbours are both text. A line that has no fault ends in a line
/// break.
pub proof fn lemma_line_collapsed(line: Seq<char>)
    ensures
        text_runs_collapsed(line_tokens(line).tokens),
        line_tokens(line).fault is None ==> line_tokens(line).tokens.len() > 0 && line_tokens(
            line,
        ).tokens.last() == TokenView::LineBreak,
{
    let marker = page_marker(line);
    if marker.len() > 0 {
        lemma_scan_collapsed(line, marker.len() as int, Seq::empty());
        lemma_collapsed_join(
            seq![TokenView::ThematicBreak],
            scan(line, marker.len() as int, Seq::empty()).tokens,
        );
    } else {
        lemma_scan_collapsed(line, 0, Seq::empty());
    }
}

/// Within what a run of lines yields, every run of literal characters is one token.
pub proof fn lemma_body_collapsed(lines: Seq<Seq<char>>, from: int)
    ensures
        text_runs_collapsed(body_tokens(lines, from).tokens),
    decreases lines.len() - from,
{
    if 0 <= from < lines.len() {
        lemma_line_collapsed(lines[from]);
        if line_tokens(lines[from]).fault is None {
            lemma_body_collapsed(lines, from + 1);
            lemma_collapsed_join(line_tokens(lines[from]).tokens, body_tokens(lines, from + 1).tokens);
        }
    }
}

/// Within the tokens of a document, every run of literal characters is one token.
pub proof fn lemma_document_collapsed(lines: Seq<Seq<char>>)
    ensures
        document_of(lines) matches Ok(document) ==> text_runs_collapsed(document.tokens),
{
    lemma_body_collapsed(lines, 3);
}

/// A scan does not look behind its position: what stands before it can be cut off.
proof fn lemma_scan_shift(before: Seq<char>, line: Seq<char>, at: int, pending: Seq<char>)
    requires
        0 <= at,
    ensures
        scan(before + line, before.len() + at, pending) == scan(line, at, pending),
    decreases line.len() - at,
{
    let whole = before + line;
    if at < line.len() {
        assert(whole[before.len() + at] == line[at]);
        if line[at] == FORMAT_MARK {
            if at + 1 < line.len() {
                assert(whole[before.len() + at + 1] == line[at + 1]);
                lemma_scan_shift(before, line, at + 2, Seq::empty());
            }
        } else if line[at] == ' ' {
            lemma_scan_shift(before, line, at + 1, Seq::empty());
        } else {
            lemma_scan_shift(before, line, at + 1, pending.push(line[at]));
        }
    }
}

/// A line that opens with a page marker yields a thematic break and then what the rest of
/// the line yields as ordinary content, whatever that rest is.
pub proof fn lemma_page_opens(content: Seq<char>)
    ensures
        line_tokens("#- "@ + content) == scan(content, 0, Seq::empty()).after(
            seq![TokenView::ThematicBreak],
        ),
        line_tokens("##- "@ + content) == scan(content, 0, Seq::empty()).after(
            seq![TokenView::ThematicBreak],
        ),
{
    reveal_strlit("#- ");
    reveal_strlit("##- ");
    let single = "#- "@ + content;
    let double = "##- "@ + content;
    assert(single.subrange(0, 3) == "#- "@);
    assert(double.subrange(0, 4) == "##- "@);
    assert(!"#- "@.is_prefix_of(double)) by {
        if "#- "@.is_prefix_of(double) {
            assert(double.subrange(0, 3)[1] == '-');
        }
    }
    lemma_scan_shift("#- "@, content, 0, Seq::empty());
    lemma_scan_shift("##- "@, content, 0, Seq::empty());
}

/// A mark at the end of the line, with no mark before it, is a missing format code.
proof fn lemma_scan_missing_code(line: Seq<char>, at: int, pending: Seq<char>)
    requires
        0 <= at < line.len(),
        line.last() == FORMAT_MARK,
        forall|i: int| at <= i < line.len() - 1 ==> line[i] != FORMAT_MARK,
    ensures
        scan(line, at, pending).fault == Some(Error::MissingFormatCode),
    decreases line.len() - at,
{
    if at < line.len() - 1 {
        if line[at] == ' ' {
            lemma_scan_missing_code(line, at + 1, Seq::empty());
        } else {
            lemma_scan_missing_code(line, at + 1, pending.push(line[at]));
        }
    }
}

/// A line whose last character is its only `'§'` fails with a missing format code.
pub proof fn lemma_missing_code(line: Seq<char>)
    requires
        line.len() > 0,
        line.last() == FORMAT_MARK,
        forall|i: int| 0 <= i < line.len() - 1 ==> line[i] != FORMAT_MARK,
    ensures
        line_tokens(line).fault == Some(Error::MissingFormatCode),
{
    reveal_strlit("#- ");
    reveal_strlit("##- ");
    let marker = page_marker(line);
    if marker.len() > 0 {
        assert(marker.is_prefix_of(line));
        assert(marker.len() < line.len()) by {
            if marker.len() == line.len() {
                assert(line.subrange(0, marker.len() as int)[marker.len() - 1] == ' ');
            }
        }
        lemma_scan_missing_code(line, marker.len() as int, Seq::empty());
    } else {
        lemma_scan_missing_code(line, 0, Seq::empty());
    }
}

/// A mark with no mark before it, followed by a character outside the format-code table,
/// stops the scan with that character.
proof fn lemma_scan_unknown_code(line: Seq<char>, at: int, mark: int, pending: Seq<char>)
    requires
        0 <= at <= mark,
        mark + 1 < line.len(),
        line[mark] == FORMAT_MARK,
        format_of(line[mark + 1]) is None,
        forall|i: int| at <= i < mark ==> line[i] != FORMAT_MARK,
    ensures
        scan(line, at, pending).fault == Some(Error::NoSuchFormatCode(line[mark + 1])),
    decreases mark - at,
{
    if at < mark {
        if line[at] == ' ' {
            lemma_scan_unknown_code(line, at + 1, mark, Seq::empty());
        } else {
            lemma_scan_unknown_code(line, at + 1, mark, pending.push(line[at]));
        }
    }
}

/// A line whose first `'§'` is followed by a character outside the format-code table
/// fails with "no such format code", and the fault carries that character.
pub proof fn lemma_unknown_code(line: Seq<char>, mark: int)
    requires
        0 <= mark,
        mark + 1 < line.len(),
        line[mark] == FORMAT_MARK,
        format_of(line[mark + 1]) is None,
        forall|i: int| 0 <= i < mark ==> line[i] != FORMAT_MARK,
    ensures
        line_tokens(line).fault == Some(Error::NoSuchFormatCode(line[mark + 1])),
{
    reveal_strlit("#- ");
    reveal_strlit("##- ");
    let marker = page_marker(line);
    if marker.len() > 0 {
        assert(marker.is_prefix_of(line));
        assert(marker.len() <= mark) by {
            if mark < marker.len() {
                assert(line.subrange(0, marker.len() as int)[mark] == line[mark]);
            }
        }
        lemma_scan_unknown_code(line, marker.len() as int, mark, Seq::empty());
    } else {
        lemma_scan_unknown_code(line, 0, mark, Seq::empty());
    }
}

/// How many of the tokens are line breaks.
pub open spec fn line_breaks(tokens: Seq<TokenView>) -> nat
    decreases tokens.len(),
{
    if tokens.len() == 0 {
        0
    } else if tokens.last() is LineBreak {
        line_breaks(tokens.drop_last()) + 1
    } else {
        line_breaks(tokens.drop_last())
    }
}

/// The line breaks of two sequences add up when the sequences are joined.
proof fn lemma_line_breaks_join(first: Seq<TokenView>, second: Seq<TokenView>)
    ensures
        line_breaks(first + second) == line_breaks(first) + line_breaks(second),
    decreases second.len(),
{
    if second.len() == 0 {
        assert(first + second == first);
    } else {
        assert((first + second).drop_last() == first + second.drop_last());
        lemma_line_breaks_join(first, second.drop_last());
    }
}

/// One more token is one more line break if it is one, and none if it is not.
proof fn lemma_line_breaks_push(tokens: Seq<TokenView>, token: TokenView)
    ensures
        line_breaks(tokens.push(token)) == line_breaks(tokens) + if token is LineBreak {
            1nat
        } else {
            0nat
        },
{
    assert(tokens.push(token).drop_last() == tokens);
}

/// Pending text, if it is emitted, is no line break.
proof fn lemma_text_run_line_breaks(pending: Seq<char>)
    ensures
        line_breaks(text_run(pending)) == 0,
{
    if pending.len() > 0 {
        assert(text_run(pending) == Seq::<TokenView>::empty().push(TokenView::Text(pending)));
        lemma_line_breaks_push(Seq::empty(), TokenView::Text(pending));
    }
}

/// A scan that ends without a fault yields one line break.
proof fn lemma_scan_line_breaks(line: Seq<char>, at: int, pending: Seq<char>)
    requires
        scan(line, at, pending).fault is None,
    ensures
        line_breaks(scan(line, at, pending).tokens) == 1,
    decreases line.len() - at,
{
    lemma_text_run_line_breaks(pending);
    if at < 0 || at >= line.len() {
        lemma_line_breaks_push(text_run(pending), TokenView::LineBreak);
    } else if line[at] == FORMAT_MARK {
        if at + 1 < line.len() {
            if let Some(format) = format_of(line[at + 1]) {
                let step = text_run(pending).push(TokenView::Format(format));
                lemma_scan_line_breaks(line, at + 2, Seq::empty());
                lemma_line_breaks_push(text_run(pending), TokenView::Format(format));
                lemma_line_breaks_join(step, scan(line, at + 2, Seq::empty()).tokens);
            }
        }
    } else if line[at] == ' ' {
        let step = text_run(pending).push(TokenView::Space);
        lemma_scan_line_breaks(line, at + 1, Seq::empty());
        lemma_line_breaks_push(text_run(pending), TokenView::Space);
        lemma_line_breaks_join(step, scan(line, at + 1, Seq::empty()).tokens);
    } else {
        lemma_scan_line_breaks(line, at + 1, pending.push(line[at]));
    }
}

/// A line that has no fault yields one line break.
pub proof fn lemma_line_line_breaks(line: Seq<char>)
    requires
        line_tokens(line).fault is None,
    ensures
        line_breaks(line_tokens(line).tokens) == 1,
{
    let marker = page_marker(line);
    if marker.len() > 0 {
        let opening = seq![TokenView::ThematicBreak];
        assert(opening == Seq::<TokenView>::empty().push(TokenView::ThematicBreak));
        lemma_line_breaks_push(Seq::empty(), TokenView::ThematicBreak);
        lemma_scan_line_breaks(line, marker.len() as int, Seq::empty());
        lemma_line_breaks_join(opening, scan(line, marker.len() as int, Seq::empty()).tokens);
    } else {
        lemma_scan_line_breaks(line, 0, Seq::empty());
    }
}

/// A run of lines that has no fault yields one line break for each line.
proof fn lemma_body_line_breaks(lines: Seq<Seq<char>>, from: int)
    requires
        0 <= from <= lines.len(),
        body_tokens(lines, from).fault is None,
    ensures
        line_breaks(body_tokens(lines, from).tokens) == lines.len() - from,
    decreases lines.len() - from,
{
    if from < lines.len() {
        lemma_line_line_breaks(lines[from]);
        lemma_body_line_breaks(lines, from + 1);
        lemma_line_breaks_join(line_tokens(lines[from]).tokens, body_tokens(lines, from + 1).tokens);
    }
}

/// The tokens of a document hold one line break for each line after the frontmatter.
pub proof fn lemma_document_line_breaks(lines: Seq<Seq<char>>)
    ensures
        document_of(lines) matches Ok(document) ==> line_breaks(document.tokens) == lines.len() - 3,
{
    if document_of(lines) is Ok {
        lemma_body_line_breaks(lines, 3);
    }
}

/// No token of the sequence is a paragraph break.
pub open spec fn no_paragraph_break(tokens: Seq<TokenView>) -> bool {
    forall|i: int| 0 <= i < tokens.len() ==> !(#[trigger] tokens[i] is ParagraphBreak)
}

/// A scan yields no paragraph break.
proof fn lemma_scan_no_paragraph_break(line: Seq<char>, at: int, pending: Seq<char>)
    ensures
        no_paragraph_break(scan(line, at, pending).tokens),
    decreases line.len() - at,
{
    if at < 0 || at >= line.len() {
    } else if line[at] == FORMAT_MARK {
        if at + 1 < line.len() && format_of(line[at + 1]) is Some {
            lemma_scan_no_paragraph_break(line, at + 2, Seq::empty());
        }
    } else if line[at] == ' ' {
        lemma_scan_no_paragraph_break(line, at + 1, Seq::empty());
    } else {
        lemma_scan_no_paragraph_break(line, at + 1, pending.push(line[at]));
    }
}

/// No line yields a paragraph break, not even an empty one: telling paragraphs apart is
/// left to the reader of the token stream.
pub proof fn lemma_line_no_paragraph_break(line: Seq<char>)
    ensures
        no_paragraph_break(line_tokens(line).tokens),
{
    let marker = page_marker(line);
    if marker.len() > 0 {
        lemma_scan_no_paragraph_break(line, marker.len() as int, Seq::empty());
    } else {
        lemma_scan_no_paragraph_break(line, 0, Seq::empty());
    }
}

/// No character of `line` is a line feed.
pub open spec fn holds_no_line_feed(line: Seq<char>) -> bool {
    forall|i: int| 0 <= i < line.len() ==> line[i] != '\n'
}

/// A line as a line source hands it out: it holds no line feed, and no carriage return at
/// its end.
pub open spec fn is_line(line: Seq<char>) -> bool {
    &&& holds_no_line_feed(line)
    &&& line.len() > 0 ==> line.last() != '\r'
}

/// The text in which each of `lines` stands in order, followed by a line feed.
pub open spec fn joined(lines: Seq<Seq<char>>) -> Seq<char>
    decreases lines.len(),
{
    if lines.len() == 0 {
        Seq::empty()
    } else {
        lines[0] + seq!['\n'] + joined(lines.drop_first())
    }
}

/// Up to the next line feed there is one line.
proof fn lemma_lines_from_skip(text: Seq<char>, start: int, at: int, end: int)
    requires
        0 <= start <= at <= end < text.len(),
        text[end] == '\n',
        forall|i: int| at <= i < end ==> text[i] != '\n',
    ensures
        lines_from(text, start, at) == seq![without_carriage_return(text.subrange(start, end))]
            + lines_from(text, end + 1, end + 1),
    decreases end - at,
{
    if at < end {
        lemma_lines_from_skip(text, start, at + 1, end);
    }
}

/// Splitting does not look behind its position: what stands before it can be cut off.
proof fn lemma_lines_from_shift(before: Seq<char>, text: Seq<char>, start: int, at: int)
    requires
        0 <= start <= at,
    ensures
        lines_from(before + text, before.len() + start, before.len() + at) == lines_from(
            text,
            start,
            at,
        ),
    decreases text.len() - at,
{
    let whole = before + text;
    if at >= text.len() {
        if start < text.len() {
            assert(whole.skip(before.len() + start) == text.skip(start));
        }
    } else {
        assert(whole[before.len() + at] == text[at]);
        if text[at] == '\n' {
            assert(whole.subrange(before.len() + start, before.len() + at) == text.subrange(
                start,
                at,
            ));
            lemma_lines_from_shift(before, text, at + 1, at + 1);
        } else {
            lemma_lines_from_shift(before, text, start, at + 1);
        }
    }
}

/// Splitting undoes joining: the lines of a text in which each line is followed by a line
/// feed are those lines.
pub proof fn lemma_lines_of_joined(lines: Seq<Seq<char>>)
    requires
        forall|i: int| 0 <= i < lines.len() ==> is_line(#[trigger] lines[i]),
    ensures
        lines_of(joined(lines)) == lines,
    decreases lines.len(),
{
    if lines.len() == 0 {
        assert(lines == Seq::<Seq<char>>::empty());
    } else {
        let first = lines[0];
        let rest = lines.drop_first();
        let head = first + seq!['\n'];
        let text = joined(lines);
        assert(text == head + joined(rest));
        assert(is_line(first));
        assert(text[first.len() as int] == '\n');
        assert forall|i: int| 0 <= i < first.len() implies text[i] != '\n' by {
            assert(text[i] == first[i]);
        }
        lemma_lines_from_skip(text, 0, 0, first.len() as int);
        assert(text.subrange(0, first.len() as int) == first);
        lemma_lines_from_shift(head, joined(rest), 0, 0);
        assert forall|i: int| 0 <= i < rest.len() implies is_line(#[trigger] rest[i]) by {
            assert(rest[i] == lines[i + 1]);
        }
        lemma_lines_of_joined(rest);
        assert(lines == seq![first] + rest);
    }
}

/// Where no line feed is left, what is left is the last line, if it is not empty.
proof fn lemma_lines_from_rest(text: Seq<char>, start: int, at: int)
    requires
        0 <= start <= at,
        forall|i: int| at <= i < text.len() ==> text[i] != '\n',
    ensures
        lines_from(text, start, at) == if start >= text.len() {
            Seq::<Seq<char>>::empty()
        } else {
            seq![text.skip(start)]
        },
    decreases text.len() - at,
{
    if at < text.len() {
        lemma_lines_from_rest(text, start, at + 1);
    }
}

/// A text joined from at least one line ends in a line feed.
proof fn lemma_joined_ends_in_line_feed(lines: Seq<Seq<char>>)
    requires
        lines.len() > 0,
    ensures
        joined(lines).len() > 0,
        joined(lines).last() == '\n',
    decreases lines.len(),
{
    let rest = lines.drop_first();
    if rest.len() > 0 {
        lemma_joined_ends_in_line_feed(rest);
    } else {
        assert(joined(rest) == Seq::<char>::empty());
    }
}

/// The line feed after the last line is optional, unless that line is empty: without it
/// the text has the same lines.
pub proof fn lemma_last_terminator_optional(lines: Seq<Seq<char>>)
    requires
        forall|i: int| 0 <= i < lines.len() ==> is_line(#[trigger] lines[i]),
        lines.len() > 0,
        lines.last().len() > 0,
    ensures
        lines_of(joined(lines).drop_last()) == lines,
    decreases lines.len(),
{
    let first = lines[0];
    let rest = lines.drop_first();
    let text = joined(lines).drop_last();
    assert(is_line(first));
    if lines.len() == 1 {
        assert(joined(rest) == Seq::<char>::empty());
        assert(text == first);
        lemma_lines_from_rest(text, 0, 0);
        assert(text.skip(0) == text);
        assert(lines == seq![first]);
    } else {
        let head = first + seq!['\n'];
        assert(rest.last() == lines.last());
        assert forall|i: int| 0 <= i < rest.len() implies is_line(#[trigger] rest[i]) by {
            assert(rest[i] == lines[i + 1]);
        }
        lemma_joined_ends_in_line_feed(rest);
        assert(text == head + joined(rest).drop_last());
        assert(text[first.len() as int] == '\n');
        assert forall|i: int| 0 <= i < first.len() implies text[i] != '\n' by {
            assert(text[i] == first[i]);
        }
        lemma_lines_from_skip(text, 0, 0, first.len() as int);
        assert(text.subrange(0, first.len() as int) == first);
        lemma_lines_from_shift(head, joined(rest).drop_last(), 0, 0);
        lemma_last_terminator_optional(rest);
        assert(lines == seq![first] + rest);
    }
}

/// No line holds a line feed, where none stands between its start and the position.
proof fn lemma_lines_from_hold_no_line_feed(text: Seq<char>, start: int, at: int)
    requires
        0 <= start <= at,
        forall|i: int| start <= i < at && i < text.len() ==> text[i] != '\n',
    ensures
        forall|k: int|
            0 <= k < lines_from(text, start, at).len() ==> holds_no_line_feed(
                #[trigger] lines_from(text, start, at)[k],
            ),
    decreases text.len() - at,
{
    let lines = lines_from(text, start, at);
    if at >= text.len() {
        if start < text.len() {
            let last = text.skip(start);
            assert forall|i: int| 0 <= i < last.len() implies last[i] != '\n' by {
                assert(last[i] == text[start + i]);
            }
            assert(lines == seq![last]);
        }
    } else if text[at] == '\n' {
        let rest = lines_from(text, at + 1, at + 1);
        let whole = text.subrange(start, at);
        lemma_lines_from_hold_no_line_feed(text, at + 1, at + 1);
        assert forall|i: int| 0 <= i < lines[0].len() implies lines[0][i] != '\n' by {
            assert(lines[0][i] == whole[i]);
        }
        assert forall|k: int| 0 <= k < lines.len() implies holds_no_line_feed(
            #[trigger] lines[k],
        ) by {
            if k > 0 {
                assert(lines[k] == rest[k - 1]);
            }
        }
    } else {
        lemma_lines_from_hold_no_line_feed(text, start, at + 1);
        assert(lines == lines_from(text, start, at + 1));
    }
}

/// No line of a text holds a line feed.
pub proof fn lemma_lines_hold_no_line_feed(text: Seq<char>)
    ensures
        forall|k: int|
            0 <= k < lines_of(text).len() ==> holds_no_line_feed(#[trigger] lines_of(text)[k]),
{
    lemma_lines_from_hold_no_line_feed(text, 0, 0);
}

/// Empty lines yield one line break each, and nothing else.
pub proof fn lemma_blank_lines(lines: Seq<Seq<char>>, from: int)
    requires
        0 <= from <= lines.len(),
        forall|i: int| from <= i < lines.len() ==> (#[trigger] lines[i]).len() == 0,
    ensures
        body_tokens(lines, from) == (Emission {
            tokens: Seq::new((lines.len() - from) as nat, |i: int| TokenView::LineBreak),
            fault: None,
        }),
    decreases lines.len() - from,
{
    reveal_strlit("#- ");
    reveal_strlit("##- ");
    let breaks = Seq::new((lines.len() - from) as nat, |i: int| TokenView::LineBreak);
    if from < lines.len() {
        let line = lines[from];
        assert(page_marker(line).len() == 0);
        assert(line_tokens(line).tokens == seq![TokenView::LineBreak]);
        lemma_blank_lines(lines, from + 1);
        assert(seq![TokenView::LineBreak] + body_tokens(lines, from + 1).tokens == breaks);
    } else {
        assert(breaks == Seq::<TokenView>::empty());
    }
}

/// The three lines of a frontmatter with the given title and author.
pub open spec fn header_lines(title: Seq<char>, author: Seq<char>) -> Seq<Seq<char>> {
    seq!["title: "@ + title, "author: "@ + author, "pages:"@]
}

/// A text made of a well-formed frontmatter and of `blank` empty lines is a document: its
/// metadata are the title and the author, verbatim and in this order, and its tokens are
/// one line break for each line after the frontmatter, so none where the frontmatter
/// stands alone.
pub proof fn lemma_frontmatter_alone(title: Seq<char>, author: Seq<char>, blank: nat)
    requires
        is_line(title),
        is_line(author),
    ensures
        document_of(
            lines_of(
                joined(header_lines(title, author) + Seq::new(blank, |i: int| Seq::<char>::empty())),
            ),
        ) == Ok::<TokenListView, Error>(
            TokenListView {
                metadata: seq![MetadataView::Title(title), MetadataView::Author(author)],
                tokens: Seq::new(blank, |i: int| TokenView::LineBreak),
            },
        ),
{
    reveal_strlit("title: ");
    reveal_strlit("author: ");
    reveal_strlit("pages:");
    let first = "title: "@ + title;
    let second = "author: "@ + author;
    let lines = header_lines(title, author) + Seq::new(blank, |i: int| Seq::<char>::empty());
    assert(is_line(first)) by {
        assert forall|i: int| 0 <= i < first.len() implies first[i] != '\n' by {
            if i >= 7 {
                assert(first[i] == title[i - 7]);
            }
        }
        if title.len() > 0 {
            assert(first.last() == title.last());
        }
    }
    assert(is_line(second)) by {
        assert forall|i: int| 0 <= i < second.len() implies second[i] != '\n' by {
            if i >= 8 {
                assert(second[i] == author[i - 8]);
            }
        }
        if author.len() > 0 {
            assert(second.last() == author.last());
        }
    }
    assert(is_line("pages:"@));
    assert forall|i: int| 0 <= i < lines.len() implies is_line(#[trigger] lines[i]) by {
        if i >= 3 {
            assert(lines[i].len() == 0);
        }
    }
    lemma_lines_of_joined(lines);
    assert(lines[0] == first && lines[1] == second && lines[2] == "pages:"@);
    assert(first.subrange(0, 7) == "title: "@);
    assert(second.subrange(0, 8) == "author: "@);
    assert(first.skip(7) == title);
    assert(second.skip(8) == author);
    lemma_blank_lines(lines, 3);
    assert(lines.len() - 3 == blank);
}

/// Where a run of lines has yielded its tokens without a fault, one more line adds what it
/// yields, whole or up to its fault.
pub proof fn lemma_body_tokens_push(lines: Seq<Seq<char>>, from: int, line: Seq<char>)
    requires
        0 <= from <= lines.len(),
        body_tokens(lines, from).fault is None,
    ensures
        body_tokens(lines.push(line), from) == line_tokens(line).after(
            body_tokens(lines, from).tokens,
        ),
    decreases lines.len() - from,
{
    let longer = lines.push(line);
    let last = line_tokens(line);
    if from == lines.len() {
        assert(longer[from] == line);
        assert(body_tokens(longer, from + 1).tokens =~= Seq::empty());
        assert(last.tokens + Seq::<TokenView>::empty() =~= last.tokens);
        assert(Seq::<TokenView>::empty() + last.tokens =~= last.tokens);
    } else {
        let first = line_tokens(lines[from]);
        assert(longer[from] == lines[from]);
        lemma_body_tokens_push(lines, from + 1, line);
        last.lemma_after_twice(first.tokens, body_tokens(lines, from + 1).tokens);
    }
}

/// Where a run of lines has ended in a fault, one more line changes nothing.
proof fn lemma_body_fault_stays(lines: Seq<Seq<char>>, from: int, line: Seq<char>)
    requires
        0 <= from <= lines.len(),
        body_tokens(lines, from).fault is Some,
    ensures
        body_tokens(lines.push(line), from) == body_tokens(lines, from),
    decreases lines.len() - from,
{
    if from < lines.len() {
        assert(lines.push(line)[from] == lines[from]);
        if line_tokens(lines[from]).fault is None {
            lemma_body_fault_stays(lines, from + 1, line);
        }
    }
}

/// A fault is final: where the first `count` lines are no document, the fault that they
/// end in is the fault of all lines, however many follow.
pub proof fn lemma_fault_is_final(lines: Seq<Seq<char>>, count: int)
    requires
        3 <= count <= lines.len(),
        document_of(lines.take(count)) is Err,
    ensures
        document_of(lines) == document_of(lines.take(count)),
    decreases lines.len() - count,
{
    if count == lines.len() {
        assert(lines.take(count) == lines);
    } else {
        let shorter = lines.take(count);
        let longer = lines.take(count + 1);
        assert(longer == shorter.push(lines[count]));
        assert(longer[0] == shorter[0] && longer[1] == shorter[1] && longer[2] == shorter[2]);
        if frontmatter_of(shorter) is Some {
            lemma_body_fault_stays(shorter, 3, lines[count]);
        }
        lemma_fault_is_final(lines, count + 1);
    }
}

/// Fewer than three lines hold no frontmatter, so no document.
pub proof fn lemma_short_input(lines: Seq<Seq<char>>)
    requires
        lines.len() < 3,
    ensures
        document_of(lines) == Err::<TokenListView, Error>(Error::IncompleteOrMissingFrontmatter),
{
}

} // verus!
