//! The token stream: tokens, metadata and the list that holds both.

use std::sync::Arc;
use vstd::prelude::*;
use vstd::std_specs::cmp::PartialEqSpecImpl;

pub mod minecraft;

use minecraft::Format;

verus! {

/// A lexical token: an abstract piece of text or formatting.
///
/// Two tokens are equal where they are the same variant and hold the same text or format.
#[derive(Debug)]
pub enum Token {
    /// A run of literal characters. The tokenizer never emits an empty run.
    Text(Box<str>),
    /// A hidden node that controls text formatting.
    Format(Format),
    /// A single space between words.
    Space,
    /// The end of a line within a paragraph.
    LineBreak,
    /// The boundary between two paragraphs.
    ParagraphBreak,
    /// A page break.
    ThematicBreak,
}

/// Metadata about a literary work.
///
/// Two entries are equal where they are the same variant and hold the same text.
#[derive(Debug)]
pub enum Metadata {
    Title(Box<str>),
    Author(Box<str>),
}

/// What a [`Token`] stands for, with its text as a sequence of characters.
pub enum TokenView {
    Text(Seq<char>),
    Format(Format),
    Space,
    LineBreak,
    ParagraphBreak,
    ThematicBreak,
}

/// What a [`Metadata`] entry stands for, with its text as a sequence of characters.
pub enum MetadataView {
    Title(Seq<char>),
    Author(Seq<char>),
}

impl View for Token {
    type V = TokenView;

    open spec fn view(&self) -> TokenView {
        match *self {
            Token::Text(text) => TokenView::Text(text@),
            Token::Format(format) => TokenView::Format(format),
            Token::Space => TokenView::Space,
            Token::LineBreak => TokenView::LineBreak,
            Token::ParagraphBreak => TokenView::ParagraphBreak,
            Token::ThematicBreak => TokenView::ThematicBreak,
        }
    }
}

impl View for Metadata {
    type V = MetadataView;

    open spec fn view(&self) -> MetadataView {
        match *self {
            Metadata::Title(text) => MetadataView::Title(text@),
            Metadata::Author(text) => MetadataView::Author(text@),
        }
    }
}

/// The views of a sequence of tokens, in order.
pub open spec fn token_views(tokens: Seq<Token>) -> Seq<TokenView> {
    Seq::new(tokens.len(), |i: int| tokens[i]@)
}

/// The views of a sequence of metadata entries, in order.
pub open spec fn metadata_views(metadata: Seq<Metadata>) -> Seq<MetadataView> {
    Seq::new(metadata.len(), |i: int| metadata[i]@)
}

/// No text is empty, and no two neighbours are both text: every run of literal characters
/// is one token.
pub open spec fn text_runs_collapsed(tokens: Seq<TokenView>) -> bool {
    &&& forall|i: int|
        0 <= i < tokens.len() ==> (#[trigger] tokens[i] matches TokenView::Text(text)
            ==> text.len() > 0)
    &&& forall|i: int|
        0 <= i && i + 1 < tokens.len() ==> !(#[trigger] tokens[i] is Text && tokens[i + 1] is Text)
}

/// Appending a token appends its view.
pub proof fn lemma_token_views_push(tokens: Seq<Token>, token: Token)
    ensures
        token_views(tokens.push(token)) == token_views(tokens).push(token@),
{
    assert(token_views(tokens.push(token)) =~= token_views(tokens).push(token@));
}

/// `String::push` appends one character to the end of the string and leaves the rest as it
/// was.
pub assume_specification[ String::push ](text: &mut String, ch: char)
    ensures
        final(text)@ == old(text)@.push(ch),
;

/// `String::into_boxed_str` keeps the characters of the string.
pub assume_specification[ String::into_boxed_str ](text: String) -> (boxed: Box<str>)
    ensures
        boxed@ == text@,
;

/// `Vec::into_boxed_slice` keeps the items of the vector, in order.
#[verifier::external_body]
pub(crate) fn boxed_slice<T>(items: Vec<T>) -> (boxed: Box<[T]>)
    ensures
        boxed@ == items@,
{
    items.into_boxed_slice()
}

/// `Arc::from` on a boxed slice moves the items, in order, into a shared allocation.
#[verifier::external_body]
pub(crate) fn shared_slice<T>(items: Box<[T]>) -> (shared: Arc<[T]>)
    ensures
        (*shared)@ == items@,
{
    Arc::from(items)
}

/// `==` on `str` holds exactly of two strings that are made of the same characters.
#[verifier::external_body]
fn same_text(left: &str, right: &str) -> (same: bool)
    ensures
        same == (left@ == right@),
{
    left == right
}

/// The text made of the characters of `chars` from position `from` on: the empty text
/// where `from` is at the end or beyond it.
pub fn text_of(chars: &[char], from: usize) -> (text: Box<str>)
    ensures
        text@ == if from <= chars@.len() {
            chars@.skip(from as int)
        } else {
            Seq::empty()
        },
{
    let mut text = String::new();
    if from > chars.len() {
        return text.into_boxed_str();
    }
    let mut at: usize = from;
    while at < chars.len()
        invariant
            from <= at <= chars@.len(),
            text@ == chars@.subrange(from as int, at as int),
        decreases chars@.len() - at,
    {
        text.push(chars[at]);
        assert(chars@.subrange(from as int, at + 1) == chars@.subrange(
            from as int,
            at as int,
        ).push(chars@[at as int]));
        at += 1;
    }
    assert(chars@.subrange(from as int, at as int) == chars@.skip(from as int));
    text.into_boxed_str()
}

impl Token {
    /// Whether or not the token ends a word: a space or some kind of line break.
    pub fn is_break(&self) -> (b: bool)
        ensures
            b == (self is LineBreak || self is ParagraphBreak || self is ThematicBreak
                || self is Space),
    {
        matches!(
            *self,
            Token::LineBreak | Token::ParagraphBreak | Token::ThematicBreak | Token::Space
        )
    }

    /// Whether or not the token corresponds to some kind of white space.
    pub fn is_white_space(&self) -> (b: bool)
        ensures
            b == (self is Space || self is LineBreak || self is ParagraphBreak
                || self is ThematicBreak),
    {
        matches!(*self, Token::Space) || self.is_break()
    }

    /// Whether or not the token is [`Token::Text`].
    pub fn is_text(&self) -> (b: bool)
        ensures
            b == (self is Text),
    {
        matches!(*self, Token::Text(_))
    }

    /// Drain a buffer of characters to build a text token.
    pub fn drain_text(buffer: &mut Vec<char>) -> (token: Token)
        ensures
            token@ == TokenView::Text(old(buffer)@),
            final(buffer)@ == Seq::<char>::empty(),
    {
        let text = text_of(buffer.as_slice(), 0);
        assert(buffer@.skip(0) == buffer@);
        buffer.clear();
        Token::Text(text)
    }
}

impl PartialEq for Token {
    fn eq(&self, other: &Token) -> (same: bool) {
        match (self, other) {
            (Token::Text(left), Token::Text(right)) => same_text(left, right),
            (Token::Format(left), Token::Format(right)) => *left == *right,
            (Token::Space, Token::Space) => true,
            (Token::LineBreak, Token::LineBreak) => true,
            (Token::ParagraphBreak, Token::ParagraphBreak) => true,
            (Token::ThematicBreak, Token::ThematicBreak) => true,
            _ => false,
        }
    }
}

impl PartialEqSpecImpl for Token {
    open spec fn obeys_eq_spec() -> bool {
        true
    }

    open spec fn eq_spec(&self, other: &Token) -> bool {
        self@ == other@
    }
}

impl Eq for Token {

}

impl PartialEq for Metadata {
    fn eq(&self, other: &Metadata) -> (same: bool) {
        match (self, other) {
            (Metadata::Title(left), Metadata::Title(right)) => same_text(left, right),
            (Metadata::Author(left), Metadata::Author(right)) => same_text(left, right),
            _ => false,
        }
    }
}

impl PartialEqSpecImpl for Metadata {
    open spec fn obeys_eq_spec() -> bool {
        true
    }

    open spec fn eq_spec(&self, other: &Metadata) -> bool {
        self@ == other@
    }
}

impl Eq for Metadata {

}

/// The outcome of tokenizing a document: its metadata and its tokens, both in order.
///
/// A list is built once and never changed. Both sequences are shared: a handle obtained
/// from [`TokenList::metadata`] or [`TokenList::tokens`] points at the same allocation.
/// Two lists are equal where they hold equal metadata and equal tokens, each in the same
/// order.
#[derive(Debug)]
pub struct TokenList {
    metadata: Arc<[Metadata]>,
    tokens: Arc<[Token]>,
}

/// What a [`TokenList`] stands for.
pub struct TokenListView {
    pub metadata: Seq<MetadataView>,
    pub tokens: Seq<TokenView>,
}

impl View for TokenList {
    type V = TokenListView;

    open spec fn view(&self) -> TokenListView {
        TokenListView {
            metadata: metadata_views(self.metadata_seq()),
            tokens: token_views(self.token_seq()),
        }
    }
}

impl TokenList {
    /// The metadata entries that the list holds.
    pub closed spec fn metadata_seq(&self) -> Seq<Metadata> {
        (*self.metadata)@
    }

    /// The tokens that the list holds.
    pub closed spec fn token_seq(&self) -> Seq<Token> {
        (*self.tokens)@
    }

    /// Build a list from shared sequences.
    pub fn new(metadata: Arc<[Metadata]>, tokens: Arc<[Token]>) -> (list: Self)
        ensures
            list.metadata_seq() == (*metadata)@,
            list.token_seq() == (*tokens)@,
    {
        TokenList { metadata, tokens }
    }

    /// Build a list from boxed sequences, which move into shared allocations.
    pub fn new_from_boxed(metadata: Box<[Metadata]>, tokens: Box<[Token]>) -> (list: Self)
        ensures
            list.metadata_seq() == metadata@,
            list.token_seq() == tokens@,
    {
        TokenList { metadata: shared_slice(metadata), tokens: shared_slice(tokens) }
    }

    /// Borrow the metadata.
    pub fn metadata_as_slice(&self) -> (metadata: &[Metadata])
        ensures
            metadata@ == self.metadata_seq(),
    {
        &self.metadata
    }

    /// Borrow the tokens.
    pub fn tokens_as_slice(&self) -> (tokens: &[Token])
        ensures
            tokens@ == self.token_seq(),
    {
        &self.tokens
    }

    /// A shared handle to the metadata.
    pub fn metadata(&self) -> (metadata: Arc<[Metadata]>)
        ensures
            (*metadata)@ == self.metadata_seq(),
    {
        self.metadata.clone()
    }

    /// A shared handle to the tokens.
    pub fn tokens(&self) -> (tokens: Arc<[Token]>)
        ensures
            (*tokens)@ == self.token_seq(),
    {
        self.tokens.clone()
    }
}

/// Whether two runs of tokens hold equal tokens in the same order.
fn same_tokens(left: &[Token], right: &[Token]) -> (same: bool)
    ensures
        same == (token_views(left@) == token_views(right@)),
{
    if left.len() != right.len() {
        assert(token_views(left@).len() != token_views(right@).len());
        return false;
    }
    let mut at: usize = 0;
    while at < left.len()
        invariant
            at <= left@.len() == right@.len(),
            forall|i: int| 0 <= i < at ==> left@[i]@ == right@[i]@,
        decreases left@.len() - at,
    {
        if left[at] != right[at] {
            assert(token_views(left@)[at as int] != token_views(right@)[at as int]);
            return false;
        }
        at += 1;
    }
    assert(token_views(left@) =~= token_views(right@));
    true
}

/// Whether two runs of metadata hold equal entries in the same order.
fn same_metadata(left: &[Metadata], right: &[Metadata]) -> (same: bool)
    ensures
        same == (metadata_views(left@) == metadata_views(right@)),
{
    if left.len() != right.len() {
        assert(metadata_views(left@).len() != metadata_views(right@).len());
        return false;
    }
    let mut at: usize = 0;
    while at < left.len()
        invariant
            at <= left@.len() == right@.len(),
            forall|i: int| 0 <= i < at ==> left@[i]@ == right@[i]@,
        decreases left@.len() - at,
    {
        if left[at] != right[at] {
            assert(metadata_views(left@)[at as int] != metadata_views(right@)[at as int]);
            return false;
        }
        at += 1;
    }
    assert(metadata_views(left@) =~= metadata_views(right@));
    true
}

impl PartialEq for TokenList {
    fn eq(&self, other: &TokenList) -> (same: bool) {
        same_metadata(self.metadata_as_slice(), other.metadata_as_slice()) && same_tokens(
            self.tokens_as_slice(),
            other.tokens_as_slice(),
        )
    }
}

impl PartialEqSpecImpl for TokenList {
    open spec fn obeys_eq_spec() -> bool {
        true
    }

    open spec fn eq_spec(&self, other: &TokenList) -> bool {
        self@ == other@
    }
}

impl Eq for TokenList {

}

impl Clone for TokenList {
    /// A second list over the same two sequences; nothing is copied but the handles.
    fn clone(&self) -> (copy: Self)
        ensures
            copy.metadata_seq() == self.metadata_seq(),
            copy.token_seq() == self.token_seq(),
    {
        TokenList { metadata: self.metadata.clone(), tokens: self.tokens.clone() }
    }
}

} // verus!
