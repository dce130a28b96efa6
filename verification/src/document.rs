//! An open document: its text, its syntax tree, and the answers to an
//! editor's questions about it.
//!
//! A document is never changed in place. Every change gives a new state, with
//! the tree parsed anew from the whole text.

use vstd::prelude::*;

use ropey::Rope;

use crate::buffer::{
    offset_of, offset_to_position, position_of, position_to_offset, rope_clone, rope_from_str,
    rope_insert, rope_len_chars, rope_remove, rope_text, rope_to_string,
};
use crate::error::MarkdownError;
use crate::format::{no_rule_message, renderable, rendered, FormattingOptions, MarkdownFormatter};
use crate::node::{cst_ref_views, strings_view, CSTNode, Cst};
use crate::parse::{document_of, Parser};
use crate::span::{Position, Range, Span};
use crate::validate::{violations, MarkdownValidator, ValidationRule};

verus! {

/// One change to a text: new characters for a range, or for the whole text
/// where no range is given.
#[derive(Debug, Clone, PartialEq, Eq)]
pub struct TextChange {
    pub range: Option<Range>,
    pub text: String,
}

/// The model of a [`TextChange`].
pub struct ChangeModel {
    pub range: Option<Range>,
    pub text: Seq<char>,
}

impl View for TextChange {
    type V = ChangeModel;

    open spec fn view(&self) -> ChangeModel {
        ChangeModel { range: self.range, text: self.text@ }
    }
}

/// The models of a sequence of changes, in order.
pub open spec fn change_views(changes: Seq<TextChange>) -> Seq<ChangeModel> {
    Seq::new(changes.len(), |i: int| changes[i]@)
}

/// The offsets that a range covers in a text, if its two places lie in the
/// text and the first is not behind the second.
pub open spec fn range_offsets(text: Seq<char>, range: Range) -> Option<(int, int)> {
    match (offset_of(text, range.start), offset_of(text, range.end)) {
        (Some(start), Some(end)) => if start <= end {
            Some((start, end))
        } else {
            None
        },
        _ => None,
    }
}

/// A text after one change. A change whose range does not lie in the text
/// leaves the text as it is.
pub open spec fn edited(text: Seq<char>, change: ChangeModel) -> Seq<char> {
    match change.range {
        None => change.text,
        Some(range) => match range_offsets(text, range) {
            Some((start, end)) => text.subrange(0, start) + change.text + text.subrange(
                end,
                text.len() as int,
            ),
            None => text,
        },
    }
}

/// A text after the first `count` of `changes`, each applied to what the
/// changes before it left.
pub open spec fn edited_all(text: Seq<char>, changes: Seq<ChangeModel>, count: nat) -> Seq<char>
    decreases count,
{
    if count == 0 || count > changes.len() {
        text
    } else {
        edited(edited_all(text, changes, (count - 1) as nat), changes[count - 1])
    }
}

/// Two changes applied as one list give what they give applied one after the
/// other: the second is read against the text that the first has left.
pub proof fn law_changes_apply_in_order(text: Seq<char>, first: ChangeModel, second: ChangeModel)
    ensures
        edited_all(text, seq![first, second], 2) == edited(edited(text, first), second),
{
    reveal_with_fuel(edited_all, 3);
}

/// A list of changes applied at once gives what its front part gives,
/// followed by its back part applied to the result.
pub proof fn law_changes_compose(text: Seq<char>, front: Seq<ChangeModel>, back: Seq<ChangeModel>)
    ensures
        edited_all(text, front + back, (front + back).len()) == edited_all(
            edited_all(text, front, front.len()),
            back,
            back.len(),
        ),
    decreases back.len(),
{
    let all = front + back;
    if back.len() == 0 {
        assert(all =~= front);
    } else {
        let shorter = back.drop_last();
        law_changes_compose(text, front, shorter);
        lemma_edited_all_prefix(text, all, front + shorter, (all.len() - 1) as nat);
        lemma_edited_all_prefix(
            edited_all(text, front, front.len()),
            back,
            shorter,
            shorter.len(),
        );
        assert(all[all.len() - 1] == back[back.len() - 1]);
    }
}

/// Only the changes that are applied matter: lists that agree on the first
/// `count` changes give the same text.
pub proof fn lemma_edited_all_prefix(
    text: Seq<char>,
    a: Seq<ChangeModel>,
    b: Seq<ChangeModel>,
    count: nat,
)
    requires
        count <= a.len(),
        count <= b.len(),
        forall|i: int| 0 <= i < count ==> a[i] == b[i],
    ensures
        edited_all(text, a, count) == edited_all(text, b, count),
    decreases count,
{
    if count > 0 {
        lemma_edited_all_prefix(text, a, b, (count - 1) as nat);
    }
}

/// Applies one change to a buffer. Returns whether the change could be
/// applied; where it could not, the buffer is as it was.
pub fn apply_change(buffer: &mut Rope, change: &TextChange) -> (applied: bool)
    ensures
        rope_text(*final(buffer)) == edited(rope_text(*old(buffer)), change@),
        applied == (change.range matches Some(range) ==> range_offsets(
            rope_text(*old(buffer)),
            range,
        ) is Some),
{
    let ghost text = rope_text(*buffer);
    match change.range {
        None => {
            *buffer = rope_from_str(change.text.as_str());
            true
        },
        Some(range) => {
            let start = match position_to_offset(range.start, buffer) {
                Some(start) => start,
                None => {
                    return false;
                },
            };
            let end = match position_to_offset(range.end, buffer) {
                Some(end) => end,
                None => {
                    return false;
                },
            };
            if start > end {
                return false;
            }
            let removed = rope_remove(buffer, start, end);
            let ghost shorter = rope_text(*buffer);
            assert(shorter =~= text.subrange(0, start as int) + text.subrange(
                end as int,
                text.len() as int,
            ));
            let inserted = rope_insert(buffer, start, change.text.as_str());
            assert(rope_text(*buffer) =~= text.subrange(0, start as int) + change.text@
                + text.subrange(end as int, text.len() as int)) by {
                assert(shorter.subrange(0, start as int) =~= text.subrange(0, start as int));
                assert(shorter.subrange(start as int, shorter.len() as int) =~= text.subrange(
                    end as int,
                    text.len() as int,
                ));
            }
            true
        },
    }
}

/// What is known of an open document: its text, the tree parsed from it, and
/// how many changes it has seen.
pub struct DocumentState {
    buffer: Rope,
    cst: CSTNode,
    revision: u64,
}

/// The model of a [`DocumentState`].
pub struct DocumentModel {
    pub text: Seq<char>,
    pub tree: Cst,
    pub revision: u64,
}

impl View for DocumentState {
    type V = DocumentModel;

    closed spec fn view(&self) -> DocumentModel {
        DocumentModel { text: rope_text(self.buffer), tree: self.cst@, revision: self.revision }
    }
}

/// The revision that follows another. Behind the largest number the count
/// starts again at zero.
pub open spec fn next_revision(revision: u64) -> u64 {
    if revision == u64::MAX {
        0
    } else {
        (revision + 1) as u64
    }
}

/// The state of a document that has just been opened with a text.
pub open spec fn opened(text: Seq<char>) -> DocumentModel {
    DocumentModel { text, tree: document_of(text), revision: 0 }
}

/// The state that follows another when its text is replaced.
pub open spec fn replaced(state: DocumentModel, text: Seq<char>) -> DocumentModel {
    DocumentModel { text, tree: document_of(text), revision: next_revision(state.revision) }
}

/// The state that follows another after a list of changes.
pub open spec fn changed(state: DocumentModel, changes: Seq<ChangeModel>) -> DocumentModel {
    replaced(state, edited_all(state.text, changes, changes.len()))
}

/// A state is sound when its tree is the one that its text parses to.
pub open spec fn state_wf(state: DocumentModel) -> bool {
    state.tree == document_of(state.text)
}

/// A message for the editor about a stretch of the text.
#[derive(Debug, Clone, PartialEq, Eq)]
pub struct Diagnostic {
    pub range: Range,
    pub message: String,
}

/// The model of a [`Diagnostic`].
pub struct DiagnosticModel {
    pub range: Range,
    pub message: Seq<char>,
}

impl View for Diagnostic {
    type V = DiagnosticModel;

    open spec fn view(&self) -> DiagnosticModel {
        DiagnosticModel { range: self.range, message: self.message@ }
    }
}

/// The models of a sequence of diagnostics, in order.
pub open spec fn diagnostic_views(diagnostics: Seq<Diagnostic>) -> Seq<DiagnosticModel> {
    Seq::new(diagnostics.len(), |i: int| diagnostics[i]@)
}

/// A replacement of a stretch of text.
#[derive(Debug, Clone, PartialEq, Eq)]
pub struct TextEdit {
    pub range: Range,
    pub new_text: String,
}

/// The stretch of a text that a span covers, as an editor names it; the
/// placeholder range for a span whose ends cannot be named.
pub open spec fn span_range(text: Seq<char>, span: Span) -> Range {
    match (position_of(text, span.start as int), position_of(text, span.end as int)) {
        (Some(start), Some(end)) => Range { start, end },
        _ => Range::spec_detached(),
    }
}

/// The whole of a text as a range; the placeholder range where its end
/// cannot be named.
pub open spec fn whole_range(text: Seq<char>) -> Range {
    match position_of(text, text.len() as int) {
        Some(end) => Range { start: Position { line: 0, character: 0 }, end },
        None => Range::spec_detached(),
    }
}

/// Whether a span reaches an offset: the offset lies in it or at its end.
pub open spec fn reaches(span: Span, offset: int) -> bool {
    span.start <= offset <= span.end
}

/// The diagnostics for the error nodes among the first `count` of a listing:
/// each with the range of its span and the message of its error.
pub open spec fn error_diagnostics(text: Seq<char>, listing: Seq<Cst>, count: nat) -> Seq<
    DiagnosticModel,
>
    decreases count,
{
    if count == 0 || count > listing.len() {
        Seq::empty()
    } else {
        error_diagnostics(text, listing, (count - 1) as nat) + match listing[count - 1] {
            Cst::Error { error, .. } => seq![
                DiagnosticModel { range: span_range(text, error.span), message: error.message },
            ],
            _ => Seq::empty(),
        }
    }
}

/// The diagnostics for the first `count` lines of a validation: each line as
/// a message about the whole text.
pub open spec fn rule_diagnostics(text: Seq<char>, lines: Seq<Seq<char>>, count: nat) -> Seq<
    DiagnosticModel,
>
    decreases count,
{
    if count == 0 || count > lines.len() {
        Seq::empty()
    } else {
        rule_diagnostics(text, lines, (count - 1) as nat).push(
            DiagnosticModel { range: whole_range(text), message: lines[count - 1] },
        )
    }
}

/// The text nodes among the first `count` of a listing whose spans reach an
/// offset.
pub open spec fn texts_at(listing: Seq<Cst>, offset: int, count: nat) -> Seq<Cst>
    decreases count,
{
    if count == 0 || count > listing.len() {
        Seq::empty()
    } else {
        let node = listing[count - 1];
        texts_at(listing, offset, (count - 1) as nat) + if node is Text && reaches(
            node.span(),
            offset,
        ) {
            seq![node]
        } else {
            Seq::empty()
        }
    }
}

/// A word of the text: what it says and where it stands.
#[derive(Debug, Clone, PartialEq, Eq)]
pub struct Word {
    pub text: String,
    pub range: Range,
}

/// The model of a [`Word`].
pub struct WordModel {
    pub text: Seq<char>,
    pub range: Range,
}

impl View for Word {
    type V = WordModel;

    open spec fn view(&self) -> WordModel {
        WordModel { text: self.text@, range: self.range }
    }
}

/// The models of a sequence of words, in order.
pub open spec fn word_views(words: Seq<Word>) -> Seq<WordModel> {
    Seq::new(words.len(), |i: int| words[i]@)
}

/// The words that a sequence of text nodes holds: each with its characters
/// and the range of its text span.
pub open spec fn words_of(text: Seq<char>, nodes: Seq<Cst>) -> Seq<WordModel> {
    Seq::new(
        nodes.len(),
        |i: int|
            WordModel {
                text: nodes[i]->Text_content,
                range: span_range(text, nodes[i].text_span()),
            },
    )
}

/// A piece of the text with a meaning for the editor's colours, placed
/// relative to the piece before it: so many lines further down, so many
/// characters further right on the same line or from the start of a new one.
#[derive(Debug, Clone, Copy, PartialEq, Eq, Structural)]
pub struct SemanticToken {
    pub delta_line: u32,
    pub delta_start: u32,
    pub length: u32,
    pub token_type: u32,
    pub token_modifiers: u32,
}

/// The index of heading markers in the legend of token types.
pub const TOKEN_HEADING: u32 = 0;

/// The index of bold markers in the legend of token types.
pub const TOKEN_BOLD: u32 = 1;

/// The index of italic markers in the legend of token types.
pub const TOKEN_ITALIC: u32 = 2;

/// The index of text in the legend of token types.
pub const TOKEN_TEXT: u32 = 3;

/// The names of the token types, in the order of their indices.
pub fn token_legend() -> (legend: Vec<&'static str>)
    ensures
        legend@.len() == 4,
        legend@[0]@ == "heading"@,
        legend@[1]@ == "bold"@,
        legend@[2]@ == "italic"@,
        legend@[3]@ == "text"@,
{
    let mut legend: Vec<&'static str> = Vec::new();
    legend.push("heading");
    legend.push("bold");
    legend.push("italic");
    legend.push("text");
    legend
}

/// The stretch of a node that is coloured, and the type it is coloured as:
/// the markers of a heading, a bold and an italic node, and the whole of a
/// text node.
pub open spec fn coloured(node: Cst) -> Option<(Span, u32)> {
    match node {
        Cst::Heading { markers, .. } => Some((markers, TOKEN_HEADING)),
        Cst::Bold { markers, .. } => Some((markers, TOKEN_BOLD)),
        Cst::Italic { markers, .. } => Some((markers, TOKEN_ITALIC)),
        Cst::Text { span, .. } => Some((span, TOKEN_TEXT)),
        _ => None,
    }
}

/// The token for a node, placed relative to the place `last`, if the node is
/// coloured, its stretch is not empty, lies at or behind `last`, and place
/// and length can be named.
pub open spec fn token_after(text: Seq<char>, node: Cst, last: Position) -> Option<
    (SemanticToken, Position),
> {
    match coloured(node) {
        Some((span, token_type)) => match position_of(text, span.start as int) {
            Some(start) => if span.start < span.end && span.end - span.start <= u32::MAX
                && start.line >= last.line && (start.line == last.line ==> start.character
                >= last.character) {
                Some(
                    (
                        SemanticToken {
                            delta_line: (start.line - last.line) as u32,
                            delta_start: if start.line == last.line {
                                (start.character - last.character) as u32
                            } else {
                                start.character
                            },
                            length: (span.end - span.start) as u32,
                            token_type,
                            token_modifiers: 0,
                        },
                        start,
                    ),
                )
            } else {
                None
            },
            None => None,
        },
        None => None,
    }
}

/// The tokens for the first `count` nodes of a listing, and the place of the
/// last of them.
pub open spec fn tokens_upto(text: Seq<char>, listing: Seq<Cst>, count: nat) -> (
    Seq<SemanticToken>,
    Position,
)
    decreases count,
{
    if count == 0 || count > listing.len() {
        (Seq::empty(), Position { line: 0, character: 0 })
    } else {
        let (tokens, last) = tokens_upto(text, listing, (count - 1) as nat);
        match token_after(text, listing[count - 1], last) {
            Some((token, start)) => (tokens.push(token), start),
            None => (tokens, last),
        }
    }
}

impl DocumentState {
    /// The tree of a state is the one that its text parses to.
    #[verifier::type_invariant]
    spec fn parsed_from_text(&self) -> bool {
        self.cst@ == document_of(rope_text(self.buffer))
    }

    /// The state of a document opened with `text`.
    pub fn open(text: &str) -> (state: DocumentState)
        ensures
            state@ == opened(text@),
    {
        let buffer = rope_from_str(text);
        Self::parsed(buffer, 0)
    }

    /// The state for a buffer, with the tree parsed from it.
    fn parsed(buffer: Rope, revision: u64) -> (state: DocumentState)
        ensures
            state@ == (DocumentModel {
                text: rope_text(buffer),
                tree: document_of(rope_text(buffer)),
                revision,
            }),
    {
        let mut parser = Parser::over(rope_clone(&buffer));
        let cst = parser.parse_document();
        DocumentState { buffer, cst, revision }
    }

    /// The state that follows this one after a list of changes, applied in
    /// order, each against the text that the changes before it left.
    pub fn apply_changes(&self, changes: &Vec<TextChange>) -> (state: DocumentState)
        ensures
            state@ == changed(self@, change_views(changes@)),
    {
        let mut buffer = rope_clone(&self.buffer);
        let ghost models = change_views(changes@);
        let mut i: usize = 0;
        while i < changes.len()
            invariant
                i <= changes.len(),
                models == change_views(changes@),
                rope_text(buffer) == edited_all(rope_text(self.buffer), models, i as nat),
            decreases changes.len() - i,
        {
            apply_change(&mut buffer, &changes[i]);
            i += 1;
        }
        Self::parsed(buffer, self.following())
    }

    /// The state that follows this one when `text` replaces the whole text.
    pub fn replace_text(&self, text: &str) -> (state: DocumentState)
        ensures
            state@ == replaced(self@, text@),
    {
        Self::parsed(rope_from_str(text), self.following())
    }

    /// The revision that follows this state's.
    fn following(&self) -> (revision: u64)
        ensures
            revision == next_revision(self.revision),
    {
        if self.revision == u64::MAX {
            0
        } else {
            self.revision + 1
        }
    }

    /// The whole text.
    pub fn text(&self) -> (text: String)
        ensures
            text@ == self@.text,
    {
        rope_to_string(&self.buffer)
    }

    /// The syntax tree: the one that the text of the state parses to.
    pub fn cst(&self) -> (tree: &CSTNode)
        ensures
            tree@ == self@.tree,
            state_wf(self@),
    {
        proof {
            use_type_invariant(self);
        }
        &self.cst
    }

    /// How many changes the document has seen.
    pub fn revision(&self) -> (revision: u64)
        ensures
            revision == self@.revision,
    {
        self.revision
    }

    /// Whether something computed at `revision` still belongs to this state.
    pub fn is_current(&self, revision: u64) -> (current: bool)
        ensures
            current == (revision == self@.revision),
    {
        revision == self.revision
    }

    /// The place of an offset of the text.
    pub fn position_at(&self, offset: usize) -> (position: Option<Position>)
        ensures
            position == position_of(self@.text, offset as int),
    {
        offset_to_position(offset, &self.buffer)
    }

    /// The offset of a place in the text.
    pub fn offset_at(&self, position: Position) -> (offset: Option<usize>)
        ensures
            offset is Some <==> offset_of(self@.text, position) is Some,
            offset matches Some(o) ==> offset_of(self@.text, position) == Some(o as int),
    {
        position_to_offset(position, &self.buffer)
    }

    /// The stretch of the text that a span covers.
    pub fn range_of(&self, span: &Span) -> (range: Range)
        ensures
            range == span_range(self@.text, *span),
    {
        match (
            offset_to_position(span.start, &self.buffer),
            offset_to_position(span.end, &self.buffer),
        ) {
            (Some(start), Some(end)) => Range::new(start, end),
            _ => Range::detached(),
        }
    }

    /// The whole text as a range, from its first place to the end of its
    /// last line.
    pub fn whole_range(&self) -> (range: Range)
        ensures
            range == whole_range(self@.text),
    {
        match offset_to_position(rope_len_chars(&self.buffer), &self.buffer) {
            Some(end) => Range::new(Position::new(0, 0), end),
            None => Range::detached(),
        }
    }

    /// The messages for the editor: one for each error node, in document
    /// order, then one for each line that the validator `rules` give.
    pub fn diagnostics_with(&self, validator: &mut MarkdownValidator) -> (diagnostics: Vec<
        Diagnostic,
    >)
        requires
            old(validator).rules_pure(),
        ensures
            final(validator).rules() == old(validator).rules(),
            diagnostic_views(diagnostics@) == error_diagnostics(
                self@.text,
                self@.tree.preorder(),
                self@.tree.preorder().len(),
            ) + rule_diagnostics(
                self@.text,
                violations(old(validator).rules(), self@.tree),
                violations(old(validator).rules(), self@.tree).len(),
            ),
    {
        let ghost text = self@.text;
        let ghost listing = self@.tree.preorder();
        let mut nodes: Vec<&CSTNode> = Vec::new();
        self.cst.traverse_for(&mut nodes);
        assert(cst_ref_views(nodes@) =~= listing);
        let mut diagnostics: Vec<Diagnostic> = Vec::new();
        let mut i: usize = 0;
        assert(diagnostic_views(diagnostics@) =~= error_diagnostics(text, listing, 0));
        while i < nodes.len()
            invariant
                i <= nodes.len(),
                text == self@.text,
                cst_ref_views(nodes@) == listing,
                diagnostic_views(diagnostics@) == error_diagnostics(text, listing, i as nat),
            decreases nodes.len() - i,
        {
            let ghost so_far = diagnostic_views(diagnostics@);
            assert(listing[i as int] == nodes@[i as int]@);
            match nodes[i] {
                CSTNode::Error { error, .. } => {
                    let diagnostic = Diagnostic {
                        range: self.range_of(&error.span),
                        message: error.message.clone(),
                    };
                    diagnostics.push(diagnostic);
                    assert(diagnostic_views(diagnostics@) =~= so_far.push(diagnostic@));
                },
                _ => {},
            }
            i += 1;
            assert(diagnostic_views(diagnostics@) =~= error_diagnostics(text, listing, i as nat));
        }
        let ghost errors = diagnostic_views(diagnostics@);
        let _ = validator.validate(&self.cst);
        let lines = validator.messages();
        let ghost broken = strings_view(lines@);
        let whole = self.whole_range();
        let mut j: usize = 0;
        assert(diagnostic_views(diagnostics@) =~= errors + rule_diagnostics(text, broken, 0));
        while j < lines.len()
            invariant
                j <= lines.len(),
                text == self@.text,
                whole == whole_range(text),
                broken == strings_view(lines@),
                diagnostic_views(diagnostics@) == errors + rule_diagnostics(text, broken, j as nat),
            decreases lines.len() - j,
        {
            let ghost so_far = diagnostic_views(diagnostics@);
            let diagnostic = Diagnostic { range: whole, message: lines[j].clone() };
            diagnostics.push(diagnostic);
            assert(diagnostic_views(diagnostics@) =~= so_far.push(diagnostic@));
            j += 1;
            assert(diagnostic_views(diagnostics@) =~= errors + rule_diagnostics(
                text,
                broken,
                j as nat,
            ));
        }
        diagnostics
    }

    /// The messages for the editor under the default rules.
    pub fn diagnostics(&self) -> (diagnostics: Vec<Diagnostic>)
        ensures
            exists|rules: Seq<ValidationRule>|
                crate::validate::default_rules(rules) && diagnostic_views(diagnostics@)
                    == error_diagnostics(
                    self@.text,
                    self@.tree.preorder(),
                    self@.tree.preorder().len(),
                ) + rule_diagnostics(
                    self@.text,
                    #[trigger] violations(rules, self@.tree),
                    violations(rules, self@.tree).len(),
                ),
    {
        let mut validator = MarkdownValidator::new();
        let ghost rules = validator.rules();
        let diagnostics = self.diagnostics_with(&mut validator);
        diagnostics
    }

    /// The words at a place: the text nodes whose spans reach it, in document
    /// order. There are none at a place outside the text.
    pub fn words_at(&self, position: Position) -> (words: Vec<Word>)
        ensures
            word_views(words@) == match offset_of(self@.text, position) {
                Some(offset) => words_of(
                    self@.text,
                    texts_at(self@.tree.preorder(), offset, self@.tree.preorder().len()),
                ),
                None => Seq::empty(),
            },
    {
        let ghost text = self@.text;
        let ghost listing = self@.tree.preorder();
        let mut words: Vec<Word> = Vec::new();
        let offset = match position_to_offset(position, &self.buffer) {
            Some(offset) => offset,
            None => {
                assert(word_views(words@) =~= Seq::<WordModel>::empty());
                return words;
            },
        };
        let mut nodes: Vec<&CSTNode> = Vec::new();
        self.cst.traverse_for(&mut nodes);
        assert(cst_ref_views(nodes@) =~= listing);
        let mut i: usize = 0;
        assert(word_views(words@) =~= words_of(text, texts_at(listing, offset as int, 0)));
        while i < nodes.len()
            invariant
                i <= nodes.len(),
                text == self@.text,
                cst_ref_views(nodes@) == listing,
                word_views(words@) == words_of(text, texts_at(listing, offset as int, i as nat)),
            decreases nodes.len() - i,
        {
            let ghost so_far = word_views(words@);
            let ghost found = texts_at(listing, offset as int, i as nat);
            assert(listing[i as int] == nodes@[i as int]@);
            match nodes[i] {
                CSTNode::Text { content, span } => {
                    if span.start <= offset && offset <= span.end {
                        let word = Word {
                            text: content.clone(),
                            range: self.range_of(&nodes[i].text_span()),
                        };
                        words.push(word);
                        assert(word_views(words@) =~= so_far.push(word@));
                        assert(words_of(text, found.push(listing[i as int])) =~= words_of(
                            text,
                            found,
                        ).push(word@));
                        assert(texts_at(listing, offset as int, (i + 1) as nat) =~= found.push(
                            listing[i as int],
                        ));
                    } else {
                        assert(texts_at(listing, offset as int, (i + 1) as nat) =~= found);
                    }
                },
                _ => {
                    assert(texts_at(listing, offset as int, (i + 1) as nat) =~= found);
                },
            }
            i += 1;
        }
        words
    }

    /// The edit that renames the word at a place: the first text node whose
    /// span reaches the place gets the new name, and nothing around it is
    /// touched. There is no edit where no word stands.
    pub fn rename(&self, position: Position, new_name: &str) -> (edit: Option<TextEdit>)
        ensures
            match offset_of(self@.text, position) {
                Some(offset) => {
                    let found = texts_at(
                        self@.tree.preorder(),
                        offset,
                        self@.tree.preorder().len(),
                    );
                    if found.len() > 0 {
                        edit matches Some(e) && e.new_text@ == new_name@ && e.range == span_range(
                            self@.text,
                            found[0].text_span(),
                        )
                    } else {
                        edit is None
                    }
                },
                None => edit is None,
            },
    {
        let words = self.words_at(position);
        assert(word_views(words@).len() == words@.len());
        proof {
            match offset_of(self@.text, position) {
                Some(offset) => {
                    let found = texts_at(
                        self@.tree.preorder(),
                        offset,
                        self@.tree.preorder().len(),
                    );
                    assert(words_of(self@.text, found).len() == found.len());
                    if found.len() > 0 {
                        assert(words_of(self@.text, found)[0].range == span_range(
                            self@.text,
                            found[0].text_span(),
                        ));
                    }
                },
                None => {},
            }
        }
        if words.len() == 0 {
            None
        } else {
            assert(word_views(words@)[0] == words@[0]@);
            Some(TextEdit { range: words[0].range, new_text: new_name.to_owned() })
        }
    }

    /// The coloured pieces of the document in document order, each placed
    /// relative to the one before it.
    pub fn semantic_tokens(&self) -> (tokens: Vec<SemanticToken>)
        ensures
            tokens@ == tokens_upto(
                self@.text,
                self@.tree.preorder(),
                self@.tree.preorder().len(),
            ).0,
    {
        let ghost text = self@.text;
        let ghost listing = self@.tree.preorder();
        let mut nodes: Vec<&CSTNode> = Vec::new();
        self.cst.traverse_for(&mut nodes);
        assert(cst_ref_views(nodes@) =~= listing);
        let mut tokens: Vec<SemanticToken> = Vec::new();
        let mut last = Position::new(0, 0);
        let mut i: usize = 0;
        while i < nodes.len()
            invariant
                i <= nodes.len(),
                text == self@.text,
                cst_ref_views(nodes@) == listing,
                (tokens@, last) == tokens_upto(text, listing, i as nat),
            decreases nodes.len() - i,
        {
            assert(listing[i as int] == nodes@[i as int]@);
            let found = match nodes[i] {
                CSTNode::Heading { markers, .. } => Some((*markers, TOKEN_HEADING)),
                CSTNode::Bold { markers, .. } => Some((*markers, TOKEN_BOLD)),
                CSTNode::Italic { markers, .. } => Some((*markers, TOKEN_ITALIC)),
                CSTNode::Text { span, .. } => Some((*span, TOKEN_TEXT)),
                _ => None,
            };
            assert(found == coloured(listing[i as int]));
            match found {
                Some((span, token_type)) => match offset_to_position(span.start, &self.buffer) {
                    Some(start) => {
                        if span.start < span.end && span.end - span.start <= u32::MAX as usize
                            && start.line >= last.line && (start.line != last.line
                            || start.character >= last.character) {
                            let token = SemanticToken {
                                delta_line: start.line - last.line,
                                delta_start: if start.line == last.line {
                                    start.character - last.character
                                } else {
                                    start.character
                                },
                                length: (span.end - span.start) as u32,
                                token_type,
                                token_modifiers: 0,
                            };
                            tokens.push(token);
                            last = start;
                        }
                    },
                    None => {},
                },
                None => {},
            }
            i += 1;
        }
        tokens
    }

    /// The edit that formats the document: the whole text gives way to the
    /// text written anew from the tree. A tree with an error node cannot be
    /// written.
    pub fn formatting(&self, options: FormattingOptions) -> (edit: Result<TextEdit, MarkdownError>)
        ensures
            edit is Ok <==> renderable(self@.tree),
            edit matches Ok(e) ==> e.range == whole_range(self@.text) && e.new_text@ == rendered(
                self@.tree,
                options,
            ),
            edit matches Err(error) ==> error matches MarkdownError::FormattingError(reason)
                && reason@ == no_rule_message(),
    {
        let mut formatter = MarkdownFormatter::new(options);
        match formatter.format(&self.cst) {
            Ok(text) => Ok(TextEdit { range: self.whole_range(), new_text: text }),
            Err(error) => Err(error),
        }
    }
}

} // verus!
