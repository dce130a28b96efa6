//! The tokenizer: from source text, read one grapheme cluster at a time, to a
//! flat sequence of tokens.
//!
//! White space within a line separates tokens and is dropped. A line feed is
//! a token of its own, and so is a cluster that ends with one, as a carriage
//! return with a line feed does. A run of one marker character is one token that
//! carries the length of the run. Everything that is neither a marker nor
//! white space gathers into text tokens, whole clusters at a time.

use vstd::prelude::*;
use vstd::string::{StrSliceExecFns, StringExecFns};

use unicode_segmentation::UnicodeSegmentation;

use crate::kind::{text_status, token_views, TaskStatus, Token, TokenModel};
use crate::span::{Span, Spanned};
use crate::strings::{char_is_blank, char_is_whitespace, is_blank, is_white_space};

verus! {

/// The extended grapheme clusters of a text, in order.
pub uninterp spec fn grapheme_clusters(text: Seq<char>) -> Seq<Seq<char>>;

/// The character sequences that a sequence of string slices holds.
pub open spec fn cluster_views(clusters: Seq<&str>) -> Seq<Seq<char>> {
    Seq::new(clusters.len(), |i: int| clusters[i]@)
}

/// `UnicodeSegmentation::graphemes` of unicode-segmentation, with extended
/// clusters: the grapheme clusters of the text, in order.
#[verifier::external_body]
fn split_graphemes<'a>(input: &'a str) -> (clusters: Vec<&'a str>)
    ensures
        cluster_views(clusters@) == grapheme_clusters(input@),
{
    input.graphemes(true).collect()
}

/// The characters that stand for markup and so end a run of text.
pub open spec fn is_special(c: char) -> bool {
    c == '*' || c == '-' || c == '~' || c == '@' || c == '|' || c == '/' || c == '_' || c == '!'
        || c == '`' || c == '%' || c == '{' || c == '}' || c == '[' || c == ']'
}

/// The character that a cluster is read as: a line feed if the cluster ends
/// its line, as a carriage return with a line feed does; else its first
/// character.
pub open spec fn lead(cluster: Seq<char>) -> char {
    if ends_line(cluster) {
        '\n'
    } else {
        cluster[0]
    }
}

/// The character that the cluster at `index` is read as, if there is such a
/// cluster and it is not empty.
pub open spec fn first_char(clusters: Seq<Seq<char>>, index: int) -> Option<char> {
    if 0 <= index < clusters.len() && clusters[index].len() > 0 {
        Some(lead(clusters[index]))
    } else {
        None
    }
}

/// Where the run of white space within a line that starts at `from` ends.
pub open spec fn blanks_end(clusters: Seq<Seq<char>>, from: int) -> int
    decreases clusters.len() - from,
{
    if 0 <= from < clusters.len() && clusters[from].len() > 0 && is_blank(lead(clusters[from])) {
        blanks_end(clusters, from + 1)
    } else {
        from
    }
}

/// Where the run of clusters that are read as `c` and starts at `from` ends.
pub open spec fn run_end(clusters: Seq<Seq<char>>, from: int, c: char) -> int
    decreases clusters.len() - from,
{
    if 0 <= from < clusters.len() && clusters[from].len() > 0 && lead(clusters[from]) == c {
        run_end(clusters, from + 1, c)
    } else {
        from
    }
}

/// Where the run of clusters without white space that starts at `from` ends.
pub open spec fn word_end(clusters: Seq<Seq<char>>, from: int) -> int
    decreases clusters.len() - from,
{
    if 0 <= from < clusters.len() && clusters[from].len() > 0 && !is_white_space(
        lead(clusters[from]),
    ) {
        word_end(clusters, from + 1)
    } else {
        from
    }
}

/// Whether a character can stand in a text token.
pub open spec fn is_plain(c: char) -> bool {
    !is_special(c) && !is_white_space(c) && c != '\n'
}

/// Where the run of text that starts at `from` ends.
pub open spec fn plain_end(clusters: Seq<Seq<char>>, from: int) -> int
    decreases clusters.len() - from,
{
    if 0 <= from < clusters.len() && clusters[from].len() > 0 && is_plain(lead(clusters[from])) {
        plain_end(clusters, from + 1)
    } else {
        from
    }
}

/// The characters of the clusters from `from` up to `to`.
pub open spec fn gathered(clusters: Seq<Seq<char>>, from: int, to: int) -> Seq<char>
    decreases to - from,
{
    if from >= to || to > clusters.len() || from < 0 {
        Seq::empty()
    } else {
        gathered(clusters, from, to - 1) + clusters[to - 1]
    }
}

/// The token for a run of `-` of a length.
pub open spec fn dash_token(count: int) -> TokenModel {
    if count >= 3 {
        TokenModel::ReverseHeading { levels: 1 }
    } else {
        TokenModel::UnorderedList { level: count as usize }
    }
}

/// The token for the directive whose `@` stands at `at`, and where it ends.
pub open spec fn directive_at(clusters: Seq<Seq<char>>, at: int) -> (TokenModel, int) {
    let name_end = word_end(clusters, at + 1);
    let name = gathered(clusters, at + 1, name_end);
    if name == "code"@ {
        let language_start = blanks_end(clusters, name_end);
        match first_char(clusters, language_start) {
            Some(c) => if c == '\n' {
                (TokenModel::CodeBlockStart { language: None }, language_start)
            } else {
                let language_end = word_end(clusters, language_start);
                (
                    TokenModel::CodeBlockStart {
                        language: Some(gathered(clusters, language_start, language_end)),
                    },
                    language_end,
                )
            },
            None => (TokenModel::CodeBlockStart { language: None }, language_start),
        }
    } else if name == "end"@ {
        (TokenModel::CodeBlockEnd, name_end)
    } else {
        (TokenModel::Text(seq!['@'] + name), name_end)
    }
}

/// Where a one-character markup token at `at` ends: behind a `|` that
/// follows it, else behind the character.
pub open spec fn markup_end(clusters: Seq<Seq<char>>, at: int) -> int {
    if first_char(clusters, at + 1) == Some('|') {
        at + 2
    } else {
        at + 1
    }
}

/// The token that starts at `at`, where it ends, and whether a task status
/// is to follow. No white space stands at `at`.
pub open spec fn plain_token_at(clusters: Seq<Seq<char>>, at: int) -> (TokenModel, int, bool) {
    match first_char(clusters, at) {
        None => (TokenModel::Eof, at, false),
        Some(c) => if c == '\n' {
            (TokenModel::Newline, at + 1, false)
        } else if c == '*' {
            let end = run_end(clusters, at, '*');
            (TokenModel::Heading { level: (end - at) as usize }, end, false)
        } else if c == '-' {
            let end = run_end(clusters, at, '-');
            (dash_token(end - at), end, false)
        } else if c == '~' {
            let end = run_end(clusters, at, '~');
            (TokenModel::OrderedList { level: (end - at) as usize }, end, false)
        } else if c == '@' {
            (directive_at(clusters, at).0, directive_at(clusters, at).1, false)
        } else if c == '|' {
            if first_char(clusters, at + 1) == Some('(') {
                (TokenModel::TaskMarkerStart, at + 2, true)
            } else {
                (TokenModel::Pipe, at + 1, false)
            }
        } else if c == ')' && first_char(clusters, at + 1) == Some('|') {
            (TokenModel::TaskMarkerEnd, at + 2, false)
        } else if c == '/' {
            (TokenModel::Italic, markup_end(clusters, at), false)
        } else if c == '_' {
            (TokenModel::Underline, markup_end(clusters, at), false)
        } else if c == '!' {
            (TokenModel::Spoiler, markup_end(clusters, at), false)
        } else if c == '`' {
            (TokenModel::Verbatim, markup_end(clusters, at), false)
        } else if c == '%' {
            (TokenModel::Comment, markup_end(clusters, at), false)
        } else if c == '{' {
            (TokenModel::LinkStart, at + 1, false)
        } else if c == '}' {
            (TokenModel::LinkEnd, at + 1, false)
        } else if c == '[' {
            (TokenModel::LinkDescStart, at + 1, false)
        } else if c == ']' {
            (TokenModel::LinkDescEnd, at + 1, false)
        } else {
            let end = plain_end(clusters, at);
            (TokenModel::Text(gathered(clusters, at, end)), end, false)
        },
    }
}

/// The next token from `at` on, where it ends, and whether a task status is
/// to follow. Right behind `|(` (`in_task`) one of the eight status symbols
/// is a task status; everywhere else white space is skipped first.
pub open spec fn token_at(clusters: Seq<Seq<char>>, at: int, in_task: bool) -> (
    TokenModel,
    int,
    bool,
) {
    if in_task && 0 <= at < clusters.len() && text_status(clusters[at]) is Some {
        (TokenModel::TaskStatus(text_status(clusters[at])->0), at + 1, false)
    } else {
        plain_token_at(clusters, blanks_end(clusters, at))
    }
}

/// The tokens from `at` to the end of the input, the end token left out.
pub open spec fn tokens_from(clusters: Seq<Seq<char>>, at: int, in_task: bool) -> Seq<TokenModel>
    decreases clusters.len() - at,
{
    let (token, next, task) = token_at(clusters, at, in_task);
    if token is Eof || next <= at || next > clusters.len() {
        Seq::empty()
    } else {
        seq![token] + tokens_from(clusters, next, task)
    }
}

/// Where the token that is read from `at` on starts: at `at` for a task
/// status, else behind the white space that is skipped.
pub open spec fn token_start(clusters: Seq<Seq<char>>, at: int, in_task: bool) -> int {
    if in_task && 0 <= at < clusters.len() && text_status(clusters[at]) is Some {
        at
    } else {
        blanks_end(clusters, at)
    }
}

/// Whether a cluster ends its line: its last character is a line feed.
pub open spec fn ends_line(cluster: Seq<char>) -> bool {
    cluster.len() > 0 && cluster.last() == '\n'
}

/// How many characters the first `upto` clusters hold.
pub open spec fn chars_before(clusters: Seq<Seq<char>>, upto: int) -> nat
    decreases upto,
{
    if upto <= 0 || upto > clusters.len() {
        0
    } else {
        chars_before(clusters, upto - 1) + clusters[upto - 1].len()
    }
}

/// How many of the first `upto` clusters end their lines.
pub open spec fn lines_before(clusters: Seq<Seq<char>>, upto: int) -> nat
    decreases upto,
{
    if upto <= 0 || upto > clusters.len() {
        0
    } else {
        lines_before(clusters, upto - 1) + if ends_line(clusters[upto - 1]) {
            1nat
        } else {
            0nat
        }
    }
}

/// How many characters stand between the cluster at `upto` and the start of
/// its line.
pub open spec fn column_before(clusters: Seq<Seq<char>>, upto: int) -> nat
    decreases upto,
{
    if upto <= 0 || upto > clusters.len() {
        0
    } else if ends_line(clusters[upto - 1]) {
        0
    } else {
        column_before(clusters, upto - 1) + clusters[upto - 1].len()
    }
}

/// A count, held at the largest number there is.
pub open spec fn clamped(count: nat) -> usize {
    if count > usize::MAX {
        usize::MAX
    } else {
        count as usize
    }
}

/// The span of the clusters from `from` up to `to`, in characters, with the
/// line and column of `from` counted from one.
pub open spec fn cluster_span(clusters: Seq<Seq<char>>, from: int, to: int) -> Span {
    Span {
        start: clamped(chars_before(clusters, from)),
        end: clamped(chars_before(clusters, to)),
        line: clamped(lines_before(clusters, from) + 1),
        column: clamped(column_before(clusters, from) + 1),
    }
}

/// The tokens from `at` to the end of the input with their spans, the end
/// token left out.
pub open spec fn spanned_from(clusters: Seq<Seq<char>>, at: int, in_task: bool) -> Seq<
    (TokenModel, Span),
>
    decreases clusters.len() - at,
{
    let (token, next, task) = token_at(clusters, at, in_task);
    if token is Eof || next <= at || next > clusters.len() {
        Seq::empty()
    } else {
        seq![(token, cluster_span(clusters, token_start(clusters, at, in_task), next))]
            + spanned_from(clusters, next, task)
    }
}

/// The models and spans of a sequence of tokens with spans, in order.
pub open spec fn spanned_views(tokens: Seq<Spanned<Token>>) -> Seq<(TokenModel, Span)> {
    Seq::new(tokens.len(), |i: int| (tokens[i].v@, tokens[i].span))
}

/// The character that a cluster is read as, if the cluster is not empty.
fn lead_of(cluster: &str) -> (c: Option<char>)
    ensures
        c == if cluster@.len() > 0 {
            Some(lead(cluster@))
        } else {
            None
        },
{
    let len = cluster.unicode_len();
    if len == 0 {
        None
    } else if cluster.get_char(len - 1) == '\n' {
        Some('\n')
    } else {
        Some(cluster.get_char(0))
    }
}

/// The sum of two counts, held at the largest number there is.
fn held_sum(a: usize, b: usize) -> (sum: usize)
    ensures
        sum == clamped((a + b) as nat),
{
    if a > usize::MAX - b {
        usize::MAX
    } else {
        a + b
    }
}

/// A token that is not the end token ends behind where it was looked for.
pub proof fn lemma_token_advances(clusters: Seq<Seq<char>>, at: int, in_task: bool)
    requires
        0 <= at <= clusters.len(),
    ensures
        at <= token_start(clusters, at, in_task) <= clusters.len(),
        token_start(clusters, at, in_task) <= token_at(clusters, at, in_task).1 <= clusters.len(),
        !(token_at(clusters, at, in_task).0 is Eof) ==> token_start(clusters, at, in_task)
            < token_at(clusters, at, in_task).1,
{
    let start = blanks_end(clusters, at);
    lemma_run_bounds(clusters, at, ' ');
    lemma_blanks_end_is_no_blank(clusters, at);
    if !(in_task && at < clusters.len() && text_status(clusters[at]) is Some) {
        match first_char(clusters, start) {
            Some(c) => {
                lemma_run_bounds(clusters, start, c);
                lemma_run_bounds(clusters, start + 1, c);
                if c == '@' {
                    let name_end = word_end(clusters, start + 1);
                    lemma_run_bounds(clusters, name_end, c);
                    lemma_run_bounds(clusters, blanks_end(clusters, name_end), c);
                }
            },
            None => {},
        }
    }
}

/// Where the white space that starts at `from` ends, no white space stands.
pub proof fn lemma_blanks_end_is_no_blank(clusters: Seq<Seq<char>>, from: int)
    requires
        0 <= from <= clusters.len(),
    ensures
        first_char(clusters, blanks_end(clusters, from)) matches Some(c) ==> !is_blank(c),
    decreases clusters.len() - from,
{
    if from < clusters.len() && clusters[from].len() > 0 && is_blank(lead(clusters[from])) {
        lemma_blanks_end_is_no_blank(clusters, from + 1);
    }
}

/// Each run ends at or behind its start, within the clusters.
pub proof fn lemma_run_bounds(clusters: Seq<Seq<char>>, from: int, c: char)
    requires
        0 <= from <= clusters.len(),
    ensures
        from <= blanks_end(clusters, from) <= clusters.len(),
        from <= run_end(clusters, from, c) <= clusters.len(),
        from <= word_end(clusters, from) <= clusters.len(),
        from <= plain_end(clusters, from) <= clusters.len(),
    decreases clusters.len() - from,
{
    if from < clusters.len() {
        lemma_run_bounds(clusters, from + 1, c);
    }
}

/// Behind skipped white space there is no white space to skip.
pub proof fn lemma_blanks_end_twice(clusters: Seq<Seq<char>>, from: int)
    requires
        0 <= from <= clusters.len(),
    ensures
        blanks_end(clusters, blanks_end(clusters, from)) == blanks_end(clusters, from),
    decreases clusters.len() - from,
{
    if from < clusters.len() && clusters[from].len() > 0 && is_blank(lead(clusters[from])) {
        lemma_blanks_end_twice(clusters, from + 1);
    }
}

/// What a tokenizer reads with.
pub trait Lex {
    /// The clusters being read.
    spec fn clusters(&self) -> Seq<Seq<char>>;

    /// The index of the next cluster to read.
    spec fn position(&self) -> int;

    /// The first character of the next cluster.
    fn peek_char(&self) -> (c: Option<char>)
        ensures
            c == first_char(self.clusters(), self.position()),
    ;

    /// Whether a line feed or nothing comes next.
    fn is_at_line_end(&self) -> (end: bool)
        ensures
            end == (first_char(self.clusters(), self.position()) is None || first_char(
                self.clusters(),
                self.position(),
            ) == Some('\n')),
    ;

    /// Whether every cluster has been read.
    fn is_eof(&self) -> (eof: bool)
        ensures
            eof == (self.position() == self.clusters().len()),
    ;

    /// Steps over the next cluster, if there is one.
    fn advance(&mut self)
        ensures
            final(self).clusters() == old(self).clusters(),
            final(self).position() == if old(self).position() < old(self).clusters().len() {
                old(self).position() + 1
            } else {
                old(self).position()
            },
    ;

    /// Reads up to the next white space and returns what was read.
    fn read_until_whitespace(&mut self) -> (word: String)
        ensures
            final(self).clusters() == old(self).clusters(),
            final(self).position() == word_end(old(self).clusters(), old(self).position()),
            word@ == gathered(old(self).clusters(), old(self).position(), final(self).position()),
    ;

    /// Steps over white space within the line.
    fn skip_whitespace(&mut self)
        ensures
            final(self).clusters() == old(self).clusters(),
            final(self).position() == blanks_end(old(self).clusters(), old(self).position()),
    ;
}

/// What the tokenizer asks of a character.
pub trait NeorgChar {
    /// Whether the character is a line feed.
    fn is_newline(&self) -> bool;

    /// Whether the character stands for markup.
    fn is_special_char(&self) -> bool;
}

impl NeorgChar for char {
    fn is_newline(&self) -> (newline: bool)
        ensures
            newline == (*self == '\n'),
    {
        *self == '\n'
    }

    fn is_special_char(&self) -> (special: bool)
        ensures
            special == is_special(*self),
    {
        let c = *self;
        c == '*' || c == '-' || c == '~' || c == '@' || c == '|' || c == '/' || c == '_' || c
            == '!' || c == '`' || c == '%' || c == '{' || c == '}' || c == '[' || c == ']'
    }
}

/// A tokenizer over one source text.
#[derive(Debug)]
pub struct Lexer<'a> {
    input: &'a str,
    graphemes: Vec<&'a str>,
    place: Place,
    in_task: bool,
}

/// Where a tokenizer stands: at which cluster, behind how many characters,
/// and behind how many lines and characters of the line.
#[derive(Debug, Clone, Copy)]
struct Place {
    position: usize,
    offset: usize,
    line: usize,
    column: usize,
}

impl<'a> Lex for Lexer<'a> {
    closed spec fn clusters(&self) -> Seq<Seq<char>> {
        cluster_views(self.graphemes@)
    }

    closed spec fn position(&self) -> int {
        self.place.position as int
    }

    fn peek_char(&self) -> (c: Option<char>) {
        proof {
            use_type_invariant(&*self);
        }
        if self.place.position < self.graphemes.len() {
            lead_of(self.graphemes[self.place.position])
        } else {
            None
        }
    }

    fn is_at_line_end(&self) -> (end: bool) {
        proof {
            use_type_invariant(&*self);
        }
        match self.peek_char() {
            Some(c) => c == '\n',
            None => true,
        }
    }

    fn is_eof(&self) -> (eof: bool) {
        proof {
            use_type_invariant(&*self);
        }
        self.place.position == self.graphemes.len()
    }

    fn advance(&mut self)
        ensures
            final(self).wf(),
            final(self).in_task() == old(self).in_task(),
            final(self).input() == old(self).input(),
    {
        proof {
            use_type_invariant(&*self);
        }
        if self.place.position < self.graphemes.len() {
            let cluster = self.graphemes[self.place.position];
            let len = cluster.unicode_len();
            let last = len > 0 && cluster.get_char(len - 1) == '\n';
            assert(last == ends_line(self.clusters()[self.place.position as int]));
            self.place = Place {
                position: self.place.position + 1,
                offset: held_sum(self.place.offset, len),
                line: if last {
                    held_sum(self.place.line, 1)
                } else {
                    self.place.line
                },
                column: if last {
                    0
                } else {
                    held_sum(self.place.column, len)
                },
            };
        }
    }

    fn read_until_whitespace(&mut self) -> (word: String)
        ensures
            final(self).wf(),
            final(self).in_task() == old(self).in_task(),
            final(self).input() == old(self).input(),
    {
        proof {
            use_type_invariant(&*self);
        }
        let mut word = String::new();
        let ghost clusters = self.clusters();
        let ghost start = self.place.position as int;
        assert(word@ =~= gathered(clusters, start, self.place.position as int));
        loop
            invariant
                self.wf(),
                clusters == self.clusters(),
                self.clusters() == old(self).clusters(),
                start == old(self).place.position,
                start <= self.place.position,
                self.in_task == old(self).in_task,
                self.input() == old(self).input(),
                word_end(clusters, self.place.position as int) == word_end(clusters, start),
                word@ == gathered(clusters, start, self.place.position as int),
            ensures
                self.place.position == word_end(clusters, start),
            decreases self.graphemes@.len() - self.place.position,
        {
            match self.peek_char() {
                Some(c) => {
                    if char_is_whitespace(c) {
                        break;
                    }
                    word.append(self.graphemes[self.place.position]);
                    self.advance();
                },
                None => {
                    break;
                },
            }
        }
        word
    }

    fn skip_whitespace(&mut self)
        ensures
            final(self).wf(),
            final(self).in_task() == old(self).in_task(),
            final(self).input() == old(self).input(),
    {
        proof {
            use_type_invariant(&*self);
        }
        let ghost clusters = self.clusters();
        loop
            invariant
                self.wf(),
                clusters == self.clusters(),
                self.clusters() == old(self).clusters(),
                self.in_task == old(self).in_task,
                self.input() == old(self).input(),
                blanks_end(clusters, self.place.position as int) == blanks_end(
                    clusters,
                    old(self).place.position as int,
                ),
            ensures
                self.place.position == blanks_end(clusters, old(self).place.position as int),
            decreases self.graphemes@.len() - self.place.position,
        {
            match self.peek_char() {
                Some(c) => {
                    if !char_is_blank(c) {
                        break;
                    }
                    self.advance();
                },
                None => {
                    break;
                },
            }
        }
    }
}

impl<'a> Lexer<'a> {
    /// The tokenizer stands within its clusters and knows how many
    /// characters and lines lie behind it.
    #[verifier::type_invariant]
    pub closed spec fn wf(&self) -> bool {
        &&& self.place.position <= self.graphemes@.len()
        &&& self.place.offset == clamped(chars_before(self.clusters(), self.place.position as int))
        &&& self.place.line == clamped(lines_before(self.clusters(), self.place.position as int))
        &&& self.place.column == clamped(
            column_before(self.clusters(), self.place.position as int),
        )
    }

    /// Whether the tokenizer stands right behind `|(`, where a task status
    /// is looked for.
    pub closed spec fn in_task(&self) -> bool {
        self.in_task
    }

    /// The text being read.
    pub closed spec fn input(&self) -> Seq<char> {
        self.input@
    }

    /// All tokens of a text, the end token left out.
    pub fn lex(input: &'a str) -> (tokens: Vec<Token>)
        ensures
            token_views(tokens@) == tokens_from(grapheme_clusters(input@), 0, false),
    {
        let mut lexer = Lexer::new(input);
        lexer.rest()
    }

    /// All tokens of a text that has been split into clusters, the end token
    /// left out.
    pub fn lex_clusters(input: &'a str, clusters: Vec<&'a str>) -> (tokens: Vec<Token>)
        ensures
            token_views(tokens@) == tokens_from(cluster_views(clusters@), 0, false),
    {
        let mut lexer = Lexer::over(input, clusters);
        lexer.rest()
    }

    /// A tokenizer at the start of a text.
    pub fn new(input: &'a str) -> (lexer: Lexer<'a>)
        ensures
            lexer.wf(),
            lexer.input() == input@,
            lexer.clusters() == grapheme_clusters(input@),
            lexer.position() == 0,
            !lexer.in_task(),
    {
        Lexer {
            input,
            graphemes: split_graphemes(input),
            place: Place { position: 0, offset: 0, line: 0, column: 0 },
            in_task: false,
        }
    }

    /// A tokenizer at the start of a text that has been split into clusters.
    pub fn over(input: &'a str, clusters: Vec<&'a str>) -> (lexer: Lexer<'a>)
        ensures
            lexer.wf(),
            lexer.input() == input@,
            lexer.clusters() == cluster_views(clusters@),
            lexer.position() == 0,
            !lexer.in_task(),
    {
        Lexer {
            input,
            graphemes: clusters,
            place: Place { position: 0, offset: 0, line: 0, column: 0 },
            in_task: false,
        }
    }

    /// All tokens of a text with the spans they cover, the end token left
    /// out.
    pub fn lex_spanned(input: &'a str) -> (tokens: Vec<Spanned<Token>>)
        ensures
            spanned_views(tokens@) == spanned_from(grapheme_clusters(input@), 0, false),
    {
        let mut lexer = Lexer::new(input);
        lexer.rest_spanned()
    }

    /// The tokens that are left with the spans they cover, the end token
    /// left out.
    pub fn rest_spanned(&mut self) -> (tokens: Vec<Spanned<Token>>)
        ensures
            final(self).wf(),
            final(self).clusters() == old(self).clusters(),
            spanned_views(tokens@) == spanned_from(
                old(self).clusters(),
                old(self).position(),
                old(self).in_task(),
            ),
    {
        proof {
            use_type_invariant(&*self);
        }
        let mut tokens: Vec<Spanned<Token>> = Vec::new();
        let ghost clusters = self.clusters();
        let ghost all = spanned_from(clusters, self.place.position as int, self.in_task);
        assert(spanned_views(tokens@) + spanned_from(clusters, self.place.position as int, self.in_task)
            =~= all);
        loop
            invariant_except_break
                spanned_views(tokens@) + spanned_from(
                    clusters,
                    self.place.position as int,
                    self.in_task,
                ) == all,
            invariant
                self.wf(),
                clusters == self.clusters(),
                self.clusters() == old(self).clusters(),
            ensures
                spanned_views(tokens@) == all,
            decreases self.graphemes@.len() - self.place.position,
        {
            let ghost before = spanned_views(tokens@);
            let ghost here = self.place.position as int;
            let ghost task = self.in_task;
            proof {
                lemma_token_advances(clusters, here, task);
            }
            let token = self.next_spanned();
            match token.v {
                Token::Eof => {
                    assert(spanned_from(clusters, here, task) =~= Seq::<
                        (TokenModel, Span),
                    >::empty());
                    assert(before + Seq::<(TokenModel, Span)>::empty() =~= before);
                    break;
                },
                _ => {},
            }
            let ghost seen = (token.v@, token.span);
            tokens.push(token);
            assert(spanned_views(tokens@) =~= before.push(seen));
            assert(spanned_from(clusters, here, task) =~= seq![seen] + spanned_from(
                clusters,
                self.place.position as int,
                self.in_task,
            ));
            assert(spanned_views(tokens@) + spanned_from(
                clusters,
                self.place.position as int,
                self.in_task,
            ) =~= before + spanned_from(clusters, here, task));
        }
        tokens
    }

    /// Reads the next token and says which span of the text it covers.
    pub fn next_spanned(&mut self) -> (token: Spanned<Token>)
        ensures
            final(self).wf(),
            final(self).clusters() == old(self).clusters(),
            (token.v@, final(self).position(), final(self).in_task()) == token_at(
                old(self).clusters(),
                old(self).position(),
                old(self).in_task(),
            ),
            token.span == cluster_span(
                old(self).clusters(),
                token_start(old(self).clusters(), old(self).position(), old(self).in_task()),
                final(self).position(),
            ),
    {
        proof {
            use_type_invariant(&*self);
        }
        let ghost clusters = self.clusters();
        let ghost here = self.place.position as int;
        let status_next = self.in_task && self.place.position < self.graphemes.len()
            && TaskStatus::parse(self.graphemes[self.place.position]).is_some();
        if !status_next {
            self.in_task = false;
            self.skip_whitespace();
            proof {
                lemma_run_bounds(clusters, here, ' ');
                lemma_blanks_end_twice(clusters, here);
            }
        }
        let start = self.place.offset;
        let line = held_sum(self.place.line, 1);
        let column = held_sum(self.place.column, 1);
        let token = self.next_token();
        Spanned::new(token, Span::new(start, self.place.offset, line, column))
    }

    /// The tokens that are left, the end token left out.
    pub fn rest(&mut self) -> (tokens: Vec<Token>)
        ensures
            final(self).wf(),
            final(self).clusters() == old(self).clusters(),
            token_views(tokens@) == tokens_from(
                old(self).clusters(),
                old(self).position(),
                old(self).in_task(),
            ),
    {
        proof {
            use_type_invariant(&*self);
        }
        let mut tokens: Vec<Token> = Vec::new();
        let ghost clusters = self.clusters();
        let ghost all = tokens_from(clusters, self.place.position as int, self.in_task);
        assert(token_views(tokens@) + tokens_from(clusters, self.place.position as int, self.in_task)
            =~= all);
        loop
            invariant_except_break
                token_views(tokens@) + tokens_from(clusters, self.place.position as int, self.in_task)
                    == all,
            invariant
                self.wf(),
                clusters == self.clusters(),
                self.clusters() == old(self).clusters(),
            ensures
                token_views(tokens@) == all,
            decreases self.graphemes@.len() - self.place.position,
        {
            let ghost before = token_views(tokens@);
            let ghost here = self.place.position as int;
            let ghost task = self.in_task;
            proof {
                lemma_token_advances(clusters, here, task);
            }
            let token = self.next_token();
            match token {
                Token::Eof => {
                    assert(tokens_from(clusters, here, task) =~= Seq::<TokenModel>::empty());
                    assert(before + Seq::<TokenModel>::empty() =~= before);
                    break;
                },
                _ => {},
            }
            tokens.push(token);
            assert(token_views(tokens@) =~= before.push(token@));
            assert(tokens_from(clusters, here, task) =~= seq![token@] + tokens_from(
                clusters,
                self.place.position as int,
                self.in_task,
            ));
            assert(token_views(tokens@) + tokens_from(
                clusters,
                self.place.position as int,
                self.in_task,
            ) =~= before + tokens_from(clusters, here, task));
        }
        tokens
    }

    /// Reads the next token. At the end of the input it is the end token, as
    /// often as it is asked for.
    pub fn next_token(&mut self) -> (token: Token)
        ensures
            final(self).wf(),
            final(self).clusters() == old(self).clusters(),
            (token@, final(self).position(), final(self).in_task()) == token_at(
                old(self).clusters(),
                old(self).position(),
                old(self).in_task(),
            ),
    {
        proof {
            use_type_invariant(&*self);
        }
        let ghost clusters = self.clusters();
        if self.in_task {
            self.in_task = false;
            if self.place.position < self.graphemes.len() {
                match TaskStatus::parse(self.graphemes[self.place.position]) {
                    Some(status) => {
                        self.advance();
                        return Token::TaskStatus(status);
                    },
                    None => {},
                }
            }
        }
        self.skip_whitespace();
        if self.is_eof() {
            return Token::Eof;
        }
        let c = match self.peek_char() {
            Some(c) => c,
            None => {
                return Token::Eof;
            },
        };
        proof {
            lemma_run_bounds(clusters, self.place.position as int, c);
            lemma_run_bounds(clusters, self.place.position + 1, c);
        }
        if c == '\n' {
            self.advance();
            Token::Newline
        } else if c == '*' {
            self.read_heading()
        } else if c == '-' {
            self.read_dash_token()
        } else if c == '~' {
            self.read_ordered_list()
        } else if c == '@' {
            self.read_code_block()
        } else if c == '|' {
            self.read_task_marker()
        } else if c == ')' && self.follows('|') {
            self.advance();
            self.advance();
            Token::TaskMarkerEnd
        } else if c == '/' {
            self.read_markup_token(Token::Italic)
        } else if c == '_' {
            self.read_markup_token(Token::Underline)
        } else if c == '!' {
            self.read_markup_token(Token::Spoiler)
        } else if c == '`' {
            self.read_markup_token(Token::Verbatim)
        } else if c == '%' {
            self.read_markup_token(Token::Comment)
        } else if c == '{' {
            self.advance();
            Token::LinkStart
        } else if c == '}' {
            self.advance();
            Token::LinkEnd
        } else if c == '[' {
            self.advance();
            Token::LinkDescStart
        } else if c == ']' {
            self.advance();
            Token::LinkDescEnd
        } else {
            self.read_text()
        }
    }

    /// Whether the cluster behind the next one begins with `c`.
    fn follows(&self, c: char) -> (yes: bool)
        requires
            self.wf(),
            self.place.position < self.graphemes@.len(),
        ensures
            yes == (first_char(self.clusters(), self.place.position + 1) == Some(c)),
    {
        proof {
            use_type_invariant(&*self);
        }
        let len = self.graphemes.len();
        if self.place.position < len && self.place.position + 1 < len {
            match lead_of(self.graphemes[self.place.position + 1]) {
                Some(found) => found == c,
                None => false,
            }
        } else {
            false
        }
    }

    /// Steps over the run of clusters that begin with `c` and returns its
    /// length.
    fn read_run(&mut self, c: char) -> (count: usize)
        ensures
            final(self).wf(),
            final(self).clusters() == old(self).clusters(),
            final(self).in_task == old(self).in_task,
            final(self).place.position == run_end(old(self).clusters(), old(self).place.position as int, c),
            count == final(self).place.position - old(self).place.position,
    {
        proof {
            use_type_invariant(&*self);
        }
        let ghost clusters = self.clusters();
        let mut count: usize = 0;
        loop
            invariant
                self.wf(),
                clusters == self.clusters(),
                self.clusters() == old(self).clusters(),
                self.in_task == old(self).in_task,
                count == self.place.position - old(self).place.position,
                run_end(clusters, self.place.position as int, c) == run_end(
                    clusters,
                    old(self).place.position as int,
                    c,
                ),
            ensures
                self.place.position == run_end(clusters, old(self).place.position as int, c),
            decreases self.graphemes@.len() - self.place.position,
        {
            match self.peek_char() {
                Some(found) => {
                    if found != c {
                        break;
                    }
                    self.advance();
                    count += 1;
                },
                None => {
                    break;
                },
            }
        }
        count
    }

    fn read_text(&mut self) -> (token: Token)
        ensures
            final(self).wf(),
            final(self).clusters() == old(self).clusters(),
            final(self).in_task == old(self).in_task,
            final(self).place.position == plain_end(old(self).clusters(), old(self).place.position as int),
            token@ == TokenModel::Text(
                gathered(old(self).clusters(), old(self).place.position as int, final(self).place.position as int),
            ),
    {
        proof {
            use_type_invariant(&*self);
        }
        let mut text = String::new();
        let ghost clusters = self.clusters();
        let ghost start = self.place.position as int;
        assert(text@ =~= gathered(clusters, start, self.place.position as int));
        loop
            invariant
                self.wf(),
                clusters == self.clusters(),
                self.clusters() == old(self).clusters(),
                self.in_task == old(self).in_task,
                start == old(self).place.position,
                start <= self.place.position,
                plain_end(clusters, self.place.position as int) == plain_end(clusters, start),
                text@ == gathered(clusters, start, self.place.position as int),
            ensures
                self.place.position == plain_end(clusters, start),
            decreases self.graphemes@.len() - self.place.position,
        {
            match self.peek_char() {
                Some(c) => {
                    if c.is_special_char() || char_is_whitespace(c) || c.is_newline() {
                        break;
                    }
                    text.append(self.graphemes[self.place.position]);
                    self.advance();
                },
                None => {
                    break;
                },
            }
        }
        Token::Text(text)
    }

    fn read_heading(&mut self) -> (token: Token)
        ensures
            final(self).wf(),
            final(self).clusters() == old(self).clusters(),
            final(self).in_task == old(self).in_task,
            final(self).place.position == run_end(old(self).clusters(), old(self).place.position as int, '*'),
            token@ == (TokenModel::Heading {
                level: (final(self).place.position - old(self).place.position) as usize,
            }),
    {
        proof {
            use_type_invariant(&*self);
        }
        let level = self.read_run('*');
        Token::Heading { level }
    }

    fn read_task_marker(&mut self) -> (token: Token)
        requires
            old(self).wf(),
            first_char(old(self).clusters(), old(self).place.position as int) == Some('|'),
        ensures
            final(self).wf(),
            final(self).clusters() == old(self).clusters(),
            (token@, final(self).place.position as int, final(self).in_task) == plain_token_at(
                old(self).clusters(),
                old(self).place.position as int,
            ),
    {
        proof {
            use_type_invariant(&*self);
        }
        self.advance();
        if self.peek_char() == Some('(') {
            self.advance();
            self.in_task = true;
            Token::TaskMarkerStart
        } else {
            self.in_task = false;
            Token::Pipe
        }
    }

    fn read_code_block(&mut self) -> (token: Token)
        requires
            old(self).wf(),
            first_char(old(self).clusters(), old(self).place.position as int) == Some('@'),
        ensures
            final(self).wf(),
            final(self).clusters() == old(self).clusters(),
            final(self).in_task == old(self).in_task,
            (token@, final(self).place.position as int) == directive_at(
                old(self).clusters(),
                old(self).place.position as int,
            ),
    {
        proof {
            use_type_invariant(&*self);
        }
        self.advance();
        let text = self.read_until_whitespace();
        if text == String::from_str("code") {
            self.skip_whitespace();
            let language = if !self.is_at_line_end() {
                Some(self.read_until_whitespace())
            } else {
                None
            };
            Token::CodeBlockStart { language }
        } else if text == String::from_str("end") {
            Token::CodeBlockEnd
        } else {
            let mut whole = String::from_str("@");
            proof {
                reveal_strlit("@");
                assert("@"@ =~= seq!['@']);
            }
            whole.append(text.as_str());
            Token::Text(whole)
        }
    }

    fn read_ordered_list(&mut self) -> (token: Token)
        ensures
            final(self).wf(),
            final(self).clusters() == old(self).clusters(),
            final(self).in_task == old(self).in_task,
            final(self).place.position == run_end(old(self).clusters(), old(self).place.position as int, '~'),
            token@ == (TokenModel::OrderedList {
                level: (final(self).place.position - old(self).place.position) as usize,
            }),
    {
        proof {
            use_type_invariant(&*self);
        }
        let level = self.read_run('~');
        Token::OrderedList { level }
    }

    fn read_dash_token(&mut self) -> (token: Token)
        ensures
            final(self).wf(),
            final(self).clusters() == old(self).clusters(),
            final(self).in_task == old(self).in_task,
            final(self).place.position == run_end(old(self).clusters(), old(self).place.position as int, '-'),
            token@ == dash_token(final(self).place.position - old(self).place.position),
    {
        proof {
            use_type_invariant(&*self);
        }
        let count = self.read_run('-');
        if count >= 3 {
            Token::ReverseHeading { levels: 1 }
        } else {
            Token::UnorderedList { level: count }
        }
    }

    fn read_markup_token(&mut self, token_type: Token) -> (token: Token)
        requires
            old(self).wf(),
            old(self).place.position < old(self).graphemes@.len(),
        ensures
            final(self).wf(),
            final(self).clusters() == old(self).clusters(),
            final(self).in_task == old(self).in_task,
            final(self).place.position == markup_end(old(self).clusters(), old(self).place.position as int),
            token == token_type,
    {
        proof {
            use_type_invariant(&*self);
        }
        self.advance();
        if self.peek_char() == Some('|') {
            self.advance();
        }
        token_type
    }
}

} // verus!
