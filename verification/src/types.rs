//! What the word lookup gives and how it is written out for the editor.

use vstd::prelude::*;
use vstd::string::StringExecFns;

use ecow::EcoString;

use crate::document::{TextEdit, Word};
use crate::node::strings_view;
use crate::strings::{decimal_digits, push_char, push_decimal};

verus! {

#[verifier::external_type_specification]
#[verifier::external_body]
pub struct ExEcoString(EcoString);

/// The characters that a string of ecow holds.
pub uninterp spec fn eco_text(text: EcoString) -> Seq<char>;

/// `EcoString::from` of ecow for a string slice: a string that holds the
/// characters of the slice.
#[verifier::external_body]
pub(crate) fn eco_from_str(text: &str) -> (made: EcoString)
    ensures
        eco_text(made) == text@,
{
    EcoString::from(text)
}

/// `EcoString::clone` of ecow: a string that holds the same characters.
pub assume_specification[ <EcoString as Clone>::clone ](text: &EcoString) -> (copy: EcoString)
    ensures
        eco_text(copy) == eco_text(*text),
;

/// `EcoString::len` of ecow: the length of the string in bytes.
#[verifier::external_body]
pub(crate) fn eco_len(text: &EcoString) -> (len: usize)
    ensures
        len == vstd::utf8::encode_utf8(eco_text(*text)).len(),
{
    text.len()
}

/// `EcoString::as_str` of ecow: the whole string as a slice.
#[verifier::external_body]
fn eco_as_str(text: &EcoString) -> (slice: &str)
    ensures
        slice@ == eco_text(*text),
{
    text.as_str()
}

/// `EcoString::push` of ecow: appends one character.
#[verifier::external_body]
fn eco_push(text: &mut EcoString, c: char)
    ensures
        eco_text(*final(text)) == eco_text(*old(text)).push(c),
{
    text.push(c)
}

/// `EcoString::push_str` of ecow: appends a string slice.
#[verifier::external_body]
fn eco_push_str(text: &mut EcoString, string: &str)
    ensures
        eco_text(*final(text)) == eco_text(*old(text)) + string@,
{
    text.push_str(string)
}

/// A piece of plain text that grows at its end.
pub struct PlainText {
    ctx: EcoString,
}

impl View for PlainText {
    type V = Seq<char>;

    closed spec fn view(&self) -> Seq<char> {
        eco_text(self.ctx)
    }
}

impl PlainText {
    /// Plain text that holds `ctx`.
    pub fn new(ctx: EcoString) -> (text: PlainText)
        ensures
            text@ == eco_text(ctx),
    {
        PlainText { ctx }
    }

    /// What the text holds.
    pub fn ctx(&self) -> (ctx: &str)
        ensures
            ctx@ == self@,
    {
        eco_as_str(&self.ctx)
    }

    /// Puts `ctx` in the place of what the text holds.
    pub fn set_ctx(&mut self, ctx: EcoString)
        ensures
            final(self)@ == eco_text(ctx),
    {
        self.ctx = ctx;
    }

    /// Appends one character.
    pub fn push(&mut self, c: char)
        ensures
            final(self)@ == old(self)@.push(c),
    {
        eco_push(&mut self.ctx, c)
    }

    /// Appends a string slice.
    pub fn push_str(&mut self, string: &str)
        ensures
            final(self)@ == old(self)@ + string@,
    {
        eco_push_str(&mut self.ctx, string)
    }
}

/// One sense of a word.
#[derive(Debug, Clone, PartialEq, Eq)]
pub struct Definition {
    pub definition: String,
    pub example: Option<String>,
    pub synonyms: Vec<String>,
    pub antonyms: Vec<String>,
}

/// The senses of a word as one part of speech.
#[derive(Debug, Clone, PartialEq, Eq)]
pub struct Meaning {
    pub part_of_speech: String,
    pub definitions: Vec<Definition>,
    pub synonyms: Vec<String>,
}

/// How a word is spoken.
#[derive(Debug, Clone, PartialEq, Eq)]
pub struct Phonetic {
    pub text: Option<String>,
    pub audio: Option<String>,
}

/// What the lookup knows of a word.
#[derive(Debug, Clone, PartialEq, Eq)]
pub struct DictionaryEntry {
    pub word: String,
    pub phonetic: Option<String>,
    pub phonetics: Vec<Phonetic>,
    pub origin: Option<String>,
    pub meanings: Vec<Meaning>,
}

/// Text in Markdown.
pub struct MarkDown(pub String);

/// Text in the markup of this library.
pub struct Neorg(pub String);

/// How the two markups differ in writing out an entry.
#[derive(Clone, Copy)]
enum Dialect {
    MarkDown,
    Neorg,
}

/// A definition written out: its text, an empty line, and its example as a
/// quoted list item under a heading, where it has one. `heading` is the
/// line that stands above the example.
pub open spec fn definition_text(definition: Definition, heading: Seq<char>) -> Seq<char> {
    definition.definition@ + "\n \n"@ + match definition.example {
        Some(example) => heading + ">     - "@ + example@ + seq!['\n', '\n'],
        None => Seq::empty(),
    }
}

/// The line above an example in Markdown.
pub open spec fn markdown_example_heading() -> Seq<char> {
    "> ### Example: \n"@
}

/// The line above an example in the markup of this library.
pub open spec fn neorg_example_heading() -> Seq<char> {
    "> *** Example: \n"@
}

/// The first `count` definitions written out in Markdown, numbered from one.
pub open spec fn numbered_definitions(definitions: Seq<Definition>, count: nat) -> Seq<char>
    decreases count,
{
    if count == 0 || count > definitions.len() {
        Seq::empty()
    } else {
        numbered_definitions(definitions, (count - 1) as nat) + decimal_digits(count) + ". "@
            + definition_text(definitions[count - 1], markdown_example_heading())
    }
}

/// A meaning written out: its part of speech behind `marker` as a heading,
/// an empty line, and its definitions, numbered.
pub open spec fn meaning_text(meaning: Meaning, marker: Seq<char>) -> Seq<char> {
    marker + meaning.part_of_speech@ + seq!['\n', '\n'] + numbered_definitions(
        meaning.definitions@,
        meaning.definitions@.len(),
    )
}

/// The first `count` meanings written out in Markdown, one after another.
pub open spec fn meanings_text(meanings: Seq<Meaning>, count: nat) -> Seq<char>
    decreases count,
{
    if count == 0 || count > meanings.len() {
        Seq::empty()
    } else {
        meanings_text(meanings, (count - 1) as nat) + meaning_text(meanings[count - 1], "## "@)
    }
}

/// An entry written out: the word behind `marker` as a heading, with its
/// phonetic spelling behind a tab where it has one; an empty line; its
/// origin under the heading `origin_heading` where it has one; and its
/// meanings.
pub open spec fn entry_text(
    entry: DictionaryEntry,
    marker: Seq<char>,
    origin_heading: Seq<char>,
) -> Seq<char> {
    marker + entry.word@ + match entry.phonetic {
        Some(phonetic) => seq!['\t'] + phonetic@,
        None => Seq::empty(),
    } + seq!['\n', '\n'] + match entry.origin {
        Some(origin) => origin_heading + seq!['\t'] + origin@ + seq!['\n'],
        None => Seq::empty(),
    } + meanings_text(entry.meanings@, entry.meanings@.len())
}

/// Writes out a definition.
fn write_definition(definition: &Definition, heading: &str) -> (text: String)
    ensures
        text@ == definition_text(*definition, heading@),
{
    let mut text = String::new();
    text.append(definition.definition.as_str());
    text.append("\n \n");
    match &definition.example {
        Some(example) => {
            text.append(heading);
            text.append(">     - ");
            text.append(example.as_str());
            push_char(&mut text, '\n');
            push_char(&mut text, '\n');
            assert(text@ =~= definition_text(*definition, heading@));
        },
        None => {
            assert(text@ =~= definition_text(*definition, heading@));
        },
    }
    text
}

/// Writes out a meaning.
fn write_meaning(meaning: &Meaning, marker: &str) -> (text: String)
    ensures
        text@ == meaning_text(*meaning, marker@),
{
    let mut text = String::new();
    text.append(marker);
    text.append(meaning.part_of_speech.as_str());
    push_char(&mut text, '\n');
    push_char(&mut text, '\n');
    let ghost head = text@;
    assert(head =~= marker@ + meaning.part_of_speech@ + seq!['\n', '\n']);
    let mut i: usize = 0;
    assert(text@ =~= head + numbered_definitions(meaning.definitions@, 0));
    while i < meaning.definitions.len()
        invariant
            i <= meaning.definitions.len(),
            text@ == head + numbered_definitions(meaning.definitions@, i as nat),
        decreases meaning.definitions.len() - i,
    {
        let content = write_definition(&meaning.definitions[i], "> ### Example: \n");
        push_decimal(&mut text, i + 1);
        text.append(". ");
        text.append(content.as_str());
        i += 1;
        assert(text@ =~= head + numbered_definitions(meaning.definitions@, i as nat));
    }
    text
}

/// Writes out an entry.
fn write_entry(entry: &DictionaryEntry, marker: &str, origin_heading: &str) -> (text: String)
    ensures
        text@ == entry_text(*entry, marker@, origin_heading@),
{
    let mut text = String::new();
    text.append(marker);
    text.append(entry.word.as_str());
    match &entry.phonetic {
        Some(phonetic) => {
            push_char(&mut text, '\t');
            text.append(phonetic.as_str());
        },
        None => {},
    }
    push_char(&mut text, '\n');
    push_char(&mut text, '\n');
    match &entry.origin {
        Some(origin) => {
            text.append(origin_heading);
            push_char(&mut text, '\t');
            text.append(origin.as_str());
            push_char(&mut text, '\n');
        },
        None => {},
    }
    let ghost head = text@;
    assert(head =~= marker@ + entry.word@ + match entry.phonetic {
        Some(phonetic) => seq!['\t'] + phonetic@,
        None => Seq::empty(),
    } + seq!['\n', '\n'] + match entry.origin {
        Some(origin) => origin_heading@ + seq!['\t'] + origin@ + seq!['\n'],
        None => Seq::empty(),
    });
    let mut i: usize = 0;
    assert(text@ =~= head + meanings_text(entry.meanings@, 0));
    while i < entry.meanings.len()
        invariant
            i <= entry.meanings.len(),
            text@ == head + meanings_text(entry.meanings@, i as nat),
        decreases entry.meanings.len() - i,
    {
        let content = write_meaning(&entry.meanings[i], "## ");
        text.append(content.as_str());
        i += 1;
        assert(text@ =~= head + meanings_text(entry.meanings@, i as nat));
    }
    text
}

impl MarkDown {
    /// A definition in Markdown.
    pub fn from_definition(definition: &Definition) -> (text: MarkDown)
        ensures
            text.0@ == definition_text(*definition, markdown_example_heading()),
    {
        MarkDown(write_definition(definition, "> ### Example: \n"))
    }

    /// A meaning in Markdown.
    pub fn from_meaning(meaning: &Meaning) -> (text: MarkDown)
        ensures
            text.0@ == meaning_text(*meaning, "## "@),
    {
        MarkDown(write_meaning(meaning, "## "))
    }

    /// An entry in Markdown.
    pub fn from_entry(entry: &DictionaryEntry) -> (text: MarkDown)
        ensures
            text.0@ == entry_text(*entry, "# "@, "## Origin\n"@),
    {
        MarkDown(write_entry(entry, "# ", "## Origin\n"))
    }
}

impl Neorg {
    /// A definition in the markup of this library.
    pub fn from_definition(definition: &Definition) -> (text: Neorg)
        ensures
            text.0@ == definition_text(*definition, neorg_example_heading()),
    {
        Neorg(write_definition(definition, "> *** Example: \n"))
    }

    /// A meaning in the markup of this library. Its definitions are written
    /// as in Markdown.
    pub fn from_meaning(meaning: &Meaning) -> (text: Neorg)
        ensures
            text.0@ == meaning_text(*meaning, "** "@),
    {
        Neorg(write_meaning(meaning, "** "))
    }

    /// An entry in the markup of this library. Its meanings are written as
    /// in Markdown.
    pub fn from_entry(entry: &DictionaryEntry) -> (text: Neorg)
        ensures
            text.0@ == entry_text(*entry, "* "@, "** Origin\n"@),
    {
        Neorg(write_entry(entry, "* ", "** Origin\n"))
    }
}

/// What is shown for a looked-up word: its first entry in Markdown, or
/// nothing where the lookup gave no entry.
pub fn meaning_of(entries: &Vec<DictionaryEntry>) -> (text: String)
    ensures
        text@ == if entries@.len() > 0 {
            entry_text(entries@[0], "# "@, "## Origin\n"@)
        } else {
            Seq::<char>::empty()
        },
{
    if entries.len() > 0 {
        MarkDown::from_entry(&entries[0]).0
    } else {
        String::new()
    }
}

/// The texts of `parts`, one after another.
pub open spec fn concatenated(parts: Seq<Seq<char>>, count: nat) -> Seq<char>
    decreases count,
{
    if count == 0 || count > parts.len() {
        Seq::empty()
    } else {
        concatenated(parts, (count - 1) as nat) + parts[count - 1]
    }
}

/// The text of a hover: what was found for each word at the place, one after
/// another.
pub fn compose_hover(found: &Vec<String>) -> (text: String)
    ensures
        text@ == concatenated(strings_view(found@), found@.len()),
{
    let mut text = String::new();
    let mut i: usize = 0;
    assert(text@ =~= concatenated(strings_view(found@), 0));
    while i < found.len()
        invariant
            i <= found.len(),
            text@ == concatenated(strings_view(found@), i as nat),
        decreases found.len() - i,
    {
        text.append(found[i].as_str());
        i += 1;
    }
    text
}

/// An offer to the editor: a change to the text under a title.
#[derive(Debug, Clone, PartialEq, Eq)]
pub struct CodeAction {
    pub title: String,
    pub edit: TextEdit,
}

/// The title of the offer to write `replacement` in the place of `word`.
pub open spec fn rewrite_title(word: Seq<char>, replacement: Seq<char>) -> Seq<char> {
    "Rewrite `"@ + word + "` as `"@ + replacement + "`."@
}

/// The offers to write another word in the place of `word`: one for each of
/// `alternatives`, in their order.
pub fn rewrite_actions(word: &Word, alternatives: &Vec<String>) -> (actions: Vec<CodeAction>)
    ensures
        actions@.len() == alternatives@.len(),
        forall|i: int|
            0 <= i < actions@.len() ==> (#[trigger] actions@[i]).title@ == rewrite_title(
                word.text@,
                alternatives@[i]@,
            ) && actions@[i].edit.range == word.range && actions@[i].edit.new_text@
                == alternatives@[i]@,
{
    let mut actions: Vec<CodeAction> = Vec::new();
    let mut i: usize = 0;
    while i < alternatives.len()
        invariant
            i <= alternatives.len(),
            actions@.len() == i,
            forall|j: int|
                0 <= j < i ==> (#[trigger] actions@[j]).title@ == rewrite_title(
                    word.text@,
                    alternatives@[j]@,
                ) && actions@[j].edit.range == word.range && actions@[j].edit.new_text@
                    == alternatives@[j]@,
        decreases alternatives.len() - i,
    {
        let mut title = String::from_str("Rewrite `");
        title.append(word.text.as_str());
        title.append("` as `");
        title.append(alternatives[i].as_str());
        title.append("`.");
        actions.push(
            CodeAction {
                title,
                edit: TextEdit { range: word.range, new_text: alternatives[i].clone() },
            },
        );
        i += 1;
    }
    actions
}

/// `gathered` with those of the first `count` of `more` behind it that were
/// not there before, each once and in their order.
pub open spec fn with_new(gathered: Seq<Seq<char>>, more: Seq<Seq<char>>, count: nat) -> Seq<
    Seq<char>,
>
    decreases count,
{
    if count == 0 || count > more.len() {
        gathered
    } else {
        let so_far = with_new(gathered, more, (count - 1) as nat);
        if so_far.contains(more[count - 1]) {
            so_far
        } else {
            so_far.push(more[count - 1])
        }
    }
}

/// `gathered` with the synonyms of the first `count` of `definitions`.
pub open spec fn with_definitions(
    gathered: Seq<Seq<char>>,
    definitions: Seq<Definition>,
    count: nat,
) -> Seq<Seq<char>>
    decreases count,
{
    if count == 0 || count > definitions.len() {
        gathered
    } else {
        with_new(
            with_definitions(gathered, definitions, (count - 1) as nat),
            strings_view(definitions[count - 1].synonyms@),
            definitions[count - 1].synonyms@.len(),
        )
    }
}

/// `gathered` with the synonyms of the first `count` of `meanings`: for each
/// meaning its own, then those of its definitions.
pub open spec fn with_meanings(gathered: Seq<Seq<char>>, meanings: Seq<Meaning>, count: nat) -> Seq<
    Seq<char>,
>
    decreases count,
{
    if count == 0 || count > meanings.len() {
        gathered
    } else {
        let meaning = meanings[count - 1];
        with_definitions(
            with_new(
                with_meanings(gathered, meanings, (count - 1) as nat),
                strings_view(meaning.synonyms@),
                meaning.synonyms@.len(),
            ),
            meaning.definitions@,
            meaning.definitions@.len(),
        )
    }
}

/// `gathered` with the synonyms of the first `count` of `entries`.
pub open spec fn with_entries(
    gathered: Seq<Seq<char>>,
    entries: Seq<DictionaryEntry>,
    count: nat,
) -> Seq<Seq<char>>
    decreases count,
{
    if count == 0 || count > entries.len() {
        gathered
    } else {
        with_meanings(
            with_entries(gathered, entries, (count - 1) as nat),
            entries[count - 1].meanings@,
            entries[count - 1].meanings@.len(),
        )
    }
}

/// Adds to `gathered` the texts of `more` that it does not hold yet, each
/// once and in their order.
pub fn gather_new(gathered: &mut Vec<String>, more: &Vec<String>)
    ensures
        strings_view(final(gathered)@) == with_new(
            strings_view(old(gathered)@),
            strings_view(more@),
            more@.len(),
        ),
{
    let ghost start = strings_view(gathered@);
    let ghost added = strings_view(more@);
    let mut i: usize = 0;
    while i < more.len()
        invariant
            i <= more.len(),
            added == strings_view(more@),
            strings_view(gathered@) == with_new(start, added, i as nat),
        decreases more.len() - i,
    {
        let ghost before = strings_view(gathered@);
        let mut known = false;
        let mut j: usize = 0;
        while j < gathered.len()
            invariant
                j <= gathered.len(),
                i < more.len(),
                before == strings_view(gathered@),
                known == before.subrange(0, j as int).contains(more@[i as int]@),
            decreases gathered.len() - j,
        {
            let ghost upto = before.subrange(0, j as int);
            let ghost next = before.subrange(0, j + 1);
            assert(next =~= upto.push(before[j as int]));
            if gathered[j] == more[i] {
                known = true;
                assert(next[j as int] == more@[i as int]@);
            } else {
                proof {
                    if known {
                        let k = choose|k: int| 0 <= k < upto.len() && upto[k] == more@[i as int]@;
                        assert(next[k] == more@[i as int]@);
                    } else {
                        assert forall|k: int| 0 <= k < next.len() implies next[k] != more@[i as int]@ by {
                            if k < j {
                                assert(upto[k] == next[k]);
                            }
                        }
                    }
                }
            }
            j += 1;
        }
        assert(before.subrange(0, j as int) =~= before);
        if !known {
            gathered.push(more[i].clone());
            assert(strings_view(gathered@) =~= before.push(added[i as int]));
        }
        i += 1;
    }
}

/// The synonyms that the lookup gave for a word: those of each meaning and
/// then of each of its definitions, in the order of the entries, each once.
pub fn synonyms_of(entries: &Vec<DictionaryEntry>) -> (synonyms: Vec<String>)
    ensures
        strings_view(synonyms@) == with_entries(Seq::empty(), entries@, entries@.len()),
{
    let mut synonyms: Vec<String> = Vec::new();
    let mut e: usize = 0;
    assert(strings_view(synonyms@) =~= Seq::<Seq<char>>::empty());
    while e < entries.len()
        invariant
            e <= entries.len(),
            strings_view(synonyms@) == with_entries(Seq::empty(), entries@, e as nat),
        decreases entries.len() - e,
    {
        let ghost done = strings_view(synonyms@);
        let entry = &entries[e];
        let mut m: usize = 0;
        while m < entry.meanings.len()
            invariant
                m <= entry.meanings.len(),
                strings_view(synonyms@) == with_meanings(done, entry.meanings@, m as nat),
            decreases entry.meanings.len() - m,
        {
            let meaning = &entry.meanings[m];
            gather_new(&mut synonyms, &meaning.synonyms);
            let ghost own = strings_view(synonyms@);
            let mut d: usize = 0;
            while d < meaning.definitions.len()
                invariant
                    d <= meaning.definitions.len(),
                    strings_view(synonyms@) == with_definitions(
                        own,
                        meaning.definitions@,
                        d as nat,
                    ),
                decreases meaning.definitions.len() - d,
            {
                gather_new(&mut synonyms, &meaning.definitions[d].synonyms);
                d += 1;
            }
            m += 1;
        }
        e += 1;
    }
    synonyms
}

} // verus!
