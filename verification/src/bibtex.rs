//! Reading BibTeX text with the outside parser, and what is made sure of a
//! text before the parser is called on it.
//!
//! The parser does not return on every text. It cuts an unclosed string at
//! the last character of the text, which fails where that character is an
//! opening brace, a quote or longer than one byte; it counts open braces in
//! a signed 32-bit integer; and it expands a string variable that is defined
//! through itself without end. Such texts are told apart here and refused.

use crate::citation::{FormatError, Tags};
use crate::sorting::reversed;
use crate::text::same_text;
use nom_bibtex::error::BibtexError;
use nom_bibtex::model::StringValueType;
use nom_bibtex::{Bibtex, Entry};
use vstd::prelude::*;
use vstd::string::*;

verus! {

/// The error type of the BibTeX parser.
#[verifier::external_type_specification]
#[verifier::external_body]
pub struct ExBibtexError(BibtexError);

/// One piece of the value of a string variable, before it is expanded.
#[derive(Debug)]
pub enum Chunk {
    /// Literal text.
    Text(String),
    /// The name of a string variable, which stands for that variable's
    /// value.
    Abbreviation(String),
}

/// The mathematical content of a [`Chunk`].
pub enum ChunkView {
    Text(Seq<char>),
    Abbreviation(Seq<char>),
}

impl View for Chunk {
    type V = ChunkView;

    open spec fn view(&self) -> ChunkView {
        match self {
            Chunk::Text(text) => ChunkView::Text(text@),
            Chunk::Abbreviation(name) => ChunkView::Abbreviation(name@),
        }
    }
}

impl DeepView for Chunk {
    type V = ChunkView;

    open spec fn deep_view(&self) -> ChunkView {
        self@
    }
}

/// The definition of a string variable: its name, and its value as the
/// pieces that the text gives.
#[derive(Debug)]
pub struct StringDef {
    pub key: String,
    pub value: Vec<Chunk>,
}

/// The mathematical content of a [`StringDef`].
pub struct StringDefView {
    pub key: Seq<char>,
    pub value: Seq<ChunkView>,
}

impl View for StringDef {
    type V = StringDefView;

    open spec fn view(&self) -> StringDefView {
        StringDefView { key: self.key@, value: self.value.deep_view() }
    }
}

impl DeepView for StringDef {
    type V = StringDefView;

    open spec fn deep_view(&self) -> StringDefView {
        self@
    }
}

/// One entry of a BibTeX text before anything is expanded, as far as the
/// check of the string variables looks at it.
#[derive(Debug)]
pub enum RawEntry {
    /// The definition of a string variable.
    Variable(StringDef),
    /// A comment, a preamble or a bibliographic entry.
    Other,
}

/// The mathematical content of a [`RawEntry`].
pub enum RawEntryView {
    Variable(StringDefView),
    Other,
}

impl View for RawEntry {
    type V = RawEntryView;

    open spec fn view(&self) -> RawEntryView {
        match self {
            RawEntry::Variable(def) => RawEntryView::Variable(def@),
            RawEntry::Other => RawEntryView::Other,
        }
    }
}

impl DeepView for RawEntry {
    type V = RawEntryView;

    open spec fn deep_view(&self) -> RawEntryView {
        self@
    }
}

/// No longer text is handed to the parser: the number of its characters
/// fits a signed 32-bit integer.
pub const MAX_LENGTH: usize = 0x7fff_ffff;

/// The text is not too long for the parser.
pub open spec fn within_length(source: Seq<char>) -> bool {
    source.len() <= MAX_LENGTH
}

/// The text does not end where a string may still be open in a way that the
/// parser cannot cut: it is empty, or its last character is an ASCII
/// character other than an opening brace and a quote.
pub open spec fn ends_closed(source: Seq<char>) -> bool {
    source.len() == 0 || ((source.last() as u32) < 128 && source.last() != '{' && source.last()
        != '"')
}

/// The place of the first definition of the variable `name`, or the number
/// of definitions where there is none.
pub open spec fn defined_at(strings: Seq<StringDefView>, name: Seq<char>) -> int
    decreases strings.len(),
{
    if strings.len() == 0 || strings[0].key == name {
        0
    } else {
        1 + defined_at(strings.drop_first(), name)
    }
}

/// How the expansion of a value ends.
#[derive(Clone, Copy, Debug, PartialEq, Eq, Structural)]
pub enum Outcome {
    /// Every piece was expanded.
    Settled,
    /// A piece names a variable that the text does not define; the
    /// expansion stops there with an error.
    Undefined,
    /// The expansion needs more nested expansions than were allowed.
    Unsettled,
}

/// How the expansion of a value ends where at most `fuel` expansions may be
/// nested in one another. The pieces are taken in order. A name stands for
/// the value of the first definition of that name, which is expanded in its
/// turn; the first piece that does not settle ends the expansion.
pub open spec fn expansion(strings: Seq<StringDefView>, value: Seq<ChunkView>, fuel: nat) -> Outcome
    decreases fuel, value.len(),
{
    if value.len() == 0 {
        Outcome::Settled
    } else {
        match value[0] {
            ChunkView::Text(_) => expansion(strings, value.drop_first(), fuel),
            ChunkView::Abbreviation(name) => {
                let place = defined_at(strings, name);
                if place >= strings.len() {
                    Outcome::Undefined
                } else if fuel == 0 {
                    Outcome::Unsettled
                } else {
                    match expansion(strings, strings[place].value, (fuel - 1) as nat) {
                        Outcome::Settled => expansion(strings, value.drop_first(), fuel),
                        other => other,
                    }
                }
            },
        }
    }
}

/// Whether the definitions from `from` on can be expanded one after the
/// other: each settles, until the end or until one stops at an undefined
/// name. A chain of nested expansions that is longer than the number of
/// definitions passes through one definition twice, and so never ends.
pub open spec fn settle_from(strings: Seq<StringDefView>, from: int) -> bool
    decreases strings.len() - from,
{
    if from < 0 || from >= strings.len() {
        true
    } else {
        match expansion(strings, strings[from].value, strings.len()) {
            Outcome::Settled => settle_from(strings, from + 1),
            Outcome::Undefined => true,
            Outcome::Unsettled => false,
        }
    }
}

/// No string variable is defined through itself, as far as the expansion
/// gets.
pub open spec fn strings_settle(strings: Seq<StringDefView>) -> bool {
    settle_from(strings, 0)
}

/// The definitions of string variables among the entries, in order.
pub open spec fn definitions(entries: Seq<RawEntryView>) -> Seq<StringDefView>
    decreases entries.len(),
{
    if entries.len() == 0 {
        Seq::empty()
    } else {
        match entries.last() {
            RawEntryView::Variable(def) => definitions(entries.drop_last()).push(def),
            RawEntryView::Other => definitions(entries.drop_last()),
        }
    }
}

/// The entries that the BibTeX parser finds in a text before it expands
/// anything, or `None` where the text does not parse.
pub uninterp spec fn raw_entries(source: Seq<char>) -> Option<Seq<RawEntryView>>;

/// The bibliographic entries that the BibTeX parser finds in a text, each as
/// its tags in order, or `None` where the text does not parse or names a
/// string variable that it does not define.
pub uninterp spec fn bibtex_entries(source: Seq<char>) -> Option<Seq<Seq<(Seq<char>, Seq<char>)>>>;

/// Calls `nom_bibtex::Bibtex::raw_parse`, which runs the parser and expands
/// nothing, and keeps of each entry whether it defines a string variable,
/// and the definition. The contract claims only that the outcome is a
/// function of the text. The text has to be one that the parser can cut.
#[verifier::external_body]
fn scan_bibtex(source: &str) -> (scanned: Result<Vec<RawEntry>, BibtexError>)
    requires
        within_length(source@),
        ends_closed(source@),
    ensures
        match scanned {
            Ok(entries) => raw_entries(source@) == Some(entries.deep_view()),
            Err(_) => raw_entries(source@) is None,
        },
{
    let chunk = |piece| match piece {
        StringValueType::Str(text) => Chunk::Text(text),
        StringValueType::Abbreviation(name) => Chunk::Abbreviation(name),
    };
    let entry = |entry| match entry {
        Entry::Variable(pair) => RawEntry::Variable(
            StringDef { key: pair.key, value: pair.value.into_iter().map(chunk).collect() },
        ),
        _ => RawEntry::Other,
    };
    Ok(Bibtex::raw_parse(source)?.into_iter().map(entry).collect())
}

/// Calls `nom_bibtex::Bibtex::parse` and hands out the tags of each entry of
/// `bibliographies()`. The contract claims only that success, and the tags
/// on success, are a function of the text. The text has to be one that the
/// parser can cut, and its string variables have to settle.
#[verifier::external_body]
fn parse_bibtex(source: &str) -> (parsed: Result<Vec<Tags>, BibtexError>)
    requires
        within_length(source@),
        ends_closed(source@),
        raw_entries(source@) is Some ==> strings_settle(definitions(raw_entries(source@).unwrap())),
    ensures
        match parsed {
            Ok(entries) => bibtex_entries(source@) == Some(entries.deep_view()),
            Err(_) => bibtex_entries(source@) is None,
        },
{
    let parsed = Bibtex::parse(source)?;
    Ok(parsed.bibliographies().iter().map(|entry| entry.tags().to_vec()).collect())
}

/// Decides whether a text ends as [`ends_closed`] asks.
pub fn text_ends_closed(source: &str) -> (closed: bool)
    ensures
        closed == ends_closed(source@),
{
    let n = source.unicode_len();
    if n == 0 {
        return true;
    }
    let last = source.get_char(n - 1);
    (last as u32) < 128 && last != '{' && last != '"'
}

/// Picks the definitions of string variables out of the entries, in order.
pub fn string_definitions(entries: Vec<RawEntry>) -> (strings: Vec<StringDef>)
    ensures
        strings.deep_view() == definitions(entries.deep_view()),
{
    let ghost all = entries@;
    let ghost views = entries.deep_view();
    let mut pending = reversed(entries);
    let mut strings: Vec<StringDef> = Vec::new();
    assert(views.subrange(0, 0) =~= Seq::<RawEntryView>::empty());
    assert(strings.deep_view() =~= Seq::<StringDefView>::empty());
    while pending.len() > 0
        invariant
            pending.len() <= all.len(),
            views.len() == all.len(),
            forall|j: int| 0 <= j < all.len() ==> views[j] == (#[trigger] all[j])@,
            pending@ == all.reverse().subrange(0, pending.len() as int),
            strings.deep_view() == definitions(views.subrange(0, all.len() - pending.len())),
        decreases pending.len(),
    {
        let ghost done = views.subrange(0, all.len() - pending.len());
        let ghost before = strings.deep_view();
        let entry = pending.pop().unwrap();
        let ghost next = views.subrange(0, all.len() - pending.len());
        proof {
            assert(next.drop_last() =~= done);
            assert(next.last() == entry@);
            assert(pending@ =~= all.reverse().subrange(0, pending.len() as int));
        }
        match entry {
            RawEntry::Variable(def) => {
                let ghost view = def@;
                strings.push(def);
                assert(strings.deep_view() =~= before.push(view));
            },
            RawEntry::Other => {},
        }
    }
    assert(views.subrange(0, all.len() as int) =~= views);
    strings
}

proof fn lemma_defined_at_is(strings: Seq<StringDefView>, name: Seq<char>, i: int)
    requires
        0 <= i <= strings.len(),
        i < strings.len() ==> strings[i].key == name,
        forall|j: int| 0 <= j < i ==> (#[trigger] strings[j]).key != name,
    ensures
        defined_at(strings, name) == i,
    decreases strings.len(),
{
    if i > 0 {
        let rest = strings.drop_first();
        assert(strings[0].key != name);
        assert forall|j: int| 0 <= j < i - 1 implies (#[trigger] rest[j]).key != name by {
            assert(rest[j] == strings[j + 1]);
        }
        if i < strings.len() {
            assert(rest[i - 1] == strings[i]);
        }
        lemma_defined_at_is(rest, name, i - 1);
    }
}

/// The place of the first definition of a name.
pub fn find_definition(strings: &Vec<StringDef>, name: &str) -> (place: usize)
    ensures
        place == defined_at(strings.deep_view(), name@),
{
    let mut i: usize = 0;
    while i < strings.len()
        invariant
            i <= strings.len(),
            forall|j: int| 0 <= j < i ==> (#[trigger] strings.deep_view()[j]).key != name@,
        decreases strings.len() - i,
    {
        if same_text(strings[i].key.as_str(), name) {
            proof {
                lemma_defined_at_is(strings.deep_view(), name@, i as int);
            }
            return i;
        }
        i += 1;
    }
    proof {
        lemma_defined_at_is(strings.deep_view(), name@, i as int);
    }
    i
}

/// Whether `below` holds, for each definition, how the expansion of its
/// value ends with the given fuel.
pub open spec fn is_level(strings: Seq<StringDefView>, below: Seq<Outcome>, fuel: nat) -> bool {
    &&& below.len() == strings.len()
    &&& forall|j: int|
        0 <= j < strings.len() ==> #[trigger] below[j] == expansion(strings, strings[j].value, fuel)
}

/// How the expansion of a value ends. With `nested` set, `below` tells how
/// the expansion of each definition ends with one unit of fuel less; without
/// it, there is no fuel.
fn expand(
    strings: &Vec<StringDef>,
    value: &Vec<Chunk>,
    below: &Vec<Outcome>,
    nested: bool,
    Ghost(fuel): Ghost<nat>,
) -> (outcome: Outcome)
    requires
        nested == (fuel > 0),
        nested ==> is_level(strings.deep_view(), below@, (fuel - 1) as nat),
    ensures
        outcome == expansion(strings.deep_view(), value.deep_view(), fuel),
{
    let ghost s = strings.deep_view();
    let ghost v = value.deep_view();
    let mut i: usize = 0;
    assert(v.subrange(0, v.len() as int) =~= v);
    while i < value.len()
        invariant
            i <= value.len(),
            s == strings.deep_view(),
            v == value.deep_view(),
            nested == (fuel > 0),
            nested ==> is_level(s, below@, (fuel - 1) as nat),
            expansion(s, v, fuel) == expansion(s, v.subrange(i as int, v.len() as int), fuel),
        decreases value.len() - i,
    {
        let ghost rest = v.subrange(i as int, v.len() as int);
        proof {
            assert(rest[0] == value[i as int]@);
            assert(rest.drop_first() =~= v.subrange(i + 1, v.len() as int));
        }
        match &value[i] {
            Chunk::Text(_) => {},
            Chunk::Abbreviation(name) => {
                let place = find_definition(strings, name.as_str());
                if place >= strings.len() {
                    return Outcome::Undefined;
                }
                if !nested {
                    return Outcome::Unsettled;
                }
                match below[place] {
                    Outcome::Settled => {},
                    Outcome::Undefined => {
                        return Outcome::Undefined;
                    },
                    Outcome::Unsettled => {
                        return Outcome::Unsettled;
                    },
                }
            },
        }
        i += 1;
    }
    Outcome::Settled
}

/// How the expansion of each definition ends with the given fuel.
fn level(strings: &Vec<StringDef>, below: &Vec<Outcome>, nested: bool, Ghost(fuel): Ghost<nat>) -> (table:
    Vec<Outcome>)
    requires
        nested == (fuel > 0),
        nested ==> is_level(strings.deep_view(), below@, (fuel - 1) as nat),
    ensures
        is_level(strings.deep_view(), table@, fuel),
{
    let mut table: Vec<Outcome> = Vec::new();
    let mut k: usize = 0;
    while k < strings.len()
        invariant
            k <= strings.len(),
            table.len() == k,
            nested == (fuel > 0),
            nested ==> is_level(strings.deep_view(), below@, (fuel - 1) as nat),
            forall|j: int|
                0 <= j < k ==> #[trigger] table[j] == expansion(
                    strings.deep_view(),
                    strings.deep_view()[j].value,
                    fuel,
                ),
        decreases strings.len() - k,
    {
        let outcome = expand(strings, &strings[k].value, below, nested, Ghost(fuel));
        table.push(outcome);
        k += 1;
    }
    table
}

/// Decides whether the string variables settle: whether every definition
/// can be expanded without running into a variable that is defined through
/// itself.
pub fn check_strings(strings: &Vec<StringDef>) -> (settle: bool)
    ensures
        settle == strings_settle(strings.deep_view()),
{
    let ghost s = strings.deep_view();
    let n = strings.len();
    let none: Vec<Outcome> = Vec::new();
    let mut table = level(strings, &none, false, Ghost(0));
    let mut fuel: usize = 0;
    while fuel < n
        invariant
            fuel <= n,
            n == strings.len(),
            s == strings.deep_view(),
            is_level(s, table@, fuel as nat),
        decreases n - fuel,
    {
        table = level(strings, &table, true, Ghost((fuel + 1) as nat));
        fuel += 1;
    }
    let mut k: usize = 0;
    while k < n
        invariant
            k <= n,
            n == strings.len(),
            s == strings.deep_view(),
            is_level(s, table@, n as nat),
            strings_settle(s) == settle_from(s, k as int),
        decreases n - k,
    {
        match table[k] {
            Outcome::Settled => {},
            Outcome::Undefined => {
                return true;
            },
            Outcome::Unsettled => {
                return false;
            },
        }
        k += 1;
    }
    true
}

/// What reading a BibTeX text gives.
pub enum Reading {
    /// The text is longer than the parser can count.
    TooLong,
    /// The text ends where a string may be open in a way that the parser
    /// cannot cut.
    OpenEnd,
    /// The text does not parse, or names a string variable that it does not
    /// define.
    Unparsed,
    /// A string variable of the text is defined through itself.
    CyclicString,
    /// The bibliographic entries of the text, each as its tags in order.
    Entries(Seq<Seq<(Seq<char>, Seq<char>)>>),
}

/// What reading a BibTeX text gives: the text is refused where the parser
/// would not return on it, and else it is what the parser makes of it.
pub open spec fn reading(source: Seq<char>) -> Reading {
    if !within_length(source) {
        Reading::TooLong
    } else if !ends_closed(source) {
        Reading::OpenEnd
    } else {
        match raw_entries(source) {
            None => Reading::Unparsed,
            Some(raw) => if !strings_settle(definitions(raw)) {
                Reading::CyclicString
            } else {
                match bibtex_entries(source) {
                    None => Reading::Unparsed,
                    Some(entries) => Reading::Entries(entries),
                }
            },
        }
    }
}

/// Reads a BibTeX text: makes sure that the parser returns on it, and hands
/// out the tags of each bibliographic entry that the parser finds.
pub fn read_bibtex(source: &str) -> (read: Result<Vec<Tags>, FormatError>)
    ensures
        match read {
            Ok(entries) => reading(source@) == Reading::Entries(entries.deep_view()),
            Err(FormatError::TooLong) => reading(source@) == Reading::TooLong,
            Err(FormatError::OpenEnd) => reading(source@) == Reading::OpenEnd,
            Err(FormatError::Bibtex(_)) => reading(source@) == Reading::Unparsed,
            Err(FormatError::CyclicString) => reading(source@) == Reading::CyclicString,
            Err(_) => false,
        },
{
    if source.unicode_len() > MAX_LENGTH {
        return Err(FormatError::TooLong);
    }
    if !text_ends_closed(source) {
        return Err(FormatError::OpenEnd);
    }
    let raw = match scan_bibtex(source) {
        Ok(raw) => raw,
        Err(e) => {
            return Err(FormatError::Bibtex(e));
        },
    };
    let strings = string_definitions(raw);
    if !check_strings(&strings) {
        return Err(FormatError::CyclicString);
    }
    match parse_bibtex(source) {
        Ok(entries) => Ok(entries),
        Err(e) => Err(FormatError::Bibtex(e)),
    }
}

} // verus!
