//! Citations: their sources, how a source is resolved, and the display text
//! and year that a resolved source gives.

use crate::bibtex::{read_bibtex, reading, Reading};
use crate::page::{html_tokens, page_title, title_of};
use crate::text::{decimal, decimal_string, parse_u32, parsed_u32, same_text};
use itertools::Itertools;
use nom_bibtex::error::BibtexError;
use vstd::prelude::*;
use vstd::string::*;

verus! {

/// The tags of one BibTeX entry: key and value, in the order of the entry.
pub type Tags = Vec<(String, String)>;

/// Why a citation could not be resolved or read.
#[derive(Debug)]
pub enum FormatError {
    /// The BibTeX text does not parse.
    Bibtex(BibtexError),
    /// The BibTeX text holds no bibliographic entry.
    NoCitation,
    /// The year tag of a BibTeX entry is not a number; it holds the tag's
    /// value.
    BadYear(String),
    /// A BibTeX entry has no title, so no display text can be made of it.
    NoTitle,
    /// The BibTeX text is longer than the parser can count.
    TooLong,
    /// The BibTeX text ends in an opening brace, a quote or a character
    /// outside ASCII, where the parser cannot cut a string that is still
    /// open.
    OpenEnd,
    /// A string variable of the BibTeX text is defined through itself.
    CyclicString,
}

/// The parts with `sep` between each two neighbours.
pub open spec fn joined_with(parts: Seq<Seq<char>>, sep: Seq<char>) -> Seq<char>
    decreases parts.len(),
{
    if parts.len() == 0 {
        Seq::empty()
    } else if parts.len() == 1 {
        parts[0]
    } else {
        joined_with(parts.drop_last(), sep) + sep + parts.last()
    }
}

/// Calls `itertools::Itertools::join` on the parts. The contract claims what
/// its documentation says: the parts in order, with `sep` between each two.
#[verifier::external_body]
fn join_texts(parts: &Vec<String>, sep: &str) -> (joined: String)
    ensures
        joined@ == joined_with(parts.deep_view(), sep@),
{
    parts.iter().join(sep)
}

/// A text followed by a full stop and a space, or nothing.
pub open spec fn sentence(text: Option<Seq<char>>) -> Seq<char> {
    match text {
        Some(t) => t + ". "@,
        None => Seq::empty(),
    }
}

/// Where a work appeared: the container in italics, then the publisher if
/// there is one. Nothing without a container.
pub open spec fn venue(container: Option<Seq<char>>, publisher: Option<Seq<char>>) -> Seq<char> {
    match container {
        Some(c) => "In <i>"@ + c + "</i>"@ + (match publisher {
            Some(p) => ", "@ + p,
            None => Seq::empty(),
        }) + ". "@,
        None => Seq::empty(),
    }
}

/// The address that resolves a DOI.
pub open spec fn doi_address(doi: Seq<char>) -> Seq<char> {
    "https://doi.org/"@ + doi
}

/// A hyperlink whose text is its address.
pub open spec fn link(address: Seq<char>) -> Seq<char> {
    "<a href=\""@ + address + "\">"@ + address + "</a>"@
}

/// The link of a work: its DOI if it has one, else its URL if it has one,
/// else nothing.
pub open spec fn locator(doi: Option<Seq<char>>, url: Option<Seq<char>>) -> Seq<char> {
    match doi {
        Some(d) => "DOI:"@ + link(doi_address(d)),
        None => match url {
            Some(u) => link(u),
            None => Seq::empty(),
        },
    }
}

/// The parts of a bibliographic record that its display text is made of.
pub struct Record {
    pub authors: Option<Seq<char>>,
    pub year: Option<Seq<char>>,
    pub title: Seq<char>,
    pub container: Option<Seq<char>>,
    pub publisher: Option<Seq<char>>,
    pub doi: Option<Seq<char>>,
    pub url: Option<Seq<char>>,
}

/// The display text of a bibliographic record: authors, year, the title in
/// bold, where it appeared, and its link.
pub open spec fn record_display(r: Record) -> Seq<char> {
    sentence(r.authors) + sentence(r.year) + "<b>"@ + r.title + ".</b> "@ + venue(
        r.container,
        r.publisher,
    ) + locator(r.doi, r.url)
}

/// The display text of a web page: the title in bold, then the address as a
/// link.
pub open spec fn page_display(title: Seq<char>, url: Seq<char>) -> Seq<char> {
    "<b>"@ + title + ".</b> "@ + link(url)
}

fn push_link(text: &mut String, address: &str)
    ensures
        final(text)@ == old(text)@ + link(address@),
{
    text.append("<a href=\"");
    text.append(address);
    text.append("\">");
    text.append(address);
    text.append("</a>");
    assert(text@ =~= old(text)@ + link(address@));
}

fn push_sentence(text: &mut String, part: Option<&String>)
    ensures
        final(text)@ == old(text)@ + sentence(part.deep_view()),
{
    match part {
        Some(t) => {
            text.append(t.as_str());
            text.append(". ");
            assert(text@ =~= old(text)@ + sentence(part.deep_view()));
        },
        None => {
            assert(text@ =~= old(text)@ + sentence(part.deep_view()));
        },
    }
}

/// Writes the display text of a bibliographic record.
pub fn render_record(
    authors: Option<&String>,
    year: Option<&String>,
    title: &str,
    container: Option<&String>,
    publisher: Option<&String>,
    doi: Option<&String>,
    url: Option<&String>,
) -> (text: String)
    ensures
        text@ == record_display(
            Record {
                authors: authors.deep_view(),
                year: year.deep_view(),
                title: title@,
                container: container.deep_view(),
                publisher: publisher.deep_view(),
                doi: doi.deep_view(),
                url: url.deep_view(),
            },
        ),
{
    let mut text = String::new();
    push_sentence(&mut text, authors);
    push_sentence(&mut text, year);
    text.append("<b>");
    text.append(title);
    text.append(".</b> ");
    let ghost head = text@;
    assert(head =~= sentence(authors.deep_view()) + sentence(year.deep_view()) + "<b>"@ + title@
        + ".</b> "@);
    match container {
        Some(c) => {
            text.append("In <i>");
            text.append(c.as_str());
            text.append("</i>");
            match publisher {
                Some(p) => {
                    text.append(", ");
                    text.append(p.as_str());
                },
                None => {},
            }
            text.append(". ");
        },
        None => {},
    }
    assert(text@ =~= head + venue(container.deep_view(), publisher.deep_view()));
    let ghost body = text@;
    match doi {
        Some(d) => {
            let mut address = String::from_str("https://doi.org/");
            address.append(d.as_str());
            text.append("DOI:");
            push_link(&mut text, address.as_str());
        },
        None => match url {
            Some(u) => {
                push_link(&mut text, u.as_str());
            },
            None => {},
        },
    }
    assert(text@ =~= body + locator(doi.deep_view(), url.deep_view()));
    text
}

/// The value of the last tag with the given key, if there is one.
pub open spec fn tag_value(tags: Seq<(Seq<char>, Seq<char>)>, key: Seq<char>) -> Option<Seq<char>>
    decreases tags.len(),
{
    if tags.len() == 0 {
        None
    } else if tags.last().0 == key {
        Some(tags.last().1)
    } else {
        tag_value(tags.drop_last(), key)
    }
}

/// Looks a tag up by its key. Where a key occurs more than once, its last
/// value counts.
pub fn find_tag<'a>(tags: &'a Tags, key: &str) -> (value: Option<&'a String>)
    ensures
        value.deep_view() == tag_value(tags.deep_view(), key@),
{
    let ghost all = tags.deep_view();
    let mut i: usize = tags.len();
    assert(all.subrange(0, all.len() as int) =~= all);
    while i > 0
        invariant
            i <= tags.len(),
            all == tags.deep_view(),
            tag_value(all, key@) == tag_value(all.subrange(0, i as int), key@),
        decreases i,
    {
        let ghost head = all.subrange(0, i as int);
        assert(head.drop_last() =~= all.subrange(0, i - 1));
        assert(head.last() == tags[i - 1].deep_view());
        if same_text(tags[i - 1].0.as_str(), key) {
            return Some(&tags[i - 1].1);
        }
        i -= 1;
    }
    None
}

/// A citation of a web page.
#[derive(Debug)]
pub struct UrlCitation {
    /// The address of the page.
    pub url: String,
    /// The title of the page, once it has been read.
    pub title: Option<String>,
}

impl UrlCitation {
    /// A citation of the page at `url`, not yet resolved.
    pub fn new(url: String) -> (citation: Self)
        ensures
            citation.url == url,
            citation.title is None,
    {
        UrlCitation { url, title: None }
    }

    /// Resolves the citation from the text of its page: the title becomes the
    /// text of the page's first title element, or stays unset where the page
    /// has none.
    pub fn read_page(&mut self, page: &str)
        ensures
            final(self).url == old(self).url,
            final(self).title.deep_view() == title_of(html_tokens(page@)),
    {
        self.title = page_title(page);
    }

    /// The display text, where the page had a title.
    pub fn to_raw(&self) -> (raw: Option<Citation>)
        ensures
            match raw {
                Some(Citation::Raw(text)) => self.title is Some && text@ == page_display(
                    self.title.unwrap()@,
                    self.url@,
                ),
                Some(_) => false,
                None => self.title is None,
            },
    {
        match &self.title {
            Some(title) => {
                let mut text = String::from_str("<b>");
                text.append(title.as_str());
                text.append(".</b> ");
                push_link(&mut text, self.url.as_str());
                assert(text@ =~= page_display(title@, self.url@));
                Some(Citation::Raw(text))
            },
            None => None,
        }
    }

    /// A web page carries no year.
    pub fn year(&self) -> (year: Option<u32>)
        ensures
            year is None,
    {
        None
    }
}

/// A citation given as BibTeX text.
#[derive(Debug)]
pub struct BibtexCitation {
    /// The BibTeX text.
    pub bibtex_string: String,
    /// The tags of its first entry, once it has been parsed.
    pub tags: Option<Tags>,
}

/// The result of choosing the entry to cite among those parsed.
pub fn first_entry(entries: Vec<Tags>) -> (chosen: Result<Tags, FormatError>)
    ensures
        match chosen {
            Ok(tags) => entries.len() > 0 && tags.deep_view() == entries.deep_view()[0],
            Err(FormatError::NoCitation) => entries.len() == 0,
            Err(_) => false,
        },
{
    let mut entries = entries;
    if entries.len() == 0 {
        Err(FormatError::NoCitation)
    } else {
        let ghost all = entries.deep_view();
        let first = entries.swap_remove(0);
        assert(first.deep_view() =~= all[0]);
        Ok(first)
    }
}

/// The display text that the tags of an entry give, or `None` where the
/// entry has no title.
pub open spec fn tags_display(tags: Seq<(Seq<char>, Seq<char>)>) -> Option<Seq<char>> {
    match tag_value(tags, "title"@) {
        Some(title) => Some(
            record_display(
                Record {
                    authors: tag_value(tags, "author"@),
                    year: tag_value(tags, "year"@),
                    title,
                    container: tag_value(tags, "journal"@),
                    publisher: tag_value(tags, "publisher"@),
                    doi: tag_value(tags, "DOI"@),
                    url: tag_value(tags, "url"@),
                },
            ),
        ),
        None => None,
    }
}

/// The year that the tags of an entry give: none without a year tag, the
/// number that the tag denotes, or an error where it denotes none.
pub open spec fn tags_year(tags: Seq<(Seq<char>, Seq<char>)>) -> Result<Option<u32>, Seq<char>> {
    match tag_value(tags, "year"@) {
        None => Ok(None),
        Some(text) => match parsed_u32(text) {
            Some(n) => Ok(Some(n)),
            None => Err(text),
        },
    }
}

/// Writes the display text of an entry from its tags. An entry without a
/// title is an error that the caller can recover from.
pub fn render_tags(tags: &Tags) -> (text: Result<String, FormatError>)
    ensures
        match text {
            Ok(t) => tags_display(tags.deep_view()) == Some(t@),
            Err(FormatError::NoTitle) => tags_display(tags.deep_view()) is None,
            Err(_) => false,
        },
{
    match find_tag(tags, "title") {
        Some(title) => Ok(
            render_record(
                find_tag(tags, "author"),
                find_tag(tags, "year"),
                title.as_str(),
                find_tag(tags, "journal"),
                find_tag(tags, "publisher"),
                find_tag(tags, "DOI"),
                find_tag(tags, "url"),
            ),
        ),
        None => Err(FormatError::NoTitle),
    }
}

/// Reads the year of an entry from its tags.
pub fn read_year(tags: &Tags) -> (year: Result<Option<u32>, FormatError>)
    ensures
        match year {
            Ok(y) => tags_year(tags.deep_view()) == Ok::<Option<u32>, Seq<char>>(y),
            Err(FormatError::BadYear(text)) => tags_year(tags.deep_view()) == Err::<
                Option<u32>,
                Seq<char>,
            >(text@),
            Err(_) => false,
        },
{
    match find_tag(tags, "year") {
        None => Ok(None),
        Some(text) => match parse_u32(text.as_str()) {
            Some(n) => Ok(Some(n)),
            None => Err(FormatError::BadYear(text.clone())),
        },
    }
}

impl BibtexCitation {
    /// A citation of the first entry of `bibtex_string`, not yet resolved.
    pub fn new(bibtex_string: String) -> (citation: Self)
        ensures
            citation.bibtex_string == bibtex_string,
            citation.tags is None,
    {
        BibtexCitation { bibtex_string, tags: None }
    }

    /// Resolves the citation: parses the BibTeX text and keeps the tags of
    /// its first entry. Further entries are passed over; the number of
    /// entries found is returned, so that the caller can tell. A text that
    /// is refused, that does not parse, or that holds no entry is an error
    /// and leaves the citation as it was.
    pub fn fetch(&mut self) -> (found: Result<usize, FormatError>)
        ensures
            final(self).bibtex_string == old(self).bibtex_string,
            found is Err ==> final(self).tags == old(self).tags,
            match found {
                Ok(count) => match reading(old(self).bibtex_string@) {
                    Reading::Entries(entries) => count == entries.len() && count > 0 && final(
                        self
                    ).tags is Some && final(self).tags.unwrap().deep_view() == entries[0],
                    _ => false,
                },
                Err(FormatError::TooLong) => reading(old(self).bibtex_string@) == Reading::TooLong,
                Err(FormatError::OpenEnd) => reading(old(self).bibtex_string@) == Reading::OpenEnd,
                Err(FormatError::Bibtex(_)) => reading(old(self).bibtex_string@)
                    == Reading::Unparsed,
                Err(FormatError::CyclicString) => reading(old(self).bibtex_string@)
                    == Reading::CyclicString,
                Err(FormatError::NoCitation) => reading(old(self).bibtex_string@)
                    == Reading::Entries(Seq::empty()),
                Err(_) => false,
            },
    {
        match read_bibtex(self.bibtex_string.as_str()) {
            Err(e) => Err(e),
            Ok(entries) => {
                let ghost all = entries.deep_view();
                let count = entries.len();
                match first_entry(entries) {
                    Ok(tags) => {
                        self.tags = Some(tags);
                        Ok(count)
                    },
                    Err(e) => {
                        assert(all =~= Seq::<Seq<(Seq<char>, Seq<char>)>>::empty());
                        Err(e)
                    },
                }
            },
        }
    }

    /// The display text, where the citation is resolved and its entry has a
    /// title.
    pub fn to_raw(&self) -> (raw: Option<Citation>)
        ensures
            match raw {
                Some(Citation::Raw(text)) => self.tags is Some && tags_display(
                    self.tags.unwrap().deep_view(),
                ) == Some(text@),
                Some(_) => false,
                None => self.tags is None || tags_display(self.tags.unwrap().deep_view()) is None,
            },
    {
        match &self.tags {
            Some(tags) => match render_tags(tags) {
                Ok(text) => Some(Citation::Raw(text)),
                Err(_) => None,
            },
            None => None,
        }
    }

    /// The year of the entry: none while the citation is unresolved or where
    /// the entry has no year tag, and an error where the tag is not a number.
    pub fn year(&self) -> (year: Result<Option<u32>, FormatError>)
        ensures
            match year {
                Ok(y) => (self.tags is None && y is None) || (self.tags is Some && tags_year(
                    self.tags.unwrap().deep_view(),
                ) == Ok::<Option<u32>, Seq<char>>(y)),
                Err(FormatError::BadYear(text)) => self.tags is Some && tags_year(
                    self.tags.unwrap().deep_view(),
                ) == Err::<Option<u32>, Seq<char>>(text@),
                Err(_) => false,
            },
    {
        match &self.tags {
            Some(tags) => read_year(tags),
            None => Ok(None),
        }
    }
}

/// One author of a work.
#[derive(Debug)]
pub struct CslAuthor {
    pub given: String,
    pub family: String,
}

/// The dates of a work: each date is a list of its parts, the year first.
#[derive(Debug)]
pub struct CslDates {
    pub date_parts: Vec<Vec<u64>>,
}

/// The metadata of a work as its DOI resolves to it.
#[derive(Debug)]
pub struct Csl {
    pub issued: Option<CslDates>,
    pub url: Option<String>,
    pub container_title: Option<String>,
    pub author: Vec<CslAuthor>,
    pub title: String,
    pub doi: Option<String>,
    pub publisher: Option<String>,
}

/// A citation given by its DOI.
#[derive(Debug)]
pub struct DoiCitation {
    /// The DOI.
    pub doi: String,
    /// The metadata of the work, once it has been fetched.
    pub csl: Option<Csl>,
}

/// The year in which a work was issued: the first part of its first date.
pub open spec fn issued_year(csl: Csl) -> Option<u64> {
    match csl.issued {
        Some(dates) => if dates.date_parts@.len() > 0 && dates.date_parts@[0]@.len() > 0 {
            Some(dates.date_parts@[0]@[0])
        } else {
            None
        },
        None => None,
    }
}

/// The name of an author: given name, a space, family name.
pub open spec fn full_name(author: CslAuthor) -> Seq<char> {
    author.given@ + " "@ + author.family@
}

/// The authors of a work in one line, their names separated by a comma and a
/// space, or `None` for a work without authors.
pub open spec fn author_line(authors: Seq<CslAuthor>) -> Option<Seq<char>> {
    if authors.len() == 0 {
        None
    } else {
        Some(joined_with(authors.map_values(|a: CslAuthor| full_name(a)), ", "@))
    }
}

/// The display text of a work from its metadata.
pub open spec fn csl_display(csl: Csl) -> Seq<char> {
    record_display(
        Record {
            authors: author_line(csl.author@),
            year: match issued_year(csl) {
                Some(y) => Some(decimal(y as nat)),
                None => None,
            },
            title: csl.title@,
            container: csl.container_title.deep_view(),
            publisher: csl.publisher.deep_view(),
            doi: csl.doi.deep_view(),
            url: csl.url.deep_view(),
        },
    )
}

impl Csl {
    /// The year in which the work was issued, if the metadata gives one.
    pub fn year_issued(&self) -> (year: Option<u64>)
        ensures
            year == issued_year(*self),
    {
        match &self.issued {
            Some(dates) => {
                if dates.date_parts.len() > 0 && dates.date_parts[0].len() > 0 {
                    Some(dates.date_parts[0][0])
                } else {
                    None
                }
            },
            None => None,
        }
    }

    /// The authors in one line, if there are any.
    pub fn authors(&self) -> (line: Option<String>)
        ensures
            line.deep_view() == author_line(self.author@),
    {
        if self.author.len() == 0 {
            return None;
        }
        let mut names: Vec<String> = Vec::new();
        let mut i: usize = 0;
        while i < self.author.len()
            invariant
                i <= self.author.len(),
                names.len() == i,
                forall|j: int| 0 <= j < i ==> (#[trigger] names[j])@ == full_name(self.author[j]),
            decreases self.author.len() - i,
        {
            let mut name = self.author[i].given.clone();
            name.append(" ");
            name.append(self.author[i].family.as_str());
            names.push(name);
            i += 1;
        }
        assert(names.deep_view() =~= self.author@.map_values(|a: CslAuthor| full_name(a)));
        Some(join_texts(&names, ", "))
    }
}

impl DoiCitation {
    /// A citation of the work with the given DOI, not yet resolved.
    pub fn new(doi: String) -> (citation: Self)
        ensures
            citation.doi == doi,
            citation.csl is None,
    {
        DoiCitation { doi, csl: None }
    }

    /// The address at which the metadata of the work is asked for.
    pub fn address(&self) -> (address: String)
        ensures
            address@ == doi_address(self.doi@),
    {
        let mut address = String::from_str("https://doi.org/");
        address.append(self.doi.as_str());
        address
    }

    /// Resolves the citation with the metadata that was fetched for it.
    pub fn resolve(&mut self, csl: Csl)
        ensures
            final(self).doi == old(self).doi,
            final(self).csl == Some(csl),
    {
        self.csl = Some(csl);
    }

    /// The display text, where the citation is resolved.
    pub fn to_raw(&self) -> (raw: Option<Citation>)
        ensures
            match raw {
                Some(Citation::Raw(text)) => self.csl is Some && text@ == csl_display(
                    self.csl.unwrap(),
                ),
                Some(_) => false,
                None => self.csl is None,
            },
    {
        match &self.csl {
            Some(csl) => {
                let authors = csl.authors();
                let year = match csl.year_issued() {
                    Some(y) => Some(decimal_string(y)),
                    None => None,
                };
                let text = render_record(
                    authors.as_ref(),
                    year.as_ref(),
                    csl.title.as_str(),
                    csl.container_title.as_ref(),
                    csl.publisher.as_ref(),
                    csl.doi.as_ref(),
                    csl.url.as_ref(),
                );
                Some(Citation::Raw(text))
            },
            None => None,
        }
    }

    /// The year in which the work was issued, cut to 32 bits.
    pub fn year(&self) -> (year: Option<u32>)
        ensures
            match year {
                Some(y) => self.csl is Some && issued_year(self.csl.unwrap()) is Some && y
                    == issued_year(self.csl.unwrap()).unwrap() % 0x1_0000_0000,
                None => self.csl is None || issued_year(self.csl.unwrap()) is None,
            },
    {
        match &self.csl {
            Some(csl) => match csl.year_issued() {
                Some(y) => {
                    let cut: u32 = (y % 0x1_0000_0000) as u32;
                    Some(cut)
                },
                None => None,
            },
            None => None,
        }
    }
}

/// A citation: display text as it is, or a source that display text is made
/// from once it is resolved.
#[derive(Debug)]
pub enum Citation {
    /// Display text.
    Raw(String),
    /// Display text with the year of the work.
    RawWithYear { text: String, year: Option<u32> },
    /// A web page.
    Url(UrlCitation),
    /// A work given by its DOI.
    Doi(DoiCitation),
    /// A work given as BibTeX.
    Bibtex(BibtexCitation),
}

impl Citation {
    /// The display text that the citation gives: its own text, or the text
    /// made from its resolved source. An unresolved source, a page without a
    /// title and an entry without a title give none.
    pub open spec fn display(self) -> Option<Seq<char>> {
        match self {
            Citation::Raw(text) => Some(text@),
            Citation::RawWithYear { text, year } => Some(text@),
            Citation::Url(url) => match url.title {
                Some(title) => Some(page_display(title@, url.url@)),
                None => None,
            },
            Citation::Doi(doi) => match doi.csl {
                Some(csl) => Some(csl_display(csl)),
                None => None,
            },
            Citation::Bibtex(bib) => match bib.tags {
                Some(tags) => tags_display(tags.deep_view()),
                None => None,
            },
        }
    }

    /// The year that the citation carries, or the text of a year tag that is
    /// not a number.
    pub open spec fn year_of(self) -> Result<Option<u32>, Seq<char>> {
        match self {
            Citation::Raw(text) => Ok(None),
            Citation::RawWithYear { text, year } => Ok(year),
            Citation::Url(url) => Ok(None),
            Citation::Doi(doi) => match doi.csl {
                Some(csl) => match issued_year(csl) {
                    Some(y) => Ok(Some((y % 0x1_0000_0000) as u32)),
                    None => Ok(None),
                },
                None => Ok(None),
            },
            Citation::Bibtex(bib) => match bib.tags {
                Some(tags) => tags_year(tags.deep_view()),
                None => Ok(None),
            },
        }
    }

    /// The citation as plain display text, where it gives any.
    pub fn to_raw(&self) -> (raw: Option<Citation>)
        ensures
            match raw {
                Some(Citation::Raw(text)) => self.display() == Some(text@),
                Some(_) => false,
                None => self.display() is None,
            },
    {
        match self {
            Citation::Raw(text) => Some(Citation::Raw(text.clone())),
            Citation::RawWithYear { text, year: _ } => Some(Citation::Raw(text.clone())),
            Citation::Url(url) => url.to_raw(),
            Citation::Doi(doi) => doi.to_raw(),
            Citation::Bibtex(bib) => bib.to_raw(),
        }
    }

    /// Plain display text gets the year; any other citation stays as it is.
    pub fn set_year(self, year: Option<u32>) -> (dated: Citation)
        ensures
            match self {
                Citation::Raw(text) => dated == (Citation::RawWithYear { text, year }),
                _ => dated == self,
            },
    {
        match self {
            Citation::Raw(text) => Citation::RawWithYear { text, year },
            other => other,
        }
    }

    /// The citation as display text with its year, where it gives any text.
    /// A year tag that is not a number is an error, but only where the
    /// citation gives text.
    pub fn to_raw_with_year(&self) -> (raw: Result<Option<Citation>, FormatError>)
        ensures
            match raw {
                Ok(Some(Citation::RawWithYear { text, year })) => self.display() == Some(text@)
                    && self.year_of() == Ok::<Option<u32>, Seq<char>>(year),
                Ok(Some(_)) => false,
                Ok(None) => self.display() is None,
                Err(FormatError::BadYear(text)) => self.display() is Some && self.year_of()
                    == Err::<Option<u32>, Seq<char>>(text@),
                Err(_) => false,
            },
    {
        match self {
            Citation::Raw(text) => Ok(
                Some(Citation::RawWithYear { text: text.clone(), year: None }),
            ),
            Citation::RawWithYear { text, year } => Ok(
                Some(Citation::RawWithYear { text: text.clone(), year: *year }),
            ),
            Citation::Url(url) => match url.to_raw() {
                Some(raw) => Ok(Some(raw.set_year(url.year()))),
                None => Ok(None),
            },
            Citation::Doi(doi) => match doi.to_raw() {
                Some(raw) => Ok(Some(raw.set_year(doi.year()))),
                None => Ok(None),
            },
            Citation::Bibtex(bib) => match bib.to_raw() {
                Some(raw) => match bib.year() {
                    Ok(year) => Ok(Some(raw.set_year(year))),
                    Err(e) => Err(e),
                },
                None => Ok(None),
            },
        }
    }
}

/// A named reference: its key and its citation.
pub type Reference = (String, Citation);

/// The references that give display text, each as its key and that text, in
/// order.
pub open spec fn displayed_references(references: Seq<Reference>) -> Seq<(Seq<char>, Seq<char>)>
    decreases references.len(),
{
    if references.len() == 0 {
        Seq::empty()
    } else {
        let rest = displayed_references(references.drop_last());
        match references.last().1.display() {
            Some(text) => rest.push((references.last().0@, text)),
            None => rest,
        }
    }
}

/// The key and text of each reference that is plain display text.
pub open spec fn raw_references(references: Seq<Reference>) -> Seq<(Seq<char>, Seq<char>)>
    decreases references.len(),
{
    if references.len() == 0 {
        Seq::empty()
    } else {
        let rest = raw_references(references.drop_last());
        match references.last().1 {
            Citation::Raw(text) => rest.push((references.last().0@, text@)),
            _ => rest,
        }
    }
}

/// Turns each reference into plain display text and drops those that give
/// none. The order is kept.
pub fn resolve_references(references: &Vec<Reference>) -> (resolved: Vec<Reference>)
    ensures
        forall|i: int| 0 <= i < resolved.len() ==> (#[trigger] resolved[i]).1 is Raw,
        raw_references(resolved@) == displayed_references(references@),
        resolved.len() <= references.len(),
{
    let mut resolved: Vec<Reference> = Vec::new();
    let mut i: usize = 0;
    assert(references@.subrange(0, 0) =~= Seq::<Reference>::empty());
    while i < references.len()
        invariant
            i <= references.len(),
            resolved.len() <= i,
            forall|j: int| 0 <= j < resolved.len() ==> (#[trigger] resolved[j]).1 is Raw,
            raw_references(resolved@) == displayed_references(references@.subrange(0, i as int)),
        decreases references.len() - i,
    {
        let ghost done = references@.subrange(0, i as int);
        let ghost next = references@.subrange(0, i + 1);
        let ghost before = resolved@;
        proof {
            assert(next.drop_last() =~= done);
            assert(next.last() == references[i as int]);
        }
        match references[i].1.to_raw() {
            Some(raw) => {
                resolved.push((references[i].0.clone(), raw));
                assert(resolved@.drop_last() =~= before);
            },
            None => {},
        }
        i += 1;
    }
    assert(references@.subrange(0, references.len() as int) =~= references@);
    resolved
}

/// The publications that give display text, each as that text and its year,
/// in order; or the text of the first year tag that is not a number, among
/// the publications that give text.
pub open spec fn displayed_publications(publications: Seq<Citation>) -> Result<
    Seq<(Seq<char>, Option<u32>)>,
    Seq<char>,
>
    decreases publications.len(),
{
    if publications.len() == 0 {
        Ok(Seq::empty())
    } else {
        match displayed_publications(publications.drop_last()) {
            Err(text) => Err(text),
            Ok(rest) => match publications.last().display() {
                None => Ok(rest),
                Some(text) => match publications.last().year_of() {
                    Ok(year) => Ok(rest.push((text, year))),
                    Err(bad) => Err(bad),
                },
            },
        }
    }
}

/// The text and year of each publication that is display text with a year.
pub open spec fn dated_publications(publications: Seq<Citation>) -> Seq<(Seq<char>, Option<u32>)>
    decreases publications.len(),
{
    if publications.len() == 0 {
        Seq::empty()
    } else {
        let rest = dated_publications(publications.drop_last());
        match publications.last() {
            Citation::RawWithYear { text, year } => rest.push((text@, year)),
            _ => rest,
        }
    }
}

/// Turns each publication into display text with its year and drops those
/// that give no text. The order is kept. A year tag that is not a number, in
/// a publication that gives text, is an error.
pub fn resolve_publications(publications: &Vec<Citation>) -> (resolved: Result<
    Vec<Citation>,
    FormatError,
>)
    ensures
        match resolved {
            Ok(list) => displayed_publications(publications@) == Ok::<
                Seq<(Seq<char>, Option<u32>)>,
                Seq<char>,
            >(dated_publications(list@)) && list.len() <= publications.len() && forall|i: int|
                0 <= i < list.len() ==> (#[trigger] list[i]) is RawWithYear,
            Err(FormatError::BadYear(text)) => displayed_publications(publications@) == Err::<
                Seq<(Seq<char>, Option<u32>)>,
                Seq<char>,
            >(text@),
            Err(_) => false,
        },
{
    let mut list: Vec<Citation> = Vec::new();
    let mut i: usize = 0;
    assert(publications@.subrange(0, 0) =~= Seq::<Citation>::empty());
    while i < publications.len()
        invariant
            i <= publications.len(),
            list.len() <= i,
            forall|j: int| 0 <= j < list.len() ==> (#[trigger] list[j]) is RawWithYear,
            displayed_publications(publications@.subrange(0, i as int)) == Ok::<
                Seq<(Seq<char>, Option<u32>)>,
                Seq<char>,
            >(dated_publications(list@)),
        decreases publications.len() - i,
    {
        let ghost next = publications@.subrange(0, i + 1);
        let ghost before = list@;
        proof {
            assert(next.drop_last() =~= publications@.subrange(0, i as int));
            assert(next.last() == publications[i as int]);
        }
        match publications[i].to_raw_with_year() {
            Ok(Some(raw)) => {
                list.push(raw);
                assert(list@.drop_last() =~= before);
            },
            Ok(None) => {},
            Err(e) => {
                proof {
                    lemma_publications_error_stays(publications@, i + 1);
                }
                return Err(e);
            },
        }
        i += 1;
    }
    assert(publications@.subrange(0, publications.len() as int) =~= publications@);
    Ok(list)
}

/// An error among the first `n` publications is the error of the whole list.
proof fn lemma_publications_error_stays(publications: Seq<Citation>, n: int)
    requires
        0 <= n <= publications.len(),
        displayed_publications(publications.subrange(0, n)) is Err,
    ensures
        displayed_publications(publications) == displayed_publications(publications.subrange(0, n)),
    decreases publications.len() - n,
{
    if n < publications.len() {
        assert(publications.drop_last().subrange(0, n) =~= publications.subrange(0, n));
        lemma_publications_error_stays(publications.drop_last(), n);
    } else {
        assert(publications.subrange(0, n) =~= publications);
    }
}

} // verus!
