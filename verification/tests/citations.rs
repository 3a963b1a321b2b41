use briefly::citation::{
    find_tag, first_entry, read_year, render_record, render_tags, resolve_publications,
    resolve_references, BibtexCitation, Citation, FormatError, Csl, CslAuthor, CslDates,
    DoiCitation, Tags, UrlCitation,
};
use briefly::bibtex::{
    check_strings, find_definition, read_bibtex, string_definitions, text_ends_closed, Chunk,
    RawEntry, StringDef,
};
use briefly::page::{first_title, page_title, title_from_tokens, HtmlToken};

fn tags(pairs: &[(&str, &str)]) -> Tags {
    pairs.iter().map(|(k, v)| (k.to_string(), v.to_string())).collect()
}

fn raw_text(citation: &Citation) -> &str {
    match citation {
        Citation::Raw(text) => text,
        other => panic!("not plain display text: {:?}", other),
    }
}

fn csl(title: &str) -> Csl {
    Csl {
        issued: None,
        url: None,
        container_title: None,
        author: Vec::new(),
        title: title.to_string(),
        doi: None,
        publisher: None,
    }
}

fn resolved_url(url: &str, title: Option<&str>) -> UrlCitation {
    UrlCitation { url: url.to_string(), title: title.map(|t| t.to_string()) }
}

#[test]
fn bibtex_tags_example() {
    let citation = BibtexCitation {
        bibtex_string: String::new(),
        tags: Some(tags(&[
            ("author", "Doe, J."),
            ("year", "2020"),
            ("title", "Foo"),
            ("journal", "Bar"),
            ("DOI", "10.1/1"),
        ])),
    };
    let raw = citation.to_raw().unwrap();
    assert_eq!(
        raw_text(&raw),
        "Doe, J.. 2020. <b>Foo.</b> In <i>Bar</i>. DOI:<a href=\"https://doi.org/10.1/1\">https://doi.org/10.1/1</a>"
    );
    assert_eq!(citation.year().unwrap(), Some(2020));
}

#[test]
fn bibtex_is_parsed_and_first_entry_kept() {
    let source = "@article{doe2020,\n  author = {Doe, J.},\n  year = {2020},\n  title = {Foo},\n  journal = {Bar},\n  DOI = {10.1/1}\n}\n@book{other,\n  title = {Second}\n}\n";
    let mut citation = BibtexCitation::new(source.to_string());
    assert!(citation.tags.is_none());
    assert!(citation.to_raw().is_none());
    assert_eq!(citation.year().unwrap(), None);
    assert_eq!(citation.fetch().unwrap(), 2);
    let parsed = citation.tags.as_ref().unwrap();
    assert_eq!(
        parsed,
        &tags(&[
            ("author", "Doe, J."),
            ("year", "2020"),
            ("title", "Foo"),
            ("journal", "Bar"),
            ("DOI", "10.1/1"),
        ])
    );
    assert_eq!(
        raw_text(&citation.to_raw().unwrap()),
        "Doe, J.. 2020. <b>Foo.</b> In <i>Bar</i>. DOI:<a href=\"https://doi.org/10.1/1\">https://doi.org/10.1/1</a>"
    );
    assert_eq!(citation.year().unwrap(), Some(2020));
    assert_eq!(citation.bibtex_string, source);
}

#[test]
fn bibtex_without_entries_is_an_error() {
    let mut citation = BibtexCitation::new("@comment{nothing to cite}".to_string());
    assert!(matches!(citation.fetch(), Err(FormatError::NoCitation)));
    assert!(citation.tags.is_none());
    let mut empty = BibtexCitation::new(String::new());
    assert!(matches!(empty.fetch(), Err(FormatError::NoCitation)));
}

#[test]
fn malformed_bibtex_is_an_error() {
    let mut citation = BibtexCitation::new("@article{key, title = {unclosed".to_string());
    assert!(matches!(citation.fetch(), Err(FormatError::Bibtex(_))));
    assert!(citation.tags.is_none());
}

#[test]
fn first_entry_of_none_and_of_some() {
    assert!(matches!(first_entry(Vec::new()), Err(FormatError::NoCitation)));
    let chosen = first_entry(vec![tags(&[("title", "A")]), tags(&[("title", "B")])]).unwrap();
    assert_eq!(chosen, tags(&[("title", "A")]));
}

#[test]
fn bibtex_without_title_gives_no_text() {
    let citation = BibtexCitation {
        bibtex_string: String::new(),
        tags: Some(tags(&[("author", "Doe, J."), ("year", "2020")])),
    };
    assert!(citation.to_raw().is_none());
    assert!(matches!(
        render_tags(&tags(&[("author", "Doe, J.")])),
        Err(FormatError::NoTitle)
    ));
}

#[test]
fn bibtex_with_title_only() {
    assert_eq!(render_tags(&tags(&[("title", "Foo")])).unwrap(), "<b>Foo.</b> ");
}

#[test]
fn bibtex_with_publisher_and_url() {
    let text = render_tags(&tags(&[
        ("title", "Foo"),
        ("journal", "Bar"),
        ("publisher", "Baz"),
        ("url", "https://example.org/foo"),
    ]))
    .unwrap();
    assert_eq!(
        text,
        "<b>Foo.</b> In <i>Bar</i>, Baz. <a href=\"https://example.org/foo\">https://example.org/foo</a>"
    );
}

#[test]
fn publisher_without_journal_is_not_shown() {
    let text = render_tags(&tags(&[("title", "Foo"), ("publisher", "Baz")])).unwrap();
    assert_eq!(text, "<b>Foo.</b> ");
}

#[test]
fn doi_is_preferred_to_url() {
    let text = render_tags(&tags(&[
        ("title", "Foo"),
        ("url", "https://example.org/foo"),
        ("DOI", "10.1/1"),
    ]))
    .unwrap();
    assert_eq!(
        text,
        "<b>Foo.</b> DOI:<a href=\"https://doi.org/10.1/1\">https://doi.org/10.1/1</a>"
    );
}

#[test]
fn tag_keys_are_case_sensitive_and_last_value_counts() {
    let list = tags(&[("title", "First"), ("Title", "Other"), ("title", "Last"), ("doi", "x")]);
    assert_eq!(find_tag(&list, "title").map(|s| s.as_str()), Some("Last"));
    assert_eq!(find_tag(&list, "Title").map(|s| s.as_str()), Some("Other"));
    assert_eq!(find_tag(&list, "DOI"), None);
    assert_eq!(find_tag(&Vec::new(), "title"), None);
}

#[test]
fn year_tag_that_is_no_number_is_an_error() {
    let list = tags(&[("title", "Foo"), ("year", "in press")]);
    match read_year(&list) {
        Err(FormatError::BadYear(text)) => assert_eq!(text, "in press"),
        other => panic!("unexpected {:?}", other),
    }
    let citation = BibtexCitation { bibtex_string: String::new(), tags: Some(list) };
    assert!(matches!(citation.year(), Err(FormatError::BadYear(_))));
    assert_eq!(read_year(&tags(&[("title", "Foo")])).unwrap(), None);
    assert_eq!(read_year(&tags(&[("year", "+1999")])).unwrap(), Some(1999));
    assert!(read_year(&tags(&[("year", "4294967296")])).is_err());
    assert!(read_year(&tags(&[("year", "")])).is_err());
    assert!(read_year(&tags(&[("year", " 2020")])).is_err());
}

#[test]
fn record_with_every_part() {
    let authors = "A B, C D".to_string();
    let year = "1999".to_string();
    let container = "Journal".to_string();
    let publisher = "Press".to_string();
    let doi = "10.5/5".to_string();
    let url = "https://example.org".to_string();
    let text = render_record(
        Some(&authors),
        Some(&year),
        "Title",
        Some(&container),
        Some(&publisher),
        Some(&doi),
        Some(&url),
    );
    assert_eq!(
        text,
        "A B, C D. 1999. <b>Title.</b> In <i>Journal</i>, Press. DOI:<a href=\"https://doi.org/10.5/5\">https://doi.org/10.5/5</a>"
    );
    assert_eq!(render_record(None, None, "T", None, None, None, None), "<b>T.</b> ");
}

#[test]
fn url_citation_with_title() {
    let mut citation = UrlCitation::new("https://example.org/page".to_string());
    assert!(citation.to_raw().is_none());
    citation.read_page(
        "<!DOCTYPE html><html><head><title>An Example</title></head><body><title>Later</title></body></html>",
    );
    assert_eq!(citation.title.as_deref(), Some("An Example"));
    assert_eq!(citation.url, "https://example.org/page");
    assert_eq!(
        raw_text(&citation.to_raw().unwrap()),
        "<b>An Example.</b> <a href=\"https://example.org/page\">https://example.org/page</a>"
    );
    assert_eq!(citation.year(), None);
}

#[test]
fn url_citation_without_title_is_dropped() {
    let mut citation = UrlCitation::new("https://example.org/page".to_string());
    citation.read_page("<html><body><p>no heading here</p></body></html>");
    assert!(citation.title.is_none());
    assert!(citation.to_raw().is_none());

    let references = vec![
        ("kept".to_string(), Citation::Raw("text".to_string())),
        ("page".to_string(), Citation::Url(citation)),
    ];
    let resolved = resolve_references(&references);
    assert_eq!(resolved.len(), 1);
    assert_eq!(resolved[0].0, "kept");
    let table = {
        let mut table = briefly::footnote::FootnoteUsageTable::new();
        table.record("page");
        table.record("kept");
        table
    };
    let list = briefly::footnote::list_references(&resolved, Some(&table));
    assert_eq!(list, vec![("kept".to_string(), "text".to_string())]);
}

#[test]
fn page_titles() {
    assert_eq!(page_title("<title>One</title>").as_deref(), Some("One"));
    assert_eq!(page_title("<TITLE>Upper</TITLE>").as_deref(), Some("Upper"));
    assert_eq!(page_title("<title></title>").as_deref(), Some(""));
    assert_eq!(page_title("plain text"), None);
    assert_eq!(page_title(""), None);
    assert_eq!(page_title("<title>never closed"), None);
    assert_eq!(page_title("<p>before</p><title>A &amp; B</title>").as_deref(), Some("A & B"));
    assert_eq!(page_title("<title>First</title><title>Second</title>").as_deref(), Some("First"));
}

#[test]
fn title_scan_over_tokens() {
    let start = || HtmlToken::StartTag(b"title".to_vec());
    let end = || HtmlToken::EndTag(b"title".to_vec());
    let text = |t: &str| HtmlToken::Text(t.as_bytes().to_vec());
    assert_eq!(first_title(&Vec::new()), None);
    assert_eq!(first_title(&vec![text("x"), end()]), Some(Vec::new()));
    assert_eq!(
        first_title(&vec![
            text("skipped"),
            HtmlToken::StartTag(b"head".to_vec()),
            start(),
            text("ab"),
            HtmlToken::Other,
            text("cd"),
            HtmlToken::EndTag(b"b".to_vec()),
            start(),
            text("ef"),
            end(),
            text("gh"),
            end(),
        ]),
        Some(b"abcdef".to_vec())
    );
    assert_eq!(first_title(&vec![start(), text("open")]), None);
    assert_eq!(
        title_from_tokens(&vec![start(), text("ok"), end()]).as_deref(),
        Some("ok")
    );
    assert_eq!(
        title_from_tokens(&vec![start(), HtmlToken::Text(vec![b'a', 0xff, b'b']), end()])
            .as_deref(),
        Some("a\u{fffd}b")
    );
    assert_eq!(
        title_from_tokens(&vec![start(), HtmlToken::Text("é".as_bytes().to_vec()), end()])
            .as_deref(),
        Some("é")
    );
}

#[test]
fn doi_citation_with_every_part() {
    let mut citation = DoiCitation::new("10.1000/182".to_string());
    assert_eq!(citation.address(), "https://doi.org/10.1000/182");
    assert!(citation.to_raw().is_none());
    assert_eq!(citation.year(), None);
    citation.resolve(Csl {
        issued: Some(CslDates { date_parts: vec![vec![2019, 5, 17], vec![2020]] }),
        url: Some("http://dx.doi.org/10.1000/182".to_string()),
        container_title: Some("Journal of Tests".to_string()),
        author: vec![
            CslAuthor { given: "Jane".to_string(), family: "Doe".to_string() },
            CslAuthor { given: "Richard".to_string(), family: "Roe".to_string() },
        ],
        title: "On Testing".to_string(),
        doi: Some("10.1000/182".to_string()),
        publisher: Some("Test Press".to_string()),
    });
    assert_eq!(
        raw_text(&citation.to_raw().unwrap()),
        "Jane Doe, Richard Roe. 2019. <b>On Testing.</b> In <i>Journal of Tests</i>, Test Press. DOI:<a href=\"https://doi.org/10.1000/182\">https://doi.org/10.1000/182</a>"
    );
    assert_eq!(citation.year(), Some(2019));
    assert_eq!(citation.doi, "10.1000/182");
}

#[test]
fn doi_citation_with_few_parts() {
    let mut citation = DoiCitation::new("10.1/2".to_string());
    let mut data = csl("Bare");
    data.url = Some("https://example.org/bare".to_string());
    data.issued = Some(CslDates { date_parts: vec![Vec::new()] });
    citation.resolve(data);
    assert_eq!(
        raw_text(&citation.to_raw().unwrap()),
        "<b>Bare.</b> <a href=\"https://example.org/bare\">https://example.org/bare</a>"
    );
    assert_eq!(citation.year(), None);

    let mut one_author = csl("Solo");
    one_author.author = vec![CslAuthor { given: "A".to_string(), family: "B".to_string() }];
    one_author.issued = Some(CslDates { date_parts: Vec::new() });
    assert_eq!(one_author.authors().as_deref(), Some("A B"));
    assert_eq!(one_author.year_issued(), None);
    assert_eq!(csl("None").authors(), None);
    let mut second = DoiCitation::new("d".to_string());
    second.resolve(one_author);
    assert_eq!(raw_text(&second.to_raw().unwrap()), "A B. <b>Solo.</b> ");
}

#[test]
fn doi_year_is_cut_to_32_bits() {
    let mut citation = DoiCitation::new("d".to_string());
    let mut data = csl("Far future");
    data.issued = Some(CslDates { date_parts: vec![vec![4294967296 + 7]] });
    citation.resolve(data);
    assert_eq!(citation.year(), Some(7));
    assert_eq!(raw_text(&citation.to_raw().unwrap()), "4294967303. <b>Far future.</b> ");
}

#[test]
fn plain_citations_pass_through() {
    let raw = Citation::Raw("as it is".to_string());
    assert_eq!(raw_text(&raw.to_raw().unwrap()), "as it is");
    let dated = Citation::RawWithYear { text: "with year".to_string(), year: Some(2001) };
    assert_eq!(raw_text(&dated.to_raw().unwrap()), "with year");
    assert!(matches!(
        raw.to_raw_with_year(),
        Ok(Some(Citation::RawWithYear { text, year: None })) if text == "as it is"
    ));
    assert!(matches!(
        dated.to_raw_with_year(),
        Ok(Some(Citation::RawWithYear { text, year: Some(2001) })) if text == "with year"
    ));
}

#[test]
fn set_year_dates_plain_text_only() {
    assert!(matches!(
        Citation::Raw("t".to_string()).set_year(Some(1990)),
        Citation::RawWithYear { text, year: Some(1990) } if text == "t"
    ));
    assert!(matches!(
        Citation::Raw("t".to_string()).set_year(None),
        Citation::RawWithYear { text, year: None } if text == "t"
    ));
    assert!(matches!(
        Citation::RawWithYear { text: "t".to_string(), year: Some(1) }.set_year(Some(2)),
        Citation::RawWithYear { year: Some(1), .. }
    ));
    assert!(matches!(
        Citation::Url(resolved_url("u", None)).set_year(Some(2)),
        Citation::Url(_)
    ));
}

#[test]
fn sources_with_year() {
    let url = Citation::Url(resolved_url("https://e.org", Some("T")));
    assert!(matches!(
        url.to_raw_with_year(),
        Ok(Some(Citation::RawWithYear { text, year: None }))
            if text == "<b>T.</b> <a href=\"https://e.org\">https://e.org</a>"
    ));
    let unresolved = Citation::Url(resolved_url("https://e.org", None));
    assert!(matches!(unresolved.to_raw_with_year(), Ok(None)));
    assert!(unresolved.to_raw().is_none());

    let bib = Citation::Bibtex(BibtexCitation {
        bibtex_string: String::new(),
        tags: Some(tags(&[("title", "Foo"), ("year", "2020")])),
    });
    assert!(matches!(
        bib.to_raw_with_year(),
        Ok(Some(Citation::RawWithYear { text, year: Some(2020) })) if text == "2020. <b>Foo.</b> "
    ));
    let bad = Citation::Bibtex(BibtexCitation {
        bibtex_string: String::new(),
        tags: Some(tags(&[("title", "Foo"), ("year", "MMXX")])),
    });
    assert!(matches!(bad.to_raw_with_year(), Err(FormatError::BadYear(text)) if text == "MMXX"));
    assert_eq!(raw_text(&bad.to_raw().unwrap()), "MMXX. <b>Foo.</b> ");
    let untitled = Citation::Bibtex(BibtexCitation {
        bibtex_string: String::new(),
        tags: Some(tags(&[("year", "MMXX")])),
    });
    assert!(matches!(untitled.to_raw_with_year(), Ok(None)));

    let mut doi = DoiCitation::new("d".to_string());
    let mut data = csl("W");
    data.issued = Some(CslDates { date_parts: vec![vec![1987, 1]] });
    doi.resolve(data);
    assert!(matches!(
        Citation::Doi(doi).to_raw_with_year(),
        Ok(Some(Citation::RawWithYear { text, year: Some(1987) })) if text == "1987. <b>W.</b> "
    ));
}

#[test]
fn references_without_text_are_dropped() {
    let references = vec![
        ("a".to_string(), Citation::Raw("A".to_string())),
        ("b".to_string(), Citation::Doi(DoiCitation::new("d".to_string()))),
        ("c".to_string(), Citation::RawWithYear { text: "C".to_string(), year: Some(1) }),
        ("d".to_string(), Citation::Url(resolved_url("u", Some("D")))),
    ];
    let resolved = resolve_references(&references);
    let keys: Vec<&str> = resolved.iter().map(|r| r.0.as_str()).collect();
    assert_eq!(keys, vec!["a", "c", "d"]);
    assert_eq!(raw_text(&resolved[0].1), "A");
    assert_eq!(raw_text(&resolved[1].1), "C");
    assert_eq!(raw_text(&resolved[2].1), "<b>D.</b> <a href=\"u\">u</a>");
}

#[test]
fn publications_keep_order_and_years() {
    let publications = vec![
        Citation::Raw("A".to_string()),
        Citation::Url(resolved_url("u", None)),
        Citation::Bibtex(BibtexCitation {
            bibtex_string: String::new(),
            tags: Some(tags(&[("title", "B"), ("year", "2003")])),
        }),
    ];
    let resolved = resolve_publications(&publications).unwrap();
    assert_eq!(resolved.len(), 2);
    assert!(matches!(&resolved[0], Citation::RawWithYear { text, year: None } if text == "A"));
    assert!(matches!(
        &resolved[1],
        Citation::RawWithYear { text, year: Some(2003) } if text == "2003. <b>B.</b> "
    ));
    let listed = briefly::resume::listed_publications(&resolved);
    assert_eq!(
        listed,
        vec![("A".to_string(), None), ("2003. <b>B.</b> ".to_string(), Some(2003))]
    );
}

#[test]
fn publication_with_bad_year_fails_the_batch() {
    let publications = vec![
        Citation::Raw("A".to_string()),
        Citation::Bibtex(BibtexCitation {
            bibtex_string: String::new(),
            tags: Some(tags(&[("title", "B"), ("year", "soon")])),
        }),
        Citation::Bibtex(BibtexCitation {
            bibtex_string: String::new(),
            tags: Some(tags(&[("title", "C"), ("year", "later")])),
        }),
    ];
    assert!(matches!(
        resolve_publications(&publications),
        Err(FormatError::BadYear(text)) if text == "soon"
    ));
}

fn def(key: &str, value: &[&str]) -> StringDef {
    StringDef {
        key: key.to_string(),
        value: value
            .iter()
            .map(|piece| match piece.strip_prefix('$') {
                Some(name) => Chunk::Abbreviation(name.to_string()),
                None => Chunk::Text(piece.to_string()),
            })
            .collect(),
    }
}

#[test]
fn text_that_ends_in_an_open_string_is_refused() {
    for text in ["@comment{", "@article{key, title = {", "@string{a = \"", "@comment{caf\u{e9}", "\u{e9}"] {
        assert!(!text_ends_closed(text));
        let mut citation = BibtexCitation::new(text.to_string());
        assert!(matches!(citation.fetch(), Err(FormatError::OpenEnd)));
        assert!(citation.tags.is_none());
        assert!(matches!(read_bibtex(text), Err(FormatError::OpenEnd)));
    }
    for text in ["", "@comment{}", "@comment{ {a", "x\n", "@article{key, title = {unclosed"] {
        assert!(text_ends_closed(text));
    }
}

#[test]
fn string_defined_through_itself_is_refused() {
    for text in [
        "@string{a = a}",
        "@string{a = b}\n@string{b = a # \"x\"}\n",
        "@string{ok = \"fine\"}\n@string{a = ok # a}\n@article{k, title = a}\n",
    ] {
        let mut citation = BibtexCitation::new(text.to_string());
        let found = citation.fetch();
        assert!(matches!(found, Err(FormatError::CyclicString)), "{:?}: {:?}", text, found);
        assert!(citation.tags.is_none());
    }
}

#[test]
fn string_variables_are_expanded() {
    let text = "@string{first = \"Jane\"}\n@string{name = first # \" Doe\"}\n@article{k,\n author = name,\n title = {T}\n}\n";
    let entries = read_bibtex(text).unwrap();
    assert_eq!(entries, vec![tags(&[("author", "Jane Doe"), ("title", "T")])]);
    let undefined = "@string{a = missing}\n@string{b = b}\n";
    assert!(matches!(read_bibtex(undefined), Err(FormatError::Bibtex(_))));
    let unused = "@article{k, title = missing}\n";
    assert!(matches!(read_bibtex(unused), Err(FormatError::Bibtex(_))));
}

#[test]
fn settling_of_string_definitions() {
    assert!(check_strings(&Vec::new()));
    assert!(check_strings(&vec![def("a", &["text"])]));
    assert!(check_strings(&vec![def("a", &["$b", "x"]), def("b", &["$c"]), def("c", &["y"])]));
    assert!(check_strings(&vec![def("a", &["$b", "$b"]), def("b", &["$c", "$c"]), def("c", &[])]));
    assert!(!check_strings(&vec![def("a", &["$a"])]));
    assert!(!check_strings(&vec![def("a", &["$b"]), def("b", &["$c"]), def("c", &["$a"])]));
    assert!(!check_strings(&vec![def("a", &["x"]), def("b", &["$a", "$b"])]));
    // The first definition of a name counts.
    assert!(check_strings(&vec![def("a", &["x"]), def("a", &["$a"])]));
    assert!(!check_strings(&vec![def("a", &["$a"]), def("a", &["x"])]));
    // An undefined name stops the expansion before anything later is looked at.
    assert!(check_strings(&vec![def("a", &["$missing", "$a"])]));
    assert!(check_strings(&vec![def("a", &["$missing"]), def("b", &["$b"])]));
    assert!(!check_strings(&vec![def("b", &["$b"]), def("a", &["$missing"])]));
}

#[test]
fn definitions_are_found_and_picked() {
    let strings = vec![def("a", &["x"]), def("b", &["y"]), def("a", &["z"])];
    assert_eq!(find_definition(&strings, "a"), 0);
    assert_eq!(find_definition(&strings, "b"), 1);
    assert_eq!(find_definition(&strings, "c"), 3);
    let picked = string_definitions(vec![
        RawEntry::Other,
        RawEntry::Variable(def("a", &["x"])),
        RawEntry::Other,
        RawEntry::Variable(def("b", &["$a"])),
    ]);
    assert_eq!(picked.len(), 2);
    assert_eq!(picked[0].key, "a");
    assert_eq!(picked[1].key, "b");
    assert!(matches!(&picked[1].value[0], Chunk::Abbreviation(name) if name == "a"));
    assert!(string_definitions(Vec::new()).is_empty());
}

fn each_text(alphabet: &[char], length: usize, prefix: &str, run: &mut dyn FnMut(&str)) {
    let mut indices = vec![0usize; length];
    loop {
        let mut text = String::from(prefix);
        for &i in &indices {
            text.push(alphabet[i]);
        }
        run(&text);
        let mut place = 0;
        loop {
            if place == length {
                return;
            }
            indices[place] += 1;
            if indices[place] < alphabet.len() {
                break;
            }
            indices[place] = 0;
            place += 1;
        }
    }
}

#[test]
fn every_short_text_is_read_or_refused() {
    let alphabet = ['@', '{', '}', '"', 'a', 'b', '=', ',', '#', ' ', '(', ')', '\u{e9}'];
    let prefixes = ["", "@string{a=", "@string(a=", "@a{k,", "@a{k,a=", "@comment", "@preamble{"];
    let mut read = 0;
    let mut refused = 0;
    for prefix in prefixes {
        for length in 0..=3 {
            each_text(&alphabet, length, prefix, &mut |text| match read_bibtex(text) {
                Ok(_) => read += 1,
                Err(FormatError::OpenEnd) => {
                    assert!(!text_ends_closed(text));
                    refused += 1
                }
                Err(FormatError::CyclicString) | Err(FormatError::Bibtex(_)) => refused += 1,
                Err(other) => panic!("{:?}: {:?}", text, other),
            });
        }
    }
    assert!(read > 0 && refused > 0);
}
