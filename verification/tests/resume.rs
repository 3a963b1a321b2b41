use briefly::citation::Citation;
use briefly::dates::{
    range_from_months, read_month, show_range, split_range, store_range, ConfigError, DateRange,
    YearMonth,
};
use briefly::directive::ProjectParam;
use briefly::github::{
    assign_role, named_project, owned_project, owned_projects, split_repo_path, split_repo_paths,
    Repository,
};
use briefly::languages::{
    bar_segments, language_stats, render_language_bar, BarSegment, LanguageBar,
};
use briefly::project::{Decimal1, LanguageStat, Project, ProjectRole, ProjectSortOrder};
use briefly::resume::{
    as_directives, contact_param, contact_params, github_username, listed_projects,
    listed_publications, Contact, Degree,
};
use briefly::text::{decimal_string, emph, find_char, parse_u32, same_text};

fn lang(name: &str, tenths: u64) -> LanguageStat {
    LanguageStat { language: name.to_string(), percentage: Decimal1(tenths) }
}

fn contact(kind: &str, value: &str) -> Contact {
    Contact { type_: kind.to_string(), value: value.to_string() }
}

fn project(name: &str) -> Project {
    Project {
        name: name.to_string(),
        description: None,
        contributions: None,
        url: None,
        stars: None,
        forks: None,
        active: None,
        owner: None,
        commits: None,
        additions: None,
        deletions: None,
        languages: Vec::new(),
        tags: Vec::new(),
        role: None,
    }
}

fn repository(name: &str, owner: Option<&str>) -> Repository {
    Repository {
        name: name.to_string(),
        description: Some("about".to_string()),
        url: Some(format!("https://github.com/o/{}", name)),
        stars: Some(3),
        forks: None,
        fork: None,
        archived: Some(false),
        owner: owner.map(|o| o.to_string()),
        topics: Some(vec!["t1".to_string(), "t2".to_string()]),
        languages: vec![lang("C", 250), lang("Rust", 750)],
    }
}

fn segment(label: &str, width: &str, opacity: &str, bordered: bool) -> BarSegment {
    BarSegment {
        label: label.to_string(),
        width: width.to_string(),
        opacity: opacity.to_string(),
        bordered,
    }
}

#[test]
fn degrees_written_out() {
    assert_eq!(Degree::BS.to_resume_string(), "Bachelor of Science");
    assert_eq!(Degree::MS.to_resume_string(), "Master of Science");
    assert_eq!(Degree::PhD.to_resume_string(), "PhD");
}

#[test]
fn decimal_numerals() {
    assert_eq!(decimal_string(0), "0");
    assert_eq!(decimal_string(7), "7");
    assert_eq!(decimal_string(10), "10");
    assert_eq!(decimal_string(2020), "2020");
    assert_eq!(decimal_string(u64::MAX), "18446744073709551615");
}

#[test]
fn unsigned_numbers_are_read() {
    assert_eq!(parse_u32("0"), Some(0));
    assert_eq!(parse_u32("2020"), Some(2020));
    assert_eq!(parse_u32("+17"), Some(17));
    assert_eq!(parse_u32("007"), Some(7));
    assert_eq!(parse_u32("4294967295"), Some(u32::MAX));
    assert_eq!(parse_u32("4294967296"), None);
    assert_eq!(parse_u32("99999999999999999999"), None);
    assert_eq!(parse_u32(""), None);
    assert_eq!(parse_u32("+"), None);
    assert_eq!(parse_u32("-1"), None);
    assert_eq!(parse_u32("++1"), None);
    assert_eq!(parse_u32("12a"), None);
    assert_eq!(parse_u32("1 2"), None);
    assert_eq!(parse_u32("٣"), None);
    for text in ["0", "2020", "+17", "007", "4294967295", "4294967296", "", "+", "-1", "12a"] {
        assert_eq!(parse_u32(text), text.parse::<u32>().ok());
    }
}

#[test]
fn texts_are_compared_and_searched() {
    assert!(same_text("abc", "abc"));
    assert!(!same_text("abc", "abd"));
    assert!(same_text("", ""));
    assert_eq!(find_char("a~b~c", '~', 0), 1);
    assert_eq!(find_char("a~b~c", '~', 2), 3);
    assert_eq!(find_char("a~b~c", '~', 4), 5);
    assert_eq!(find_char("a~b~c", '~', 9), 5);
    assert_eq!(find_char("é~", '~', 0), 1);
}

#[test]
fn emphasis_underlines_every_occurrence() {
    assert_eq!(emph("Rust and rust", "Rust"), "<u>Rust</u> and rust");
    assert_eq!(emph("aaaa", "aa"), "<u>aa</u><u>aa</u>");
    assert_eq!(emph("aaa", "aa"), "<u>aa</u>a");
    assert_eq!(emph("abc", "x"), "abc");
    assert_eq!(emph("", "x"), "");
    assert_eq!(emph("ab", ""), "<u></u>a<u></u>b<u></u>");
    assert_eq!(emph("", ""), "<u></u>");
    assert_eq!(emph("naïve café", "é"), "naïve caf<u>é</u>");
    for (s, pat) in [("Rust and rust", "Rust"), ("aaaa", "aa"), ("aaa", "aa"), ("ab", ""), ("", "")] {
        assert_eq!(emph(s, pat), s.replace(pat, &format!("<u>{}</u>", pat)));
    }
}

#[test]
fn contacts_get_links_and_icons() {
    let github = contact_param(&contact("github", "octo"));
    assert_eq!(github.value, "octo");
    assert_eq!(github.link.as_deref(), Some("https://github.com/octo"));
    assert_eq!(github.icon.as_deref(), Some("icons/github.svg"));
    let email = contact_param(&contact("email", "a@b.c"));
    assert_eq!(email.link.as_deref(), Some("mailto:a@b.c"));
    assert_eq!(email.icon.as_deref(), Some("icons/mail.svg"));
    let blog = contact_param(&contact("blog", "https://blog.example"));
    assert_eq!(blog.link.as_deref(), Some("https://blog.example"));
    assert_eq!(blog.icon.as_deref(), Some("icons/blog.svg"));
    let phone = contact_param(&contact("phone", "555"));
    assert_eq!(phone.value, "555");
    assert_eq!(phone.link, None);
    assert_eq!(phone.icon, None);
    let all = contact_params(&vec![contact("phone", "555"), contact("github", "octo")]);
    assert_eq!(all.len(), 2);
    assert_eq!(all[1].link.as_deref(), Some("https://github.com/octo"));
}

#[test]
fn account_name_is_the_first_github_contact() {
    let contacts = vec![
        contact("email", "a@b.c"),
        contact("github", "first"),
        contact("github", "second"),
    ];
    assert_eq!(github_username(&contacts), Some("first"));
    assert_eq!(github_username(&vec![contact("GitHub", "x")]), None);
    assert_eq!(github_username(&Vec::new()), None);
}

#[test]
fn project_lists_and_directives() {
    let directives = vec![
        ProjectParam::Sort { order_by: ProjectSortOrder::Stars },
        ProjectParam::Raw(project("a")),
        ProjectParam::Raw(project("b")),
    ];
    let listed = listed_projects(&directives);
    assert_eq!(listed.len(), 2);
    assert_eq!(listed[0].name, "a");
    assert_eq!(listed[1].name, "b");

    let settled = as_directives(vec![project("y"), project("x")]);
    assert_eq!(settled.len(), 3);
    assert!(matches!(&settled[0], ProjectParam::Raw(p) if p.name == "y"));
    assert!(matches!(&settled[1], ProjectParam::Raw(p) if p.name == "x"));
    assert!(matches!(&settled[2], ProjectParam::Sort { order_by: ProjectSortOrder::Manual }));
    let again = briefly::directive::assemble(&settled, Vec::new());
    assert_eq!(again.len(), 2);
    assert_eq!(again[0].name, "y");
    assert_eq!(again[1].name, "x");
    assert!(matches!(as_directives(Vec::new()).as_slice(), [ProjectParam::Sort { .. }]));
}

#[test]
fn only_dated_text_is_listed_as_publication() {
    let publications = vec![
        Citation::Raw("plain".to_string()),
        Citation::RawWithYear { text: "one".to_string(), year: Some(1999) },
        Citation::RawWithYear { text: "two".to_string(), year: None },
    ];
    assert_eq!(
        listed_publications(&publications),
        vec![("one".to_string(), Some(1999)), ("two".to_string(), None)]
    );
}

#[test]
fn date_ranges_are_read() {
    let closed = DateRange::from_str("2019-09~2021-06").unwrap();
    assert_eq!(closed.start, YearMonth { year: 2019, month: 9 });
    assert_eq!(closed.end, Some(YearMonth { year: 2021, month: 6 }));
    let open = DateRange::from_str("2022-01~").unwrap();
    assert_eq!(open.start, YearMonth { year: 2022, month: 1 });
    assert_eq!(open.end, None);
}

#[test]
fn date_ranges_are_written() {
    let closed = DateRange::from_str("2019-09~2021-06").unwrap();
    assert_eq!(closed.to_resume_string(), "Sep,&nbsp;2019 - Jun,&nbsp;2021");
    assert_eq!(closed.to_text(), "2019-09~2021-06");
    let open = DateRange { start: YearMonth::new(2022, 1).unwrap(), end: None };
    assert_eq!(open.to_resume_string(), "Jan,&nbsp;2022 - Current");
    assert_eq!(open.to_text(), "2022-01~");
    assert_eq!(DateRange::from_str(&open.to_text()).unwrap(), open);
}

#[test]
fn malformed_date_ranges_are_errors() {
    assert!(matches!(DateRange::from_str("2019-09"), Err(ConfigError::DateRange)));
    assert!(matches!(DateRange::from_str(""), Err(ConfigError::DateRange)));
    assert!(matches!(DateRange::from_str("2019-09~2020-01~2021-01"), Err(ConfigError::DateRange)));
    assert!(matches!(DateRange::from_str("~~"), Err(ConfigError::DateRange)));
    assert!(matches!(DateRange::from_str("soon~"), Err(ConfigError::Date(text)) if text == "soon"));
    assert!(matches!(DateRange::from_str("~2020-01"), Err(ConfigError::Date(text)) if text.is_empty()));
    assert!(matches!(
        DateRange::from_str("2019-13~2020-01"),
        Err(ConfigError::Date(text)) if text == "2019-13"
    ));
    assert!(matches!(
        DateRange::from_str("2019-09~never"),
        Err(ConfigError::Date(text)) if text == "never"
    ));
}

#[test]
fn months_that_do_not_exist() {
    assert_eq!(YearMonth::new(2020, 0), None);
    assert_eq!(YearMonth::new(2020, 13), None);
    assert_eq!(YearMonth::new(262143, 1), None);
    assert_eq!(YearMonth::new(-262144, 1), None);
    assert_eq!(YearMonth::new(262142, 12), Some(YearMonth { year: 262142, month: 12 }));
    assert_eq!(YearMonth::new(-262143, 1), Some(YearMonth { year: -262143, month: 1 }));
    let edge = DateRange { start: YearMonth::new(262142, 12).unwrap(), end: None };
    assert_eq!(edge.to_text(), "+262142-12~");
}

#[test]
fn language_bar_of_nothing() {
    let bar = language_stats(&Vec::new());
    assert_eq!(bar, LanguageBar { shown: 0, covered: Decimal1(0), other: true, total: 1 });
    assert!(!bar.bordered(0));
}

#[test]
fn language_bar_stops_above_the_threshold() {
    let bar = language_stats(&vec![lang("Rust", 900), lang("C", 75), lang("Go", 20), lang("Sh", 5)]);
    assert_eq!(bar, LanguageBar { shown: 2, covered: Decimal1(975), other: true, total: 3 });
    assert!(bar.bordered(0));
    assert!(bar.bordered(1));
    assert!(!bar.bordered(2));

    let at_threshold = language_stats(&vec![lang("Rust", 970), lang("C", 30)]);
    assert_eq!(at_threshold, LanguageBar { shown: 2, covered: Decimal1(1000), other: false, total: 2 });
    assert!(at_threshold.bordered(0));
    assert!(!at_threshold.bordered(1));
}

#[test]
fn language_bar_shows_at_most_four() {
    let bar = language_stats(&vec![
        lang("A", 200),
        lang("B", 200),
        lang("C", 200),
        lang("D", 200),
        lang("E", 200),
    ]);
    assert_eq!(bar, LanguageBar { shown: 4, covered: Decimal1(800), other: true, total: 5 });
    let whole = language_stats(&vec![lang("A", 1000)]);
    assert_eq!(whole, LanguageBar { shown: 1, covered: Decimal1(1000), other: false, total: 1 });
    let huge = language_stats(&vec![lang("A", 900), lang("B", u64::MAX)]);
    assert_eq!(huge, LanguageBar { shown: 2, covered: Decimal1(u64::MAX), other: false, total: 2 });
}

#[test]
fn language_bar_markup() {
    assert_eq!(
        render_language_bar(&Vec::new()),
        "<div class=\"language_bar\"></div><div class=\"language_dots\"></div>"
    );
    let markup = render_language_bar(&vec![
        segment("Rust", "97.5", "1", true),
        segment("Other", "2.5", "0.2", false),
    ]);
    assert_eq!(
        markup,
        "<div class=\"language_bar\">\
<span style=\"width:97.5%;opacity:1;border-right: 1px solid white;\"></span>\
<span style=\"width:2.5%;opacity:0.2;\"></span>\
</div>\
<div class=\"language_dots\">\
<div class=\"language_dot\"><span class=\"dot\" style=\"opacity:1\"></span><span>Rust</span></div>\
<div class=\"language_dot\"><span class=\"dot\" style=\"opacity:0.2\"></span><span>Other</span></div>\
</div>"
    );
}

#[test]
fn repository_names_are_split() {
    assert_eq!(split_repo_path("a/x"), Some(("a".to_string(), "x".to_string())));
    assert_eq!(split_repo_path("a/x/y"), Some(("a".to_string(), "x".to_string())));
    assert_eq!(split_repo_path("a/"), Some(("a".to_string(), String::new())));
    assert_eq!(split_repo_path("/x"), Some((String::new(), "x".to_string())));
    assert_eq!(split_repo_path("ax"), None);
    assert_eq!(split_repo_path(""), None);
    let names = vec!["a/x".to_string(), "bad".to_string(), "b/y/z".to_string()];
    assert_eq!(
        split_repo_paths(&names),
        vec![("a".to_string(), "x".to_string()), ("b".to_string(), "y".to_string())]
    );
}

#[test]
fn roles_are_assigned_by_owner() {
    assert_eq!(assign_role("me", "me"), ProjectRole::Owner);
    assert_eq!(assign_role("them", "me"), ProjectRole::Contributor);
    assert_eq!(assign_role("Me", "me"), ProjectRole::Contributor);
}

#[test]
fn projects_are_made_from_repositories() {
    let own = owned_project(repository("r", None));
    assert_eq!(own.name, "r");
    assert_eq!(own.description.as_deref(), Some("about"));
    assert_eq!(own.url.as_deref(), Some("https://github.com/o/r"));
    assert_eq!(own.stars, Some(3));
    assert_eq!(own.forks, None);
    assert_eq!(own.active, Some(true));
    assert_eq!(own.owner.as_deref(), Some(""));
    assert_eq!(own.role, Some(ProjectRole::Owner));
    assert_eq!(own.tags, vec!["t1", "t2"]);
    assert_eq!(own.languages[0].language, "Rust");
    assert_eq!(own.languages[1].language, "C");
    assert_eq!(own.contributions, None);
    assert_eq!(own.commits, None);

    let theirs = named_project(repository("r", Some("them")), "me");
    assert_eq!(theirs.owner.as_deref(), Some("them"));
    assert_eq!(theirs.role, Some(ProjectRole::Contributor));
    let mine = named_project(repository("r", Some("me")), "me");
    assert_eq!(mine.role, Some(ProjectRole::Owner));

    let mut archived = repository("old", Some("me"));
    archived.archived = Some(true);
    archived.topics = None;
    let old = owned_project(archived);
    assert_eq!(old.active, Some(false));
    assert!(old.tags.is_empty());
    assert_eq!(old.owner.as_deref(), Some("me"));
}

#[test]
fn forks_are_left_out_on_request() {
    let repos = || {
        let mut fork = repository("fork", Some("me"));
        fork.fork = Some(true);
        let mut source = repository("source", Some("me"));
        source.fork = Some(false);
        vec![fork, repository("unknown", Some("me")), source]
    };
    let kept: Vec<String> = owned_projects(repos(), true).into_iter().map(|p| p.name).collect();
    assert_eq!(kept, vec!["unknown", "source"]);
    let all: Vec<String> = owned_projects(repos(), false).into_iter().map(|p| p.name).collect();
    assert_eq!(all, vec!["fork", "unknown", "source"]);
}

#[test]
fn range_texts_are_split_at_one_tilde() {
    assert_eq!(split_range("a~b"), Some(("a".to_string(), "b".to_string())));
    assert_eq!(split_range("a~"), Some(("a".to_string(), String::new())));
    assert_eq!(split_range("~"), Some((String::new(), String::new())));
    assert_eq!(split_range("ab"), None);
    assert_eq!(split_range("a~b~c"), None);
    assert_eq!(split_range(""), None);
}

#[test]
fn months_are_read() {
    assert_eq!(read_month("2020-02"), Some(YearMonth { year: 2020, month: 2 }));
    assert_eq!(read_month("1999-12"), Some(YearMonth { year: 1999, month: 12 }));
    assert_eq!(read_month("2020-00"), None);
    assert_eq!(read_month("2020"), None);
    assert_eq!(read_month(""), None);
    assert_eq!(read_month("Feb 2020"), None);
}

#[test]
fn ranges_are_made_of_read_months() {
    let jan = YearMonth { year: 2020, month: 1 };
    let mar = YearMonth { year: 2021, month: 3 };
    assert_eq!(
        range_from_months("a", Some(jan), "b", Some(mar)).unwrap(),
        DateRange { start: jan, end: Some(mar) }
    );
    assert_eq!(
        range_from_months("a", Some(jan), "", Some(mar)).unwrap(),
        DateRange { start: jan, end: None }
    );
    assert_eq!(
        range_from_months("a", Some(jan), "", None).unwrap(),
        DateRange { start: jan, end: None }
    );
    assert!(matches!(
        range_from_months("a", None, "b", None),
        Err(ConfigError::Date(text)) if text == "a"
    ));
    assert!(matches!(
        range_from_months("a", Some(jan), "b", None),
        Err(ConfigError::Date(text)) if text == "b"
    ));
}

#[test]
fn ranges_are_written_from_month_texts() {
    let end = "Mar 2021".to_string();
    assert_eq!(show_range("Jan 2020", Some(&end)), "Jan 2020 - Mar 2021");
    assert_eq!(show_range("Jan 2020", None), "Jan 2020 - Current");
    assert_eq!(store_range("2020-01", Some(&end)), "2020-01~Mar 2021");
    assert_eq!(store_range("2020-01", None), "2020-01~");
}

#[test]
fn repository_without_owner_makes_a_contributor() {
    let project = named_project(repository("r", None), "me");
    assert_eq!(project.owner, None);
    assert_eq!(project.role, Some(ProjectRole::Contributor));
    assert_eq!(project.name, "r");
}

#[test]
fn segments_of_the_bar_are_put_together() {
    let languages = vec![lang("Rust", 900), lang("C", 75), lang("Go", 20)];
    let bar = language_stats(&languages);
    let texts = |items: &[&str]| items.iter().map(|t| t.to_string()).collect::<Vec<String>>();
    let segments = bar_segments(
        &languages,
        &bar,
        &texts(&["90", "7.5", "2.5"]),
        &texts(&["1", "0.6", "0.2"]),
    );
    assert_eq!(segments.len(), 3);
    let seen: Vec<(&str, &str, &str, bool)> = segments
        .iter()
        .map(|s| (s.label.as_str(), s.width.as_str(), s.opacity.as_str(), s.bordered))
        .collect();
    assert_eq!(
        seen,
        vec![("Rust", "90", "1", true), ("C", "7.5", "0.6", true), ("Other", "2.5", "0.2", false)]
    );

    let whole = vec![lang("Rust", 1000)];
    let bar = language_stats(&whole);
    let segments = bar_segments(&whole, &bar, &texts(&["100"]), &texts(&["1"]));
    assert_eq!(segments.len(), 1);
    assert_eq!(segments[0].label, "Rust");
    assert!(!segments[0].bordered);

    let none = Vec::new();
    let bar = language_stats(&none);
    let segments = bar_segments(&none, &bar, &texts(&["100"]), &texts(&["1"]));
    assert_eq!(segments.len(), 1);
    assert_eq!(segments[0].label, "Other");
    assert!(!segments[0].bordered);
}
