use briefly::directive::{
    assemble, import_requests, ImportRequest, Interpreter, ProjectImport, ProjectParam,
};
use briefly::policy::{key_of, rank_in_manual_order, sort_languages, sort_projects};
use briefly::project::{
    Decimal1, LanguageStat, Project, ProjectImportMode, ProjectRole, ProjectSortOrder,
};
use briefly::sorting::{reversed, stable_sort, strip_keys, Keyed, SortKey};
use briefly::store::ProjectStore;

fn project(name: &str) -> Project {
    Project {
        name: name.to_string(),
        description: None,
        contributions: None,
        url: None,
        stars: None,
        forks: None,
        active: None,
        owner: None,
        commits: None,
        additions: None,
        deletions: None,
        languages: Vec::new(),
        tags: Vec::new(),
        role: None,
    }
}

fn starred(name: &str, stars: u64, forks: u64) -> Project {
    let mut p = project(name);
    p.stars = Some(stars);
    p.forks = Some(forks);
    p
}

fn names(projects: &[Project]) -> Vec<String> {
    projects.iter().map(|p| p.name.clone()).collect()
}

fn import_named(repos: &[&str]) -> ProjectParam {
    ProjectParam::Import(ProjectImport::GitHub {
        ignore_forks: false,
        repos: Some(repos.iter().map(|r| r.to_string()).collect()),
        token: None,
    })
}

fn import_owned(ignore_forks: bool) -> ProjectParam {
    ProjectParam::Import(ProjectImport::GitHub { ignore_forks, repos: None, token: None })
}

fn lang(name: &str, tenths: u64) -> LanguageStat {
    LanguageStat { language: name.to_string(), percentage: Decimal1(tenths) }
}

#[test]
fn default_import_mode_is_combine() {
    assert_eq!(ProjectImportMode::default(), ProjectImportMode::Combine);
}

#[test]
fn role_labels() {
    assert_eq!(ProjectRole::Owner.label(), "Owner");
    assert_eq!(ProjectRole::Maintainer.label(), "Maintainer");
    assert_eq!(ProjectRole::Contributor.label(), "Contributor");
}

#[test]
fn insert_replaces_record_of_same_name_in_place() {
    let mut store = ProjectStore::new();
    store.insert(starred("a", 1, 0));
    store.insert(project("b"));
    store.insert(starred("a", 7, 0));
    assert_eq!(store.len(), 2);
    let all = store.projects();
    assert_eq!(names(&all), vec!["a", "b"]);
    assert_eq!(all[0].stars, Some(7));
    assert_eq!(store.find("b"), Some(1));
    assert_eq!(store.find("c"), None);
    assert!(store.get("c").is_none());
    assert_eq!(store.get("a").unwrap().stars, Some(7));
}

#[test]
fn extend_lets_later_records_win() {
    let mut store = ProjectStore::new();
    store.extend(vec![starred("a", 1, 1), starred("b", 2, 2), starred("a", 3, 3)]);
    let all = store.projects();
    assert_eq!(names(&all), vec!["a", "b"]);
    assert_eq!(all[0].stars, Some(3));
    store.extend(vec![starred("b", 9, 9), starred("c", 4, 4)]);
    let all = store.projects();
    assert_eq!(names(&all), vec!["a", "b", "c"]);
    assert_eq!(all[1].forks, Some(9));
}

#[test]
fn merge_never_clears_a_fetched_field() {
    let mut store = ProjectStore::new();
    let mut fetched = starred("x", 10, 3);
    fetched.description = Some("fetched description".to_string());
    fetched.url = Some("https://example.org/x".to_string());
    fetched.owner = Some("a".to_string());
    fetched.contributions = Some("fetched work".to_string());
    fetched.tags = vec!["rust".to_string()];
    fetched.role = Some(ProjectRole::Owner);
    fetched.active = Some(true);
    fetched.commits = Some(5);
    fetched.additions = Some(6);
    fetched.deletions = Some(7);
    fetched.languages = vec![lang("Rust", 1000)];
    store.insert(fetched);

    store.merge(&project("x"));
    let after = store.get("x").unwrap();
    assert_eq!(after.description.as_deref(), Some("fetched description"));
    assert_eq!(after.url.as_deref(), Some("https://example.org/x"));
    assert_eq!(after.owner.as_deref(), Some("a"));
    assert_eq!(after.contributions.as_deref(), Some("fetched work"));
    assert_eq!(after.tags, vec!["rust"]);
    assert_eq!(after.role, Some(ProjectRole::Owner));
    assert_eq!(after.stars, Some(10));
    assert_eq!(after.forks, Some(3));
    assert_eq!(after.active, Some(true));
    assert_eq!(after.commits, Some(5));
    assert_eq!(after.additions, Some(6));
    assert_eq!(after.deletions, Some(7));
    assert_eq!(after.languages.len(), 1);
    assert_eq!(store.len(), 1);
}

#[test]
fn merge_overwrites_only_what_the_manual_record_sets() {
    let mut store = ProjectStore::new();
    let mut fetched = starred("x", 10, 3);
    fetched.description = Some("fetched".to_string());
    fetched.url = Some("https://example.org/x".to_string());
    fetched.tags = vec!["old".to_string()];
    fetched.languages = vec![lang("Rust", 1000)];
    store.insert(fetched);

    let mut manual = starred("x", 999, 999);
    manual.description = Some("by hand".to_string());
    manual.owner = Some("me".to_string());
    manual.contributions = Some("everything".to_string());
    manual.tags = vec!["new".to_string(), "tags".to_string()];
    manual.role = Some(ProjectRole::Maintainer);
    manual.active = Some(false);
    manual.commits = Some(1);
    manual.languages = vec![lang("C", 500)];
    store.merge(&manual);

    let after = store.get("x").unwrap();
    assert_eq!(after.description.as_deref(), Some("by hand"));
    assert_eq!(after.url.as_deref(), Some("https://example.org/x"));
    assert_eq!(after.owner.as_deref(), Some("me"));
    assert_eq!(after.contributions.as_deref(), Some("everything"));
    assert_eq!(after.tags, vec!["new", "tags"]);
    assert_eq!(after.role, Some(ProjectRole::Maintainer));
    assert_eq!(after.stars, Some(10));
    assert_eq!(after.forks, Some(3));
    assert_eq!(after.active, None);
    assert_eq!(after.commits, None);
    assert_eq!(after.languages[0].language, "Rust");
}

#[test]
fn merge_inserts_unknown_record_verbatim() {
    let mut store = ProjectStore::new();
    store.insert(project("a"));
    let mut manual = starred("m", 4, 2);
    manual.description = Some("only by hand".to_string());
    store.merge(&manual);
    let all = store.projects();
    assert_eq!(names(&all), vec!["a", "m"]);
    assert_eq!(all[1].stars, Some(4));
    assert_eq!(all[1].description.as_deref(), Some("only by hand"));
}

#[test]
fn select_keeps_order_of_names_and_drops_unknown_ones() {
    let mut store = ProjectStore::new();
    store.extend(vec![project("a"), project("b"), project("c")]);
    let wanted = vec!["c".to_string(), "zzz".to_string(), "a".to_string(), "c".to_string()];
    let chosen = store.select(&wanted);
    assert_eq!(names(&chosen), vec!["c", "a", "c"]);
    assert!(chosen.len() <= wanted.len());
    assert!(store.select(&Vec::new()).is_empty());
}

#[test]
fn stable_sort_orders_by_key_and_keeps_ties_in_place() {
    let entry = |major: i128, minor: i128, item: &'static str| Keyed {
        key: SortKey { major, minor },
        item,
    };
    let sorted = stable_sort(vec![
        entry(2, 0, "c"),
        entry(1, 5, "a2"),
        entry(2, 0, "d"),
        entry(1, 0, "a1"),
        entry(2, 0, "e"),
        entry(-3, 9, "z"),
    ]);
    let items = strip_keys(sorted);
    assert_eq!(items, vec!["z", "a1", "a2", "c", "d", "e"]);
}

#[test]
fn stable_sort_of_nothing_and_of_one() {
    let none: Vec<Keyed<u8>> = Vec::new();
    assert!(stable_sort(none).is_empty());
    let one = stable_sort(vec![Keyed { key: SortKey { major: 0, minor: 0 }, item: 7u8 }]);
    assert_eq!(strip_keys(one), vec![7u8]);
}

#[test]
fn sort_key_comparison_is_lexicographic() {
    let a = SortKey { major: 1, minor: 9 };
    let b = SortKey { major: 2, minor: 0 };
    let c = SortKey { major: 1, minor: 10 };
    assert!(a.is_before(&b));
    assert!(!b.is_before(&a));
    assert!(a.is_before(&c));
    assert!(!a.is_before(&a));
}

#[test]
fn reversed_turns_the_list_round() {
    assert_eq!(reversed(vec![1, 2, 3]), vec![3, 2, 1]);
    assert_eq!(reversed(Vec::<u8>::new()), Vec::<u8>::new());
}

#[test]
fn sort_by_stars_descends_with_missing_counts_last() {
    let mut unknown = project("unknown");
    unknown.forks = Some(100);
    let sorted = sort_projects(
        vec![starred("low", 1, 0), unknown, starred("high", 50, 0), starred("zero", 0, 0)],
        ProjectSortOrder::Stars,
        &Vec::new(),
    );
    assert_eq!(names(&sorted), vec!["high", "low", "zero", "unknown"]);
    for pair in sorted.windows(2) {
        assert!(pair[0].stars >= pair[1].stars);
    }
}

#[test]
fn sort_by_forks_descends() {
    let sorted = sort_projects(
        vec![starred("a", 9, 1), starred("b", 0, 3), starred("c", 5, 2)],
        ProjectSortOrder::Forks,
        &Vec::new(),
    );
    assert_eq!(names(&sorted), vec!["b", "c", "a"]);
}

#[test]
fn sort_by_stars_then_forks_breaks_ties_by_forks() {
    let sorted = sort_projects(
        vec![starred("a", 5, 1), starred("b", 5, 3), starred("c", 7, 0), starred("d", 5, 2)],
        ProjectSortOrder::StarsThenForks,
        &Vec::new(),
    );
    assert_eq!(names(&sorted), vec!["c", "b", "d", "a"]);
}

#[test]
fn sort_by_forks_then_stars_breaks_ties_by_stars() {
    let sorted = sort_projects(
        vec![starred("a", 1, 5), starred("b", 3, 5), starred("c", 0, 7), starred("d", 2, 5)],
        ProjectSortOrder::ForksThenStars,
        &Vec::new(),
    );
    assert_eq!(names(&sorted), vec!["c", "b", "d", "a"]);
}

#[test]
fn sort_is_stable_for_equal_keys() {
    let sorted = sort_projects(
        vec![
            starred("first", 5, 1),
            starred("second", 5, 2),
            starred("top", 9, 0),
            starred("third", 5, 3),
        ],
        ProjectSortOrder::Stars,
        &Vec::new(),
    );
    assert_eq!(names(&sorted), vec!["top", "first", "second", "third"]);
}

#[test]
fn manual_order_puts_unnamed_projects_last_in_their_order() {
    let directives = vec![
        ProjectParam::Raw(project("m1")),
        ProjectParam::Sort { order_by: ProjectSortOrder::Manual },
        ProjectParam::Raw(project("m2")),
        ProjectParam::Raw(project("m1")),
    ];
    assert_eq!(rank_in_manual_order(&directives, "m1"), 3);
    assert_eq!(rank_in_manual_order(&directives, "m2"), 2);
    assert_eq!(rank_in_manual_order(&directives, "other"), 4);
    let sorted = sort_projects(
        vec![project("f1"), project("m1"), project("f2"), project("m2")],
        ProjectSortOrder::Manual,
        &directives,
    );
    assert_eq!(names(&sorted), vec!["m2", "m1", "f1", "f2"]);
}

#[test]
fn keys_of_the_policies() {
    let p = starred("p", 10, 3);
    let none = Vec::new();
    assert_eq!(key_of(ProjectSortOrder::Stars, &none, &p), SortKey { major: -10, minor: 0 });
    assert_eq!(key_of(ProjectSortOrder::Forks, &none, &p), SortKey { major: -3, minor: 0 });
    assert_eq!(
        key_of(ProjectSortOrder::StarsThenForks, &none, &p),
        SortKey { major: -10, minor: -3 }
    );
    assert_eq!(
        key_of(ProjectSortOrder::ForksThenStars, &none, &p),
        SortKey { major: -3, minor: -10 }
    );
    assert_eq!(key_of(ProjectSortOrder::Manual, &none, &p), SortKey { major: 0, minor: 0 });
    assert_eq!(
        key_of(ProjectSortOrder::Stars, &none, &project("q")),
        SortKey { major: 1, minor: 0 }
    );
}

#[test]
fn languages_are_sorted_largest_first_and_ties_keep_order() {
    let sorted = sort_languages(vec![
        lang("C", 100),
        lang("Rust", 600),
        lang("Go", 100),
        lang("Python", 200),
    ]);
    let order: Vec<&str> = sorted.iter().map(|l| l.language.as_str()).collect();
    assert_eq!(order, vec!["Rust", "Python", "C", "Go"]);
    assert_eq!(sorted[0].percentage, Decimal1(600));
}

#[test]
fn step_reports_requests_and_settings() {
    let mut interpreter = Interpreter::new();
    assert_eq!(interpreter.sort_order(), None);
    assert_eq!(interpreter.import_mode(), ProjectImportMode::Combine);

    match interpreter.step(&import_owned(true), Some("me")) {
        Some(ImportRequest::Owned { ignore_forks, token }) => {
            assert!(ignore_forks);
            assert_eq!(token, None);
        }
        other => panic!("unexpected request {:?}", other),
    }
    let with_token = ProjectParam::Import(ProjectImport::GitHub {
        ignore_forks: true,
        repos: Some(vec!["a/x".to_string()]),
        token: Some("t".to_string()),
    });
    match interpreter.step(&with_token, Some("me")) {
        Some(ImportRequest::Named { repos, token, viewer }) => {
            assert_eq!(repos, vec!["a/x"]);
            assert_eq!(token.as_deref(), Some("t"));
            assert_eq!(viewer.as_deref(), Some("me"));
        }
        other => panic!("unexpected request {:?}", other),
    }
    assert!(interpreter.step(&ProjectParam::Raw(project("r")), None).is_none());
    assert!(interpreter
        .step(&ProjectParam::Sort { order_by: ProjectSortOrder::Forks }, None)
        .is_none());
    assert!(interpreter
        .step(&ProjectParam::Sort { order_by: ProjectSortOrder::Stars }, None)
        .is_none());
    assert!(interpreter
        .step(&ProjectParam::ImportMode { import_mode: ProjectImportMode::Whitelist }, None)
        .is_none());
    assert_eq!(interpreter.sort_order(), Some(ProjectSortOrder::Stars));
    assert_eq!(interpreter.import_mode(), ProjectImportMode::Whitelist);
}

#[test]
fn import_then_manual_then_sort_by_stars() {
    let directives = vec![
        import_named(&["a/x", "a/y"]),
        ProjectParam::Raw(project("x")),
        ProjectParam::Sort { order_by: ProjectSortOrder::Stars },
    ];
    let mut interpreter = Interpreter::new();
    for directive in &directives {
        if interpreter.step(directive, Some("a")).is_some() {
            interpreter.absorb(vec![starred("x", 10, 0), starred("y", 50, 0)]);
        }
    }
    let projects = interpreter.finish(&directives);
    assert_eq!(names(&projects), vec!["y", "x"]);

    let again = assemble(&directives, vec![vec![starred("x", 10, 0), starred("y", 50, 0)]]);
    assert_eq!(names(&again), vec!["y", "x"]);
    assert_eq!(again[1].stars, Some(10));
}

#[test]
fn later_import_overwrites_earlier_one() {
    let directives = vec![import_owned(false), import_named(&["a/x"])];
    let projects = assemble(
        &directives,
        vec![vec![starred("x", 1, 1), starred("y", 2, 2)], vec![starred("x", 8, 8)]],
    );
    assert_eq!(names(&projects), vec!["x", "y"]);
    assert_eq!(projects[0].stars, Some(8));
}

#[test]
fn whitelist_keeps_manual_names_in_declaration_order() {
    let mut by_hand = project("y");
    by_hand.description = Some("mine".to_string());
    let directives = vec![
        ProjectParam::ImportMode { import_mode: ProjectImportMode::Whitelist },
        ProjectParam::Raw(by_hand),
        import_owned(false),
        ProjectParam::Raw(project("new")),
        ProjectParam::Raw(project("x")),
    ];
    let fetched = vec![vec![starred("x", 10, 0), starred("y", 50, 0), starred("z", 70, 0)]];
    let projects = assemble(&directives, fetched);
    assert_eq!(names(&projects), vec!["y", "new", "x"]);
    assert!(projects.len() <= 3);
    assert_eq!(projects[0].stars, Some(50));
    assert_eq!(projects[0].description.as_deref(), Some("mine"));
    assert_eq!(projects[1].stars, None);
}

#[test]
fn whitelist_with_explicit_order_is_sorted() {
    let directives = vec![
        ProjectParam::ImportMode { import_mode: ProjectImportMode::Whitelist },
        ProjectParam::Sort { order_by: ProjectSortOrder::Stars },
        ProjectParam::Raw(project("x")),
        ProjectParam::Raw(project("y")),
        import_owned(false),
    ];
    let fetched = vec![vec![starred("x", 10, 0), starred("y", 50, 0), starred("z", 70, 0)]];
    assert_eq!(names(&assemble(&directives, fetched)), vec!["y", "x"]);
}

#[test]
fn combine_without_order_keeps_first_seen_order() {
    let directives = vec![
        ProjectParam::Raw(project("m")),
        import_owned(false),
        ProjectParam::Raw(project("b")),
    ];
    let fetched = vec![vec![starred("a", 1, 0), starred("b", 2, 0)]];
    let projects = assemble(&directives, fetched);
    assert_eq!(names(&projects), vec!["a", "b", "m"]);
}

#[test]
fn combine_with_manual_order() {
    let directives = vec![
        import_owned(false),
        ProjectParam::Raw(project("b")),
        ProjectParam::Sort { order_by: ProjectSortOrder::Manual },
        ProjectParam::Raw(project("m")),
    ];
    let fetched = vec![vec![starred("a", 1, 0), starred("b", 2, 0), starred("c", 3, 0)]];
    let projects = assemble(&directives, fetched);
    assert_eq!(names(&projects), vec!["b", "m", "a", "c"]);
}

#[test]
fn last_setting_wins() {
    let directives = vec![
        ProjectParam::Sort { order_by: ProjectSortOrder::Stars },
        ProjectParam::ImportMode { import_mode: ProjectImportMode::Whitelist },
        import_owned(false),
        ProjectParam::Sort { order_by: ProjectSortOrder::Forks },
        ProjectParam::ImportMode { import_mode: ProjectImportMode::Combine },
    ];
    let fetched = vec![vec![starred("a", 9, 1), starred("b", 1, 9)]];
    assert_eq!(names(&assemble(&directives, fetched)), vec!["b", "a"]);
}

#[test]
fn manual_languages_are_sorted_when_inserted() {
    let mut by_hand = project("m");
    by_hand.languages = vec![lang("C", 100), lang("Rust", 900)];
    let projects = assemble(&vec![ProjectParam::Raw(by_hand)], Vec::new());
    assert_eq!(projects[0].languages[0].language, "Rust");
    assert_eq!(projects[0].languages[1].language, "C");
}

#[test]
fn import_without_answer_adds_nothing() {
    let directives = vec![import_owned(false), ProjectParam::Raw(project("m"))];
    assert_eq!(names(&assemble(&directives, Vec::new())), vec!["m"]);
}

#[test]
fn requests_are_listed_in_order() {
    let directives = vec![
        ProjectParam::Raw(project("m")),
        import_named(&["a/x", "b/y"]),
        ProjectParam::Sort { order_by: ProjectSortOrder::Stars },
        import_owned(true),
    ];
    let requests = import_requests(&directives, Some("viewer"));
    assert_eq!(requests.len(), 2);
    assert!(matches!(&requests[0], ImportRequest::Named { repos, viewer, .. }
        if repos.len() == 2 && viewer.as_deref() == Some("viewer")));
    assert!(matches!(&requests[1], ImportRequest::Owned { ignore_forks: true, token: None }));
}

#[test]
fn same_input_gives_same_list() {
    let directives = || {
        vec![
            import_owned(false),
            ProjectParam::Raw(project("b")),
            ProjectParam::Sort { order_by: ProjectSortOrder::StarsThenForks },
        ]
    };
    let fetched = || vec![vec![starred("a", 1, 0), starred("b", 1, 5), starred("c", 3, 0)]];
    let first = assemble(&directives(), fetched());
    let second = assemble(&directives(), fetched());
    assert_eq!(format!("{:?}", first), format!("{:?}", second));
    assert_eq!(names(&first), vec!["c", "b", "a"]);
}

#[test]
fn decimal_sums() {
    assert_eq!(Decimal1(975).add(Decimal1(25)), Decimal1(1000));
    let mut total = Decimal1(0);
    total.add_assign(Decimal1(333));
    total.add_assign(Decimal1(5));
    assert_eq!(total, Decimal1(338));
}
