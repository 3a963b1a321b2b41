//! Project records and the configuration directives that shape the project
//! list.

use vstd::prelude::*;

verus! {

/// How fetched and hand-written project records are combined.
#[derive(Clone, Copy, Debug, PartialEq, Eq, Structural)]
pub enum ProjectImportMode {
    /// Only the projects that were written by hand survive, in the order in
    /// which they were written.
    Whitelist,
    /// Fetched and hand-written projects are both kept.
    Combine,
}

impl Default for ProjectImportMode {
    fn default() -> (mode: Self)
        ensures
            mode == ProjectImportMode::Combine,
    {
        ProjectImportMode::Combine
    }
}

/// The order of the final project list.
#[derive(Clone, Copy, Debug, PartialEq, Eq, Structural)]
pub enum ProjectSortOrder {
    /// Most stars first.
    Stars,
    /// Most forks first.
    Forks,
    /// Most stars first, ties broken by forks.
    StarsThenForks,
    /// Most forks first, ties broken by stars.
    ForksThenStars,
    /// The order in which the projects were written by hand.
    Manual,
}

/// What the person did for a project.
#[derive(Clone, Copy, Debug, PartialEq, Eq, Structural)]
pub enum ProjectRole {
    Owner,
    Maintainer,
    Contributor,
}

impl ProjectRole {
    /// The role's name as it is displayed.
    pub fn label(&self) -> (text: &'static str)
        ensures
            text@ == (match *self {
                ProjectRole::Owner => "Owner"@,
                ProjectRole::Maintainer => "Maintainer"@,
                ProjectRole::Contributor => "Contributor"@,
            }),
    {
        match self {
            ProjectRole::Owner => "Owner",
            ProjectRole::Maintainer => "Maintainer",
            ProjectRole::Contributor => "Contributor",
        }
    }
}

/// A number with one decimal digit, stored as its count of tenths.
#[derive(Clone, Copy, Debug, PartialEq, Eq, Structural)]
pub struct Decimal1(pub u64);

impl Decimal1 {
    /// The sum of two numbers. The sum has to fit.
    pub fn add(self, rhs: Decimal1) -> (sum: Decimal1)
        requires
            self.0 + rhs.0 <= u64::MAX,
        ensures
            sum.0 == self.0 + rhs.0,
    {
        Decimal1(self.0 + rhs.0)
    }

    /// Adds a number to this one. The sum has to fit.
    pub fn add_assign(&mut self, rhs: Decimal1)
        requires
            old(self).0 + rhs.0 <= u64::MAX,
        ensures
            final(self).0 == old(self).0 + rhs.0,
    {
        self.0 = self.0 + rhs.0;
    }
}

/// The share of one programming language in a project.
#[derive(Debug)]
pub struct LanguageStat {
    pub language: String,
    pub percentage: Decimal1,
}

/// The mathematical content of a [`LanguageStat`].
pub struct LanguageStatView {
    pub language: Seq<char>,
    /// The share in tenths of a percent.
    pub tenths: nat,
}

impl View for LanguageStat {
    type V = LanguageStatView;

    open spec fn view(&self) -> LanguageStatView {
        LanguageStatView { language: self.language@, tenths: self.percentage.0 as nat }
    }
}

impl DeepView for LanguageStat {
    type V = LanguageStatView;

    open spec fn deep_view(&self) -> LanguageStatView {
        self@
    }
}

impl Clone for LanguageStat {
    fn clone(&self) -> (copy: Self)
        ensures
            copy@ == self@,
    {
        LanguageStat { language: self.language.clone(), percentage: self.percentage }
    }
}

/// One project of the person: fetched, written by hand, or both merged.
#[derive(Debug)]
pub struct Project {
    /// The name identifies the project when records are merged.
    pub name: String,
    pub description: Option<String>,
    pub contributions: Option<String>,
    pub url: Option<String>,
    pub stars: Option<u64>,
    pub forks: Option<u64>,
    pub active: Option<bool>,
    pub owner: Option<String>,
    pub commits: Option<u64>,
    pub additions: Option<u64>,
    pub deletions: Option<u64>,
    pub languages: Vec<LanguageStat>,
    pub tags: Vec<String>,
    pub role: Option<ProjectRole>,
}

/// The mathematical content of a [`Project`].
pub struct ProjectView {
    pub name: Seq<char>,
    pub description: Option<Seq<char>>,
    pub contributions: Option<Seq<char>>,
    pub url: Option<Seq<char>>,
    pub stars: Option<u64>,
    pub forks: Option<u64>,
    pub active: Option<bool>,
    pub owner: Option<Seq<char>>,
    pub commits: Option<u64>,
    pub additions: Option<u64>,
    pub deletions: Option<u64>,
    pub languages: Seq<LanguageStatView>,
    pub tags: Seq<Seq<char>>,
    pub role: Option<ProjectRole>,
}

impl View for Project {
    type V = ProjectView;

    open spec fn view(&self) -> ProjectView {
        ProjectView {
            name: self.name@,
            description: self.description.deep_view(),
            contributions: self.contributions.deep_view(),
            url: self.url.deep_view(),
            stars: self.stars,
            forks: self.forks,
            active: self.active,
            owner: self.owner.deep_view(),
            commits: self.commits,
            additions: self.additions,
            deletions: self.deletions,
            languages: self.languages.deep_view(),
            tags: self.tags.deep_view(),
            role: self.role,
        }
    }
}

impl DeepView for Project {
    type V = ProjectView;

    open spec fn deep_view(&self) -> ProjectView {
        self@
    }
}

/// Copies an optional text.
pub fn clone_optional_text(text: &Option<String>) -> (copy: Option<String>)
    ensures
        copy.deep_view() == text.deep_view(),
{
    match text {
        Some(t) => Some(t.clone()),
        None => None,
    }
}

/// Copies a list of texts.
pub fn clone_texts(texts: &Vec<String>) -> (copy: Vec<String>)
    ensures
        copy.deep_view() == texts.deep_view(),
{
    let mut copy: Vec<String> = Vec::new();
    let mut i: usize = 0;
    while i < texts.len()
        invariant
            i <= texts.len(),
            copy.len() == i,
            forall|j: int| 0 <= j < i ==> copy[j]@ == texts[j]@,
        decreases texts.len() - i,
    {
        copy.push(texts[i].clone());
        i += 1;
    }
    assert(copy.deep_view() =~= texts.deep_view());
    copy
}

/// Copies a list of language shares.
pub fn clone_languages(languages: &Vec<LanguageStat>) -> (copy: Vec<LanguageStat>)
    ensures
        copy.deep_view() == languages.deep_view(),
{
    let mut copy: Vec<LanguageStat> = Vec::new();
    let mut i: usize = 0;
    while i < languages.len()
        invariant
            i <= languages.len(),
            copy.len() == i,
            forall|j: int| 0 <= j < i ==> copy[j]@ == languages[j]@,
        decreases languages.len() - i,
    {
        copy.push(languages[i].clone());
        i += 1;
    }
    assert(copy.deep_view() =~= languages.deep_view());
    copy
}

impl Clone for Project {
    fn clone(&self) -> (copy: Self)
        ensures
            copy@ == self@,
    {
        Project {
            name: self.name.clone(),
            description: clone_optional_text(&self.description),
            contributions: clone_optional_text(&self.contributions),
            url: clone_optional_text(&self.url),
            stars: self.stars,
            forks: self.forks,
            active: self.active,
            owner: clone_optional_text(&self.owner),
            commits: self.commits,
            additions: self.additions,
            deletions: self.deletions,
            languages: clone_languages(&self.languages),
            tags: clone_texts(&self.tags),
            role: self.role,
        }
    }
}

} // verus!
