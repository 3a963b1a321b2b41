//! Project records as they are made from the repositories that the project
//! source lists.

use crate::policy::{sort_languages, sorted_languages};
use crate::project::{clone_optional_text, LanguageStat, Project, ProjectRole, ProjectView};
use crate::text::{find_char, first_index, same_text};
use vstd::prelude::*;
use vstd::string::*;

verus! {

/// What the project source tells of one repository.
#[derive(Debug)]
pub struct Repository {
    pub name: String,
    pub description: Option<String>,
    /// The address of the repository's page.
    pub url: Option<String>,
    pub stars: Option<u32>,
    pub forks: Option<u32>,
    /// Whether the repository is a fork of another.
    pub fork: Option<bool>,
    pub archived: Option<bool>,
    /// The account that owns the repository.
    pub owner: Option<String>,
    pub topics: Option<Vec<String>>,
    /// The share of each language, in no particular order.
    pub languages: Vec<LanguageStat>,
}

/// Owner and name of a repository written as owner, slash, name: what
/// stands before the first slash, and what stands between it and the second
/// slash or the end. A text without a slash names no repository.
pub open spec fn repo_parts(path: Seq<char>) -> Option<(Seq<char>, Seq<char>)> {
    let i = first_index(path, '/');
    if i < path.len() {
        let rest = path.subrange(i + 1, path.len() as int);
        Some((path.subrange(0, i), rest.subrange(0, first_index(rest, '/'))))
    } else {
        None
    }
}

/// Splits the name of a repository into owner and name.
pub fn split_repo_path(path: &str) -> (parts: Option<(String, String)>)
    ensures
        parts.deep_view() == repo_parts(path@),
{
    let n = path.unicode_len();
    let i = find_char(path, '/', 0);
    assert(path@.subrange(0, n as int) =~= path@);
    if i >= n {
        return None;
    }
    let j = find_char(path, '/', i + 1);
    let owner = String::from_str(path.substring_char(0, i));
    let name = String::from_str(path.substring_char(i + 1, j));
    proof {
        let rest = path@.subrange(i + 1, n as int);
        assert(rest.subrange(0, first_index(rest, '/')) =~= path@.subrange(i + 1, j as int));
    }
    Some((owner, name))
}

/// The repositories that a list of names names, in order. A name without a
/// slash is passed over.
pub open spec fn named_repos(names: Seq<Seq<char>>) -> Seq<(Seq<char>, Seq<char>)>
    decreases names.len(),
{
    if names.len() == 0 {
        Seq::empty()
    } else {
        let rest = named_repos(names.drop_last());
        match repo_parts(names.last()) {
            Some(parts) => rest.push(parts),
            None => rest,
        }
    }
}

/// Splits each name of a list into owner and name, passing over the names
/// that name no repository.
pub fn split_repo_paths(names: &Vec<String>) -> (repos: Vec<(String, String)>)
    ensures
        repos.deep_view() == named_repos(names.deep_view()),
{
    let ghost all = names.deep_view();
    let mut repos: Vec<(String, String)> = Vec::new();
    let mut i: usize = 0;
    assert(all.subrange(0, 0) =~= Seq::<Seq<char>>::empty());
    assert(repos.deep_view() =~= Seq::<(Seq<char>, Seq<char>)>::empty());
    while i < names.len()
        invariant
            i <= names.len(),
            all == names.deep_view(),
            repos.deep_view() == named_repos(all.subrange(0, i as int)),
        decreases names.len() - i,
    {
        let ghost next = all.subrange(0, i + 1);
        let ghost before = repos.deep_view();
        proof {
            assert(next.drop_last() =~= all.subrange(0, i as int));
            assert(next.last() == names[i as int]@);
        }
        match split_repo_path(names[i].as_str()) {
            Some(parts) => {
                let ghost view = parts.deep_view();
                repos.push(parts);
                assert(repos.deep_view() =~= before.push(view));
            },
            None => {},
        }
        i += 1;
    }
    assert(all.subrange(0, all.len() as int) =~= all);
    repos
}

/// The role of the person in a repository: owner where the repository
/// belongs to the person's account, contributor else.
pub open spec fn role_of(owner: Seq<char>, viewer: Seq<char>) -> ProjectRole {
    if owner == viewer {
        ProjectRole::Owner
    } else {
        ProjectRole::Contributor
    }
}

/// Assigns the role of the person in a repository.
pub fn assign_role(owner: &str, viewer: &str) -> (role: ProjectRole)
    ensures
        role == role_of(owner@, viewer@),
{
    if same_text(owner, viewer) {
        ProjectRole::Owner
    } else {
        ProjectRole::Contributor
    }
}

/// An optional count, widened.
pub open spec fn widened(count: Option<u32>) -> Option<u64> {
    match count {
        Some(n) => Some(n as u64),
        None => None,
    }
}

/// Whether a repository is active: it is unless it is archived. Unknown
/// where that is not told.
pub open spec fn activity(archived: Option<bool>) -> Option<bool> {
    match archived {
        Some(a) => Some(!a),
        None => None,
    }
}

/// The project record of a repository: what the source tells, the language
/// shares sorted with the largest first, and the given owner and role.
pub open spec fn project_of(
    repo: Repository,
    owner: Option<Seq<char>>,
    role: ProjectRole,
) -> ProjectView {
    ProjectView {
        name: repo.name@,
        description: repo.description.deep_view(),
        contributions: None,
        url: repo.url.deep_view(),
        stars: widened(repo.stars),
        forks: widened(repo.forks),
        active: activity(repo.archived),
        owner,
        commits: None,
        additions: None,
        deletions: None,
        languages: sorted_languages(repo.languages.deep_view()),
        tags: match repo.topics {
            Some(topics) => topics.deep_view(),
            None => Seq::empty(),
        },
        role: Some(role),
    }
}

/// The record of a repository among the account's own: the person is its
/// owner, and the owner's name is empty where the source tells none.
pub open spec fn owned_project_of(repo: Repository) -> ProjectView {
    project_of(
        repo,
        Some(
            match repo.owner {
                Some(login) => login@,
                None => Seq::empty(),
            },
        ),
        ProjectRole::Owner,
    )
}

/// The role of the person in a repository that was asked for by name: owner
/// where the repository belongs to the person's account, contributor where
/// it belongs to another or its owner is not told.
pub open spec fn named_role(owner: Option<Seq<char>>, viewer: Seq<char>) -> ProjectRole {
    match owner {
        Some(login) => role_of(login, viewer),
        None => ProjectRole::Contributor,
    }
}

/// The record of a repository that was asked for by name, seen from the
/// account `viewer`.
pub open spec fn named_project_of(repo: Repository, viewer: Seq<char>) -> ProjectView {
    project_of(repo, repo.owner.deep_view(), named_role(repo.owner.deep_view(), viewer))
}

fn widen(count: Option<u32>) -> (wide: Option<u64>)
    ensures
        wide == widened(count),
{
    match count {
        Some(n) => Some(n as u64),
        None => None,
    }
}

fn make_project(repo: Repository, owner: Option<String>, role: ProjectRole) -> (project: Project)
    ensures
        project@ == project_of(repo, owner.deep_view(), role),
{
    let Repository {
        name,
        description,
        url,
        stars,
        forks,
        fork: _,
        archived,
        owner: _,
        topics,
        languages,
    } = repo;
    let tags = match topics {
        Some(topics) => topics,
        None => Vec::new(),
    };
    let active = match archived {
        Some(a) => Some(!a),
        None => None,
    };
    let project = Project {
        name,
        description,
        contributions: None,
        url,
        stars: widen(stars),
        forks: widen(forks),
        active,
        owner,
        commits: None,
        additions: None,
        deletions: None,
        languages: sort_languages(languages),
        tags,
        role: Some(role),
    };
    assert(project@.tags =~= project_of(repo, owner.deep_view(), role).tags);
    project
}

/// Makes the project record of one of the account's own repositories.
pub fn owned_project(repo: Repository) -> (project: Project)
    ensures
        project@ == owned_project_of(repo),
{
    let owner = match &repo.owner {
        Some(login) => login.clone(),
        None => String::new(),
    };
    make_project(repo, Some(owner), ProjectRole::Owner)
}

/// Makes the project record of a repository that was asked for by name.
pub fn named_project(repo: Repository, viewer: &str) -> (project: Project)
    ensures
        project@ == named_project_of(repo, viewer@),
{
    let owner = clone_optional_text(&repo.owner);
    let role = match &repo.owner {
        Some(login) => assign_role(login.as_str(), viewer),
        None => ProjectRole::Contributor,
    };
    make_project(repo, owner, role)
}

/// Whether a repository of the account is listed: forks are not where they
/// are to be ignored. A repository of which it is not told counts as no
/// fork.
pub open spec fn is_listed(ignore_forks: bool, fork: Option<bool>) -> bool {
    !(ignore_forks && fork == Some(true))
}

/// The records of the account's own repositories, in order, without the
/// forks where they are to be ignored.
pub open spec fn owned_projects_of(repos: Seq<Repository>, ignore_forks: bool) -> Seq<ProjectView>
    decreases repos.len(),
{
    if repos.len() == 0 {
        Seq::empty()
    } else {
        let rest = owned_projects_of(repos.drop_last(), ignore_forks);
        if is_listed(ignore_forks, repos.last().fork) {
            rest.push(owned_project_of(repos.last()))
        } else {
            rest
        }
    }
}

/// Makes the project records of the account's own repositories.
pub fn owned_projects(repos: Vec<Repository>, ignore_forks: bool) -> (projects: Vec<Project>)
    ensures
        projects.deep_view() == owned_projects_of(repos@, ignore_forks),
{
    let ghost all = repos@;
    let mut pending = crate::sorting::reversed(repos);
    let mut projects: Vec<Project> = Vec::new();
    assert(all.subrange(0, 0) =~= Seq::<Repository>::empty());
    assert(projects.deep_view() =~= Seq::<ProjectView>::empty());
    while pending.len() > 0
        invariant
            pending.len() <= all.len(),
            pending@ == all.reverse().subrange(0, pending.len() as int),
            projects.deep_view() == owned_projects_of(
                all.subrange(0, all.len() - pending.len()),
                ignore_forks,
            ),
        decreases pending.len(),
    {
        let ghost done = all.subrange(0, all.len() - pending.len());
        let ghost before = projects.deep_view();
        let repo = pending.pop().unwrap();
        let ghost next = all.subrange(0, all.len() - pending.len());
        proof {
            assert(next.drop_last() =~= done);
            assert(next.last() == repo);
            assert(pending@ =~= all.reverse().subrange(0, pending.len() as int));
        }
        let skip = ignore_forks && match repo.fork {
            Some(fork) => fork,
            None => false,
        };
        if !skip {
            let project = owned_project(repo);
            let ghost view = project@;
            projects.push(project);
            assert(projects.deep_view() =~= before.push(view));
        }
    }
    assert(all.subrange(0, all.len() as int) =~= all);
    projects
}

} // verus!
