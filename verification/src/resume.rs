//! The parts of a resume that are worked out before it is rendered: degrees,
//! contacts, and the lists of projects and publications.

use crate::citation::{dated_publications, Citation};
use crate::directive::{
    assembled, initial_state, last_raw_named, manual_records, normalized, requests_of,
    state_after, InterpreterView, ProjectParam, ProjectParamView,
};
use crate::policy::{keyed_projects, manual_rank, sorted_projects};
use crate::project::{Project, ProjectImportMode, ProjectSortOrder, ProjectView};
use crate::sorting::{items_of, lemma_sorted_stays, ordered};
use crate::store::{distinct_names, lemma_index_of_name_is, merge_all};
use crate::text::same_text;
use vstd::prelude::*;
use vstd::string::*;

verus! {

/// An academic degree.
#[derive(Clone, Copy, Debug, PartialEq, Eq, Structural)]
pub enum Degree {
    BS,
    MS,
    PhD,
}

impl Degree {
    /// The degree written out.
    pub open spec fn written_out(self) -> Seq<char> {
        match self {
            Degree::BS => "Bachelor of Science"@,
            Degree::MS => "Master of Science"@,
            Degree::PhD => "PhD"@,
        }
    }

    /// The degree as it is shown.
    pub fn to_resume_string(&self) -> (text: String)
        ensures
            text@ == self.written_out(),
    {
        match self {
            Degree::BS => String::from_str("Bachelor of Science"),
            Degree::MS => String::from_str("Master of Science"),
            Degree::PhD => String::from_str("PhD"),
        }
    }
}

/// A way to reach the person.
#[derive(Debug)]
pub struct Contact {
    /// The kind of contact, such as `github`, `email` or `blog`.
    pub type_: String,
    pub value: String,
}

/// A contact as it is shown.
#[derive(Debug)]
pub struct ContactParams {
    pub value: String,
    /// The icon of the kind of contact, where the kind has one.
    pub icon: Option<String>,
    /// The address that the contact links to, where the kind has one.
    pub link: Option<String>,
}

/// The mathematical content of a [`ContactParams`].
pub struct ContactParamsView {
    pub value: Seq<char>,
    pub icon: Option<Seq<char>>,
    pub link: Option<Seq<char>>,
}

impl View for ContactParams {
    type V = ContactParamsView;

    open spec fn view(&self) -> ContactParamsView {
        ContactParamsView {
            value: self.value@,
            icon: self.icon.deep_view(),
            link: self.link.deep_view(),
        }
    }
}

impl DeepView for ContactParams {
    type V = ContactParamsView;

    open spec fn deep_view(&self) -> ContactParamsView {
        self@
    }
}

/// The address that a contact links to: the account's page for `github`,
/// a mail address for `email`, the value itself for `blog`, and none for
/// any other kind.
pub open spec fn contact_link(kind: Seq<char>, value: Seq<char>) -> Option<Seq<char>> {
    if kind == "github"@ {
        Some("https://github.com/"@ + value)
    } else if kind == "email"@ {
        Some("mailto:"@ + value)
    } else if kind == "blog"@ {
        Some(value)
    } else {
        None
    }
}

/// The icon of a kind of contact.
pub open spec fn contact_icon(kind: Seq<char>) -> Option<Seq<char>> {
    if kind == "github"@ {
        Some("icons/github.svg"@)
    } else if kind == "email"@ {
        Some("icons/mail.svg"@)
    } else if kind == "blog"@ {
        Some("icons/blog.svg"@)
    } else {
        None
    }
}

/// A contact as it is shown.
pub open spec fn shown_contact(contact: Contact) -> ContactParamsView {
    ContactParamsView {
        value: contact.value@,
        icon: contact_icon(contact.type_@),
        link: contact_link(contact.type_@, contact.value@),
    }
}

/// Works out how one contact is shown.
pub fn contact_param(contact: &Contact) -> (shown: ContactParams)
    ensures
        shown@ == shown_contact(*contact),
{
    let kind = contact.type_.as_str();
    let value = contact.value.as_str();
    if same_text(kind, "github") {
        let mut link = String::from_str("https://github.com/");
        link.append(value);
        ContactParams {
            value: contact.value.clone(),
            icon: Some(String::from_str("icons/github.svg")),
            link: Some(link),
        }
    } else if same_text(kind, "email") {
        let mut link = String::from_str("mailto:");
        link.append(value);
        ContactParams {
            value: contact.value.clone(),
            icon: Some(String::from_str("icons/mail.svg")),
            link: Some(link),
        }
    } else if same_text(kind, "blog") {
        ContactParams {
            value: contact.value.clone(),
            icon: Some(String::from_str("icons/blog.svg")),
            link: Some(contact.value.clone()),
        }
    } else {
        ContactParams { value: contact.value.clone(), icon: None, link: None }
    }
}

/// Works out how the contacts are shown, in order.
pub fn contact_params(contacts: &Vec<Contact>) -> (shown: Vec<ContactParams>)
    ensures
        shown.len() == contacts.len(),
        forall|i: int|
            0 <= i < shown.len() ==> (#[trigger] shown[i])@ == shown_contact(contacts[i]),
{
    let mut shown: Vec<ContactParams> = Vec::new();
    let mut i: usize = 0;
    while i < contacts.len()
        invariant
            i <= contacts.len(),
            shown.len() == i,
            forall|j: int| 0 <= j < i ==> (#[trigger] shown[j])@ == shown_contact(contacts[j]),
        decreases contacts.len() - i,
    {
        shown.push(contact_param(&contacts[i]));
        i += 1;
    }
    shown
}

/// The place of the first contact of kind `github`, or the number of
/// contacts where there is none.
pub open spec fn github_contact(contacts: Seq<Contact>) -> int
    decreases contacts.len(),
{
    if contacts.len() == 0 || contacts[0].type_@ == "github"@ {
        0
    } else {
        1 + github_contact(contacts.drop_first())
    }
}

/// The person's account name: the value of the first contact of kind
/// `github`, if there is one.
pub fn github_username(contacts: &Vec<Contact>) -> (name: Option<&str>)
    ensures
        match name {
            Some(n) => github_contact(contacts@) < contacts.len() && n@ == contacts[github_contact(
                contacts@,
            )].value@,
            None => github_contact(contacts@) == contacts.len(),
        },
{
    let mut i: usize = 0;
    assert(contacts@.subrange(0, contacts.len() as int) =~= contacts@);
    while i < contacts.len()
        invariant
            i <= contacts.len(),
            github_contact(contacts@) == i + github_contact(
                contacts@.subrange(i as int, contacts.len() as int),
            ),
        decreases contacts.len() - i,
    {
        let ghost rest = contacts@.subrange(i as int, contacts.len() as int);
        assert(rest[0] == contacts[i as int]);
        if same_text(contacts[i].type_.as_str(), "github") {
            return Some(contacts[i].value.as_str());
        }
        assert(rest.drop_first() =~= contacts@.subrange(i + 1, contacts.len() as int));
        i += 1;
    }
    None
}

/// The hand-written records among the directives, in order.
pub open spec fn raw_projects(directives: Seq<ProjectParamView>) -> Seq<ProjectView>
    decreases directives.len(),
{
    if directives.len() == 0 {
        Seq::empty()
    } else {
        match directives.last() {
            ProjectParamView::Raw(p) => raw_projects(directives.drop_last()).push(p),
            _ => raw_projects(directives.drop_last()),
        }
    }
}

/// The projects that a resume lists: the project records among its
/// directives, in order.
pub fn listed_projects(directives: &Vec<ProjectParam>) -> (projects: Vec<Project>)
    ensures
        projects.deep_view() == raw_projects(directives.deep_view()),
{
    let ghost all = directives.deep_view();
    let mut projects: Vec<Project> = Vec::new();
    let mut i: usize = 0;
    assert(all.subrange(0, 0) =~= Seq::<ProjectParamView>::empty());
    assert(projects.deep_view() =~= Seq::<ProjectView>::empty());
    while i < directives.len()
        invariant
            i <= directives.len(),
            all == directives.deep_view(),
            projects.deep_view() == raw_projects(all.subrange(0, i as int)),
        decreases directives.len() - i,
    {
        let ghost next = all.subrange(0, i + 1);
        let ghost before = projects.deep_view();
        proof {
            assert(next.drop_last() =~= all.subrange(0, i as int));
            assert(next.last() == directives[i as int]@);
        }
        match &directives[i] {
            ProjectParam::Raw(p) => {
                projects.push(p.clone());
                assert(projects.deep_view() =~= before.push(p@));
            },
            _ => {},
        }
        i += 1;
    }
    assert(all.subrange(0, all.len() as int) =~= all);
    projects
}

/// The project records as directives, in order.
pub open spec fn as_records(projects: Seq<ProjectView>) -> Seq<ProjectParamView> {
    projects.map_values(|p: ProjectView| ProjectParamView::Raw(p))
}

/// The directives that stand for a finished project list: each project as
/// a record, then the directive that keeps them in this order.
pub open spec fn settled(projects: Seq<ProjectView>) -> Seq<ProjectParamView> {
    as_records(projects).push(ProjectParamView::Sort { order_by: ProjectSortOrder::Manual })
}

/// Turns a finished project list into the directives that stand for it, so
/// that reading them again gives the same list in the same order.
pub fn as_directives(projects: Vec<Project>) -> (directives: Vec<ProjectParam>)
    ensures
        directives.deep_view() == settled(projects.deep_view()),
{
    let ghost all = projects@;
    let mut pending = crate::sorting::reversed(projects);
    let mut directives: Vec<ProjectParam> = Vec::new();
    while pending.len() > 0
        invariant
            pending.len() + directives.len() == all.len(),
            pending@ == all.reverse().subrange(0, pending.len() as int),
            forall|j: int|
                0 <= j < directives.len() ==> (#[trigger] directives[j])@ == ProjectParamView::Raw(
                    all[j]@,
                ),
        decreases pending.len(),
    {
        let project = pending.pop().unwrap();
        directives.push(ProjectParam::Raw(project));
        assert(pending@ =~= all.reverse().subrange(0, pending.len() as int));
    }
    directives.push(ProjectParam::Sort { order_by: ProjectSortOrder::Manual });
    assert(directives.deep_view() =~= settled(projects.deep_view()));
    directives
}

proof fn lemma_records_leave_state(projects: Seq<ProjectView>)
    ensures
        state_after(as_records(projects), Seq::empty()) == initial_state(),
        requests_of(as_records(projects), None).len() == 0,
    decreases projects.len(),
{
    if projects.len() > 0 {
        assert(as_records(projects).drop_last() =~= as_records(projects.drop_last()));
        lemma_records_leave_state(projects.drop_last());
    }
}

proof fn lemma_records_merge_as_written(projects: Seq<ProjectView>)
    requires
        forall|i: int|
            0 <= i < projects.len() ==> normalized(#[trigger] projects[i]) == projects[i],
    ensures
        manual_records(as_records(projects)) == projects,
    decreases projects.len(),
{
    if projects.len() == 0 {
        assert(manual_records(as_records(projects)) =~= projects);
    } else {
        let head = projects.drop_last();
        assert(as_records(projects).drop_last() =~= as_records(head));
        assert forall|i: int| 0 <= i < head.len() implies normalized(#[trigger] head[i])
            == head[i] by {
            assert(head[i] == projects[i]);
        }
        lemma_records_merge_as_written(head);
        assert(normalized(projects[projects.len() - 1]) == projects[projects.len() - 1]);
        assert(head.push(projects.last()) =~= projects);
    }
}

proof fn lemma_merge_into_empty(projects: Seq<ProjectView>)
    requires
        distinct_names(projects),
    ensures
        merge_all(Seq::empty(), projects) == projects,
    decreases projects.len(),
{
    if projects.len() == 0 {
        assert(merge_all(Seq::empty(), projects) =~= projects);
    } else {
        let head = projects.drop_last();
        assert forall|i: int, j: int| 0 <= i < j < head.len() implies (#[trigger] head[i]).name != (
        #[trigger] head[j]).name by {
            assert(head[i] == projects[i] && head[j] == projects[j]);
        }
        lemma_merge_into_empty(head);
        assert forall|j: int| 0 <= j < head.len() implies (#[trigger] head[j]).name
            != projects.last().name by {
            assert(head[j] == projects[j]);
            assert(projects[j].name != projects[projects.len() - 1].name);
        }
        lemma_index_of_name_is(head, projects.last().name, head.len() as int);
        assert(head.push(projects.last()) =~= projects);
    }
}

proof fn lemma_rank_among_records(projects: Seq<ProjectView>, i: int)
    requires
        distinct_names(projects),
        0 <= i < projects.len(),
    ensures
        last_raw_named(as_records(projects), projects[i].name) == i,
    decreases projects.len(),
{
    let head = projects.drop_last();
    assert(as_records(projects).drop_last() =~= as_records(head));
    if i < projects.len() - 1 {
        assert(projects[i].name != projects[projects.len() - 1].name);
        assert forall|a: int, b: int| 0 <= a < b < head.len() implies (#[trigger] head[a]).name != (
        #[trigger] head[b]).name by {
            assert(head[a] == projects[a] && head[b] == projects[b]);
        }
        assert(head[i] == projects[i]);
        lemma_rank_among_records(head, i);
    }
}

/// A finished project list is kept by its directives: reading the directives
/// that stand for it, with nothing fetched, gives the same list in the same
/// order. This holds for a list without a repeated name whose records have
/// their language shares sorted.
pub proof fn lemma_settled_list_is_kept(projects: Seq<ProjectView>)
    requires
        projects.len() < usize::MAX,
        distinct_names(projects),
        forall|i: int|
            0 <= i < projects.len() ==> normalized(#[trigger] projects[i]) == projects[i],
    ensures
        assembled(settled(projects), Seq::empty()) == projects,
{
    let d = settled(projects);
    let records = as_records(projects);
    assert(d.drop_last() =~= records);
    lemma_records_leave_state(projects);
    lemma_records_merge_as_written(projects);
    lemma_merge_into_empty(projects);
    let state = state_after(d, Seq::empty());
    assert(state == InterpreterView {
        store: Seq::empty(),
        sort_order: Some(ProjectSortOrder::Manual),
        import_mode: ProjectImportMode::Combine,
    });
    assert(manual_records(d) == projects);
    let keyed = keyed_projects(projects, ProjectSortOrder::Manual, d);
    assert forall|i: int| 0 <= i < projects.len() implies manual_rank(d, (#[trigger] projects[i]).name)
        == i by {
        lemma_rank_among_records(projects, i);
    }
    assert(ordered(keyed)) by {
        assert forall|i: int, j: int| 0 <= i < j < keyed.len() implies !(#[trigger] keyed[j]).key.precedes(
            (#[trigger] keyed[i]).key,
        ) by {
            assert(manual_rank(d, projects[i].name) == i);
            assert(manual_rank(d, projects[j].name) == j);
        }
    }
    lemma_sorted_stays(keyed);
    assert(items_of(keyed) =~= projects);
    assert(sorted_projects(projects, ProjectSortOrder::Manual, d) == projects);
}

/// The publications that a resume lists: those that are display text with
/// a year, each as its text and year, in order.
pub fn listed_publications(publications: &Vec<Citation>) -> (list: Vec<(String, Option<u32>)>)
    ensures
        list.deep_view() == dated_publications(publications@),
{
    let mut list: Vec<(String, Option<u32>)> = Vec::new();
    let mut i: usize = 0;
    assert(publications@.subrange(0, 0) =~= Seq::<Citation>::empty());
    assert(list.deep_view() =~= Seq::<(Seq<char>, Option<u32>)>::empty());
    while i < publications.len()
        invariant
            i <= publications.len(),
            list.deep_view() == dated_publications(publications@.subrange(0, i as int)),
        decreases publications.len() - i,
    {
        let ghost next = publications@.subrange(0, i + 1);
        let ghost before = list.deep_view();
        proof {
            assert(next.drop_last() =~= publications@.subrange(0, i as int));
            assert(next.last() == publications[i as int]);
        }
        match &publications[i] {
            Citation::RawWithYear { text, year } => {
                list.push((text.clone(), *year));
                assert(list.deep_view() =~= before.push((text@, *year)));
            },
            _ => {},
        }
        i += 1;
    }
    assert(publications@.subrange(0, publications.len() as int) =~= publications@);
    list
}

} // verus!
