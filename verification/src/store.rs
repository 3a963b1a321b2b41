//! The merge store: project records keyed by name, in the order in which
//! their names were first seen.

use crate::project::{clone_languages, clone_optional_text, clone_texts, Project, ProjectView};
use vstd::prelude::*;

verus! {

/// The place of the first record named `name` in `s`, or the length of `s`
/// where no record has that name.
pub open spec fn index_of_name(s: Seq<ProjectView>, name: Seq<char>) -> int
    decreases s.len(),
{
    if s.len() == 0 || s[0].name == name {
        0
    } else {
        1 + index_of_name(s.drop_first(), name)
    }
}

/// Whether a record named `name` is in `s`.
pub open spec fn has_name(s: Seq<ProjectView>, name: Seq<char>) -> bool {
    index_of_name(s, name) < s.len()
}

/// No two records share a name.
pub open spec fn distinct_names(s: Seq<ProjectView>) -> bool {
    forall|i: int, j: int| 0 <= i < j < s.len() ==> (#[trigger] s[i]).name != (#[trigger] s[j]).name
}

/// The store after a fetched record is put in: it takes the place of the
/// record with its name, or the end of the list where there is none.
pub open spec fn put(s: Seq<ProjectView>, p: ProjectView) -> Seq<ProjectView> {
    let i = index_of_name(s, p.name);
    if i < s.len() {
        s.update(i, p)
    } else {
        s.push(p)
    }
}

/// The store after each record of `batch` is put in, in order.
pub open spec fn put_all(s: Seq<ProjectView>, batch: Seq<ProjectView>) -> Seq<ProjectView>
    decreases batch.len(),
{
    if batch.len() == 0 {
        s
    } else {
        put(put_all(s, batch.drop_last()), batch.last())
    }
}

/// A fetched record after a hand-written record of the same name is merged
/// into it: the url, description, owner, contribution summary and role that
/// the hand-written record sets, and its tags if it has any, replace the
/// fetched ones. Everything else stays as fetched.
pub open spec fn merged(fetched: ProjectView, manual: ProjectView) -> ProjectView {
    ProjectView {
        name: fetched.name,
        description: if manual.description is Some {
            manual.description
        } else {
            fetched.description
        },
        contributions: if manual.contributions is Some {
            manual.contributions
        } else {
            fetched.contributions
        },
        url: if manual.url is Some {
            manual.url
        } else {
            fetched.url
        },
        stars: fetched.stars,
        forks: fetched.forks,
        active: fetched.active,
        owner: if manual.owner is Some {
            manual.owner
        } else {
            fetched.owner
        },
        commits: fetched.commits,
        additions: fetched.additions,
        deletions: fetched.deletions,
        languages: fetched.languages,
        tags: if manual.tags.len() > 0 {
            manual.tags
        } else {
            fetched.tags
        },
        role: if manual.role is Some {
            manual.role
        } else {
            fetched.role
        },
    }
}

/// The store after a hand-written record is merged in: merged into the
/// record with its name, or added at the end as it is where there is none.
pub open spec fn merge(s: Seq<ProjectView>, manual: ProjectView) -> Seq<ProjectView> {
    let i = index_of_name(s, manual.name);
    if i < s.len() {
        s.update(i, merged(s[i], manual))
    } else {
        s.push(manual)
    }
}

/// The store after each record of `manuals` is merged in, in order.
pub open spec fn merge_all(s: Seq<ProjectView>, manuals: Seq<ProjectView>) -> Seq<ProjectView>
    decreases manuals.len(),
{
    if manuals.len() == 0 {
        s
    } else {
        merge(merge_all(s, manuals.drop_last()), manuals.last())
    }
}

/// The records that `names` select from the store, one for each name that
/// the store has, in the order of `names`.
pub open spec fn whitelist(s: Seq<ProjectView>, names: Seq<Seq<char>>) -> Seq<ProjectView>
    decreases names.len(),
{
    if names.len() == 0 {
        Seq::empty()
    } else {
        let rest = whitelist(s, names.drop_last());
        let i = index_of_name(s, names.last());
        if i < s.len() {
            rest.push(s[i])
        } else {
            rest
        }
    }
}

/// The names of the records, in order.
pub open spec fn names_of(s: Seq<ProjectView>) -> Seq<Seq<char>> {
    s.map_values(|p: ProjectView| p.name)
}

/// The names of `names` that the store has, in the order of `names`.
pub open spec fn present_names(s: Seq<ProjectView>, names: Seq<Seq<char>>) -> Seq<Seq<char>>
    decreases names.len(),
{
    if names.len() == 0 {
        Seq::empty()
    } else if has_name(s, names.last()) {
        present_names(s, names.drop_last()).push(names.last())
    } else {
        present_names(s, names.drop_last())
    }
}

/// What [`index_of_name`] finds: the first record with the name, if any.
pub proof fn lemma_index_of_name(s: Seq<ProjectView>, name: Seq<char>)
    ensures
        0 <= index_of_name(s, name) <= s.len(),
        index_of_name(s, name) < s.len() ==> s[index_of_name(s, name)].name == name,
        forall|j: int| 0 <= j < index_of_name(s, name) ==> (#[trigger] s[j]).name != name,
    decreases s.len(),
{
    if s.len() == 0 || s[0].name == name {
    } else {
        let rest = s.drop_first();
        lemma_index_of_name(rest, name);
        let i = index_of_name(rest, name);
        assert forall|j: int| 0 <= j < i + 1 implies (#[trigger] s[j]).name != name by {
            if j > 0 {
                assert(s[j] == rest[j - 1]);
            }
        }
        if i + 1 < s.len() {
            assert(s[i + 1] == rest[i]);
        }
    }
}

/// A place with the properties of [`lemma_index_of_name`] is the one found.
pub proof fn lemma_index_of_name_is(s: Seq<ProjectView>, name: Seq<char>, i: int)
    requires
        0 <= i <= s.len(),
        i < s.len() ==> s[i].name == name,
        forall|j: int| 0 <= j < i ==> (#[trigger] s[j]).name != name,
    ensures
        index_of_name(s, name) == i,
    decreases s.len(),
{
    if i > 0 {
        let rest = s.drop_first();
        assert(s[0].name != name);
        assert forall|j: int| 0 <= j < i - 1 implies (#[trigger] rest[j]).name != name by {
            assert(rest[j] == s[j + 1]);
        }
        if i < s.len() {
            assert(rest[i - 1] == s[i]);
        }
        lemma_index_of_name_is(rest, name, i - 1);
    }
}

/// Putting a record in keeps the names distinct.
pub proof fn lemma_put_distinct(s: Seq<ProjectView>, p: ProjectView)
    requires
        distinct_names(s),
    ensures
        distinct_names(put(s, p)),
{
    lemma_index_of_name(s, p.name);
}

/// Merging a record in keeps the names distinct.
pub proof fn lemma_merge_distinct(s: Seq<ProjectView>, manual: ProjectView)
    requires
        distinct_names(s),
    ensures
        distinct_names(merge(s, manual)),
{
    lemma_index_of_name(s, manual.name);
}

/// After a record is merged in, the store has its name, and every name it
/// had before.
pub proof fn lemma_merge_has(s: Seq<ProjectView>, manual: ProjectView, name: Seq<char>)
    ensures
        has_name(merge(s, manual), name) <==> has_name(s, name) || name == manual.name,
{
    lemma_index_of_name(s, manual.name);
    lemma_index_of_name(s, name);
    let after = merge(s, manual);
    let i = index_of_name(s, manual.name);
    if has_name(s, name) {
        lemma_index_of_name_is(after, name, index_of_name(s, name));
    } else if name == manual.name {
        lemma_index_of_name_is(after, name, s.len() as int);
    } else {
        lemma_index_of_name_is(after, name, after.len() as int);
    }
}

/// Merging records in keeps the names distinct, and leaves the store with
/// the name of every record merged.
pub proof fn lemma_merge_all(s: Seq<ProjectView>, manuals: Seq<ProjectView>)
    requires
        distinct_names(s),
    ensures
        distinct_names(merge_all(s, manuals)),
        forall|i: int|
            0 <= i < manuals.len() ==> has_name(
                merge_all(s, manuals),
                (#[trigger] manuals[i]).name,
            ),
        forall|name: Seq<char>| has_name(s, name) ==> has_name(merge_all(s, manuals), name),
    decreases manuals.len(),
{
    if manuals.len() > 0 {
        let head = manuals.drop_last();
        let before = merge_all(s, head);
        lemma_merge_all(s, head);
        lemma_merge_distinct(before, manuals.last());
        assert forall|i: int| 0 <= i < manuals.len() implies has_name(
            merge_all(s, manuals),
            (#[trigger] manuals[i]).name,
        ) by {
            lemma_merge_has(before, manuals.last(), manuals[i].name);
            if i < head.len() {
                assert(head[i] == manuals[i]);
            }
        }
        assert forall|name: Seq<char>| has_name(s, name) implies has_name(
            merge_all(s, manuals),
            name,
        ) by {
            lemma_merge_has(before, manuals.last(), name);
        }
    }
}

/// Where the store has every name, the selection has one record for each
/// name, in order.
pub proof fn lemma_whitelist_complete(s: Seq<ProjectView>, names: Seq<Seq<char>>)
    requires
        forall|i: int| 0 <= i < names.len() ==> has_name(s, #[trigger] names[i]),
    ensures
        names_of(whitelist(s, names)) == names,
    decreases names.len(),
{
    if names.len() == 0 {
        assert(names_of(whitelist(s, names)) =~= names);
    } else {
        let head = names.drop_last();
        assert forall|i: int| 0 <= i < head.len() implies has_name(s, #[trigger] head[i]) by {
            assert(head[i] == names[i]);
        }
        lemma_whitelist_complete(s, head);
        assert(has_name(s, names[names.len() - 1]));
        lemma_index_of_name(s, names.last());
        let i = index_of_name(s, names.last());
        assert(names_of(whitelist(s, head).push(s[i])) =~= names_of(whitelist(s, head)).push(
            names.last(),
        ));
        assert(head.push(names.last()) =~= names);
    }
}

/// Merging a hand-written record into a fetched record of the same name
/// never clears what was fetched: a field that the hand-written record
/// leaves unset keeps its fetched value, and the counts, the activity flag
/// and the language shares are never touched.
pub proof fn lemma_merge_keeps_fetched(s: Seq<ProjectView>, manual: ProjectView)
    requires
        has_name(s, manual.name),
    ensures
        merge(s, manual).len() == s.len(),
        forall|j: int|
            0 <= j < s.len() && j != index_of_name(s, manual.name) ==> merge(s, manual)[j] == s[j],
        ({
            let before = s[index_of_name(s, manual.name)];
            let after = merge(s, manual)[index_of_name(s, manual.name)];
            &&& after.name == before.name
            &&& after.stars == before.stars
            &&& after.forks == before.forks
            &&& after.active == before.active
            &&& after.commits == before.commits
            &&& after.additions == before.additions
            &&& after.deletions == before.deletions
            &&& after.languages == before.languages
            &&& manual.description is None ==> after.description == before.description
            &&& manual.contributions is None ==> after.contributions == before.contributions
            &&& manual.url is None ==> after.url == before.url
            &&& manual.owner is None ==> after.owner == before.owner
            &&& manual.role is None ==> after.role == before.role
            &&& manual.tags.len() == 0 ==> after.tags == before.tags
        }),
{
    lemma_index_of_name(s, manual.name);
}

/// A selection by names has at most one record for each name, holds the
/// records in the order of the names, and passes over the names that the
/// store lacks: the names of the selected records are the names that the
/// store has, in the order in which they were given.
pub proof fn lemma_whitelist(s: Seq<ProjectView>, names: Seq<Seq<char>>)
    ensures
        whitelist(s, names).len() <= names.len(),
        names_of(whitelist(s, names)) == present_names(s, names),
        forall|i: int|
            0 <= i < whitelist(s, names).len() ==> has_name(s, (#[trigger] whitelist(s, names)[i]).name)
                && whitelist(s, names)[i] == s[index_of_name(s, whitelist(s, names)[i].name)],
    decreases names.len(),
{
    if names.len() == 0 {
        assert(names_of(whitelist(s, names)) =~= present_names(s, names));
    } else {
        lemma_whitelist(s, names.drop_last());
        lemma_index_of_name(s, names.last());
        let rest = whitelist(s, names.drop_last());
        let i = index_of_name(s, names.last());
        if i < s.len() {
            assert(names_of(rest.push(s[i])) =~= names_of(rest).push(names.last()));
        }
    }
}

/// Project records keyed by name. The records stand in the order in which
/// their names were first put or merged in.
pub struct ProjectStore {
    entries: Vec<Project>,
}

impl View for ProjectStore {
    type V = Seq<ProjectView>;

    closed spec fn view(&self) -> Seq<ProjectView> {
        self.entries.deep_view()
    }
}

impl ProjectStore {
    /// No two records of the store share a name.
    pub open spec fn well_formed(&self) -> bool {
        distinct_names(self@)
    }

    /// An empty store.
    pub fn new() -> (store: Self)
        ensures
            store@ == Seq::<ProjectView>::empty(),
            store.well_formed(),
    {
        let store = ProjectStore { entries: Vec::new() };
        assert(store@ =~= Seq::<ProjectView>::empty());
        store
    }

    /// The number of records.
    pub fn len(&self) -> (n: usize)
        ensures
            n == self@.len(),
    {
        self.entries.len()
    }

    /// The place of the record named `name`, if the store has one.
    pub fn find(&self, name: &str) -> (place: Option<usize>)
        ensures
            match place {
                Some(i) => has_name(self@, name@) && i == index_of_name(self@, name@),
                None => !has_name(self@, name@),
            },
    {
        let wanted = name.to_owned();
        let mut i: usize = 0;
        while i < self.entries.len()
            invariant
                i <= self.entries.len(),
                wanted@ == name@,
                forall|j: int| 0 <= j < i ==> (#[trigger] self@[j]).name != name@,
            decreases self.entries.len() - i,
        {
            if self.entries[i].name == wanted {
                proof {
                    lemma_index_of_name_is(self@, name@, i as int);
                }
                return Some(i);
            }
            i += 1;
        }
        proof {
            lemma_index_of_name_is(self@, name@, i as int);
        }
        None
    }

    /// The record named `name`, if the store has one.
    pub fn get(&self, name: &str) -> (found: Option<&Project>)
        ensures
            match found {
                Some(p) => has_name(self@, name@) && p@ == self@[index_of_name(self@, name@)],
                None => !has_name(self@, name@),
            },
    {
        match self.find(name) {
            Some(i) => Some(&self.entries[i]),
            None => None,
        }
    }

    /// Puts a fetched record in. It replaces the record with its name, or is
    /// added at the end where the store has none.
    pub fn insert(&mut self, project: Project)
        requires
            old(self).well_formed(),
        ensures
            final(self)@ == put(old(self)@, project@),
            final(self).well_formed(),
    {
        proof {
            lemma_put_distinct(self@, project@);
        }
        match self.find(project.name.as_str()) {
            Some(i) => {
                self.entries.set(i, project);
                assert(self@ =~= put(old(self)@, project@));
            },
            None => {
                self.entries.push(project);
                assert(self@ =~= put(old(self)@, project@));
            },
        }
    }

    /// Puts each record of a fetched batch in, in order: a later record
    /// replaces an earlier one with the same name.
    pub fn extend(&mut self, batch: Vec<Project>)
        requires
            old(self).well_formed(),
        ensures
            final(self)@ == put_all(old(self)@, batch.deep_view()),
            final(self).well_formed(),
    {
        let ghost all = batch.deep_view();
        let mut batch = batch;
        let mut pending: Vec<Project> = Vec::new();
        // The records are taken from the end, so they are turned round first.
        while batch.len() > 0
            invariant
                batch.len() + pending.len() == all.len(),
                batch.deep_view() == all.subrange(0, batch.len() as int),
                forall|j: int|
                    0 <= j < pending.len() ==> (#[trigger] pending[j])@ == all[all.len() - 1 - j],
            decreases batch.len(),
        {
            let ghost before = batch.deep_view();
            let project = batch.pop().unwrap();
            assert(project@ == before[before.len() - 1]);
            pending.push(project);
            assert(batch.deep_view() =~= all.subrange(0, batch.len() as int));
        }
        assert(all.subrange(0, 0) =~= Seq::<ProjectView>::empty());
        while pending.len() > 0
            invariant
                pending.len() <= all.len(),
                forall|j: int|
                    0 <= j < pending.len() ==> (#[trigger] pending[j])@ == all[all.len() - 1 - j],
                self@ == put_all(old(self)@, all.subrange(0, all.len() - pending.len())),
                self.well_formed(),
            decreases pending.len(),
        {
            let ghost done = all.subrange(0, all.len() - pending.len());
            let project = pending.pop().unwrap();
            let ghost next = all.subrange(0, all.len() - pending.len());
            proof {
                assert(next.drop_last() =~= done);
                assert(next.last() == project@);
            }
            self.insert(project);
        }
        assert(all.subrange(0, all.len() as int) =~= all);
    }

    /// Merges a hand-written record in. Where the store has a record with its
    /// name, the fields that the hand-written record sets replace the fetched
    /// ones; where it has none, the record is added at the end as it is.
    pub fn merge(&mut self, manual: &Project)
        requires
            old(self).well_formed(),
        ensures
            final(self)@ == merge(old(self)@, manual@),
            final(self).well_formed(),
    {
        proof {
            lemma_merge_distinct(self@, manual@);
        }
        match self.find(manual.name.as_str()) {
            Some(i) => {
                let fetched = &self.entries[i];
                let updated = Project {
                    name: fetched.name.clone(),
                    description: if manual.description.is_some() {
                        clone_optional_text(&manual.description)
                    } else {
                        clone_optional_text(&fetched.description)
                    },
                    contributions: if manual.contributions.is_some() {
                        clone_optional_text(&manual.contributions)
                    } else {
                        clone_optional_text(&fetched.contributions)
                    },
                    url: if manual.url.is_some() {
                        clone_optional_text(&manual.url)
                    } else {
                        clone_optional_text(&fetched.url)
                    },
                    stars: fetched.stars,
                    forks: fetched.forks,
                    active: fetched.active,
                    owner: if manual.owner.is_some() {
                        clone_optional_text(&manual.owner)
                    } else {
                        clone_optional_text(&fetched.owner)
                    },
                    commits: fetched.commits,
                    additions: fetched.additions,
                    deletions: fetched.deletions,
                    languages: clone_languages(&fetched.languages),
                    tags: if manual.tags.len() > 0 {
                        clone_texts(&manual.tags)
                    } else {
                        clone_texts(&fetched.tags)
                    },
                    role: if manual.role.is_some() {
                        manual.role
                    } else {
                        fetched.role
                    },
                };
                assert(updated@ == merged(self@[i as int], manual@));
                self.entries.set(i, updated);
                assert(self@ =~= merge(old(self)@, manual@));
            },
            None => {
                self.entries.push(manual.clone());
                assert(self@ =~= merge(old(self)@, manual@));
            },
        }
    }

    /// A copy of every record, in the order of the store.
    pub fn projects(&self) -> (all: Vec<Project>)
        ensures
            all.deep_view() == self@,
    {
        let mut all: Vec<Project> = Vec::new();
        let mut i: usize = 0;
        while i < self.entries.len()
            invariant
                i <= self.entries.len(),
                all.len() == i,
                forall|j: int| 0 <= j < i ==> (#[trigger] all[j])@ == self.entries[j]@,
            decreases self.entries.len() - i,
        {
            all.push(self.entries[i].clone());
            i += 1;
        }
        assert(all.deep_view() =~= self@);
        all
    }

    /// The records that `names` select, one for each name that the store
    /// has, in the order of `names`. A name that the store lacks selects
    /// nothing.
    pub fn select(&self, names: &Vec<String>) -> (chosen: Vec<Project>)
        ensures
            chosen.deep_view() == whitelist(self@, names.deep_view()),
    {
        let mut chosen: Vec<Project> = Vec::new();
        let mut i: usize = 0;
        assert(names.deep_view().subrange(0, 0) =~= Seq::<Seq<char>>::empty());
        while i < names.len()
            invariant
                i <= names.len(),
                chosen.deep_view() == whitelist(self@, names.deep_view().subrange(0, i as int)),
            decreases names.len() - i,
        {
            let ghost done = names.deep_view().subrange(0, i as int);
            let ghost next = names.deep_view().subrange(0, i + 1);
            let ghost before = chosen.deep_view();
            proof {
                assert(next.drop_last() =~= done);
                assert(next.last() == names[i as int]@);
            }
            match self.get(names[i].as_str()) {
                Some(p) => {
                    chosen.push(p.clone());
                    assert(chosen.deep_view() =~= before.push(p@));
                },
                None => {},
            }
            i += 1;
        }
        assert(names.deep_view().subrange(0, names.len() as int) =~= names.deep_view());
        chosen
    }
}

} // verus!
