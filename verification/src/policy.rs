//! The sort policies: the key that each policy gives a project, and the
//! sort of a project list by it.

use crate::directive::{last_raw_named, ProjectParam, ProjectParamView};
use crate::project::{LanguageStat, LanguageStatView, Project, ProjectSortOrder, ProjectView};
use crate::sorting::{
    items_of, lemma_stable_sorted_all, lemma_stable_sorted_keeps_order,
    lemma_stable_sorted_ordered, lemma_stable_sorted_permutes, lemma_stable_sorted_relabel,
    relabel, reversed, stable_sort, stable_sorted, strip_keys, with_key, Keyed, SortKey,
};
use crate::store::distinct_names;
use vstd::prelude::*;

verus! {

/// A count as a number that can be compared: a missing count stands below
/// every count.
pub open spec fn count_rank(count: Option<u64>) -> int {
    match count {
        Some(n) => n as int,
        None => -1,
    }
}

/// The place of a project in the hand-written order: the index of the last
/// hand-written record with its name in the directive list, or the length of
/// that list for a project that no hand-written record names.
pub open spec fn manual_rank(directives: Seq<ProjectParamView>, name: Seq<char>) -> int {
    if last_raw_named(directives, name) < 0 {
        directives.len() as int
    } else {
        last_raw_named(directives, name)
    }
}

/// The key by which a policy sorts a project. Smaller keys come first, so
/// the policies that put the larger count first negate it.
pub open spec fn policy_key(
    order: ProjectSortOrder,
    directives: Seq<ProjectParamView>,
    p: ProjectView,
) -> SortKey {
    match order {
        ProjectSortOrder::Stars => SortKey { major: (-count_rank(p.stars)) as i128, minor: 0 },
        ProjectSortOrder::Forks => SortKey { major: (-count_rank(p.forks)) as i128, minor: 0 },
        ProjectSortOrder::StarsThenForks => SortKey {
            major: (-count_rank(p.stars)) as i128,
            minor: (-count_rank(p.forks)) as i128,
        },
        ProjectSortOrder::ForksThenStars => SortKey {
            major: (-count_rank(p.forks)) as i128,
            minor: (-count_rank(p.stars)) as i128,
        },
        ProjectSortOrder::Manual => SortKey {
            major: manual_rank(directives, p.name) as i128,
            minor: 0,
        },
    }
}

/// Each project with its key under a policy.
pub open spec fn keyed_projects(
    s: Seq<ProjectView>,
    order: ProjectSortOrder,
    directives: Seq<ProjectParamView>,
) -> Seq<Keyed<ProjectView>> {
    s.map_values(|p: ProjectView| Keyed { key: policy_key(order, directives, p), item: p })
}

/// The projects sorted under a policy. Projects with equal keys keep their
/// order.
pub open spec fn sorted_projects(
    s: Seq<ProjectView>,
    order: ProjectSortOrder,
    directives: Seq<ProjectParamView>,
) -> Seq<ProjectView> {
    items_of(stable_sorted(keyed_projects(s, order, directives)))
}

/// The projects of `s` whose key under the policy is `k`, in the order of
/// `s`.
pub open spec fn projects_with_key(
    s: Seq<ProjectView>,
    order: ProjectSortOrder,
    directives: Seq<ProjectParamView>,
    k: SortKey,
) -> Seq<ProjectView>
    decreases s.len(),
{
    if s.len() == 0 {
        s
    } else if policy_key(order, directives, s[0]) == k {
        seq![s[0]] + projects_with_key(s.drop_first(), order, directives, k)
    } else {
        projects_with_key(s.drop_first(), order, directives, k)
    }
}

/// The function that takes a project to its view.
pub open spec fn project_view_fn() -> spec_fn(Project) -> ProjectView {
    |p: Project| p@
}

fn negated(count: Option<u64>) -> (key: i128)
    ensures
        key == -count_rank(count),
{
    match count {
        Some(n) => -(n as i128),
        None => 1,
    }
}

/// The place of a name in the hand-written order.
pub fn rank_in_manual_order(directives: &Vec<ProjectParam>, name: &str) -> (rank: usize)
    ensures
        rank == manual_rank(directives.deep_view(), name@),
{
    let wanted = name.to_owned();
    let ghost d = directives.deep_view();
    let mut i: usize = directives.len();
    assert(d.subrange(0, d.len() as int) =~= d);
    while i > 0
        invariant
            i <= directives.len(),
            d == directives.deep_view(),
            wanted@ == name@,
            last_raw_named(d, name@) == last_raw_named(d.subrange(0, i as int), name@),
        decreases i,
    {
        let ghost head = d.subrange(0, i as int);
        assert(head.drop_last() =~= d.subrange(0, i - 1));
        assert(head.last() == directives[i - 1]@);
        match &directives[i - 1] {
            ProjectParam::Raw(p) => {
                if p.name == wanted {
                    return i - 1;
                }
            },
            _ => {},
        }
        i -= 1;
    }
    directives.len()
}

/// The key by which a policy sorts a project.
pub fn key_of(order: ProjectSortOrder, directives: &Vec<ProjectParam>, project: &Project) -> (key:
    SortKey)
    ensures
        key == policy_key(order, directives.deep_view(), project@),
{
    match order {
        ProjectSortOrder::Stars => SortKey { major: negated(project.stars), minor: 0 },
        ProjectSortOrder::Forks => SortKey { major: negated(project.forks), minor: 0 },
        ProjectSortOrder::StarsThenForks => SortKey {
            major: negated(project.stars),
            minor: negated(project.forks),
        },
        ProjectSortOrder::ForksThenStars => SortKey {
            major: negated(project.forks),
            minor: negated(project.stars),
        },
        ProjectSortOrder::Manual => SortKey {
            major: rank_in_manual_order(directives, project.name.as_str()) as i128,
            minor: 0,
        },
    }
}

/// Sorts the projects under a policy. The sort is stable: projects with
/// equal keys keep their order.
pub fn sort_projects(
    projects: Vec<Project>,
    order: ProjectSortOrder,
    directives: &Vec<ProjectParam>,
) -> (sorted: Vec<Project>)
    ensures
        sorted.deep_view() == sorted_projects(projects.deep_view(), order, directives.deep_view()),
        sorted.len() == projects.len(),
{
    let ghost views = projects.deep_view();
    let ghost d = directives.deep_view();
    let ghost before = projects@;
    let mut pending = reversed(projects);
    let mut entries: Vec<Keyed<Project>> = Vec::new();
    while pending.len() > 0
        invariant
            d == directives.deep_view(),
            pending.len() + entries.len() == before.len(),
            pending@ == before.reverse().subrange(0, pending.len() as int),
            forall|j: int|
                0 <= j < entries.len() ==> (#[trigger] entries[j]).item == before[j]
                    && entries[j].key == policy_key(order, d, before[j]@),
        decreases pending.len(),
    {
        let project = pending.pop().unwrap();
        let key = key_of(order, directives, &project);
        entries.push(Keyed { key, item: project });
        assert(pending@ =~= before.reverse().subrange(0, pending.len() as int));
    }
    let ghost unsorted = entries@;
    let ordered_entries = stable_sort(entries);
    let sorted = strip_keys(ordered_entries);
    proof {
        assert(relabel(unsorted, project_view_fn()) =~= keyed_projects(views, order, d));
        lemma_stable_sorted_relabel(unsorted, project_view_fn());
        assert(items_of(relabel(stable_sorted(unsorted), project_view_fn()))
            =~= sorted.deep_view());
    }
    sorted
}

/// The key of a language share: the larger share comes first.
pub open spec fn share_key(l: LanguageStatView) -> SortKey {
    SortKey { major: (-(l.tenths as int)) as i128, minor: 0 }
}

/// The language shares, the largest first. Equal shares keep their order.
pub open spec fn sorted_languages(s: Seq<LanguageStatView>) -> Seq<LanguageStatView> {
    items_of(
        stable_sorted(s.map_values(|l: LanguageStatView| Keyed { key: share_key(l), item: l })),
    )
}

/// The function that takes a language share to its view.
pub open spec fn language_view_fn() -> spec_fn(LanguageStat) -> LanguageStatView {
    |l: LanguageStat| l@
}

/// Sorts language shares, the largest first. Equal shares keep their order.
pub fn sort_languages(languages: Vec<LanguageStat>) -> (sorted: Vec<LanguageStat>)
    ensures
        sorted.deep_view() == sorted_languages(languages.deep_view()),
        sorted.len() == languages.len(),
{
    let ghost views = languages.deep_view();
    let ghost before = languages@;
    let mut pending = reversed(languages);
    let mut entries: Vec<Keyed<LanguageStat>> = Vec::new();
    while pending.len() > 0
        invariant
            pending.len() + entries.len() == before.len(),
            pending@ == before.reverse().subrange(0, pending.len() as int),
            forall|j: int|
                0 <= j < entries.len() ==> (#[trigger] entries[j]).item == before[j]
                    && entries[j].key == share_key(before[j]@),
        decreases pending.len(),
    {
        let language = pending.pop().unwrap();
        let key = SortKey { major: -(language.percentage.0 as i128), minor: 0 };
        entries.push(Keyed { key, item: language });
        assert(pending@ =~= before.reverse().subrange(0, pending.len() as int));
    }
    let ghost unsorted = entries@;
    let ordered_entries = stable_sort(entries);
    let sorted = strip_keys(ordered_entries);
    proof {
        assert(relabel(unsorted, language_view_fn()) =~= views.map_values(
            |l: LanguageStatView| Keyed { key: share_key(l), item: l },
        ));
        lemma_stable_sorted_relabel(unsorted, language_view_fn());
        assert(items_of(relabel(stable_sorted(unsorted), language_view_fn()))
            =~= sorted.deep_view());
    }
    sorted
}

/// Whether an entry carries the key that the policy gives its project.
pub open spec fn carries_policy_key(
    order: ProjectSortOrder,
    directives: Seq<ProjectParamView>,
) -> spec_fn(Keyed<ProjectView>) -> bool {
    |e: Keyed<ProjectView>| e.key == policy_key(order, directives, e.item)
}

proof fn lemma_sorted_entries_carry_keys(
    s: Seq<ProjectView>,
    order: ProjectSortOrder,
    directives: Seq<ProjectParamView>,
)
    ensures
        stable_sorted(keyed_projects(s, order, directives)).len() == s.len(),
        forall|i: int|
            0 <= i < s.len() ==> (#[trigger] stable_sorted(
                keyed_projects(s, order, directives),
            )[i]).key == policy_key(order, directives, sorted_projects(s, order, directives)[i]),
{
    let keyed = keyed_projects(s, order, directives);
    let holds = carries_policy_key(order, directives);
    assert forall|i: int| 0 <= i < keyed.len() implies holds(#[trigger] keyed[i]) by {}
    lemma_stable_sorted_all(keyed, holds);
    lemma_stable_sorted_ordered(keyed);
    assert forall|i: int| 0 <= i < s.len() implies (#[trigger] stable_sorted(keyed)[i]).key
        == policy_key(order, directives, sorted_projects(s, order, directives)[i]) by {
        assert(holds(stable_sorted(keyed)[i]));
    }
}

/// A sorted project list is in the order of its policy: no project stands
/// after one that its key puts it before. No project is lost or added.
pub proof fn lemma_sorted_projects_in_order(
    s: Seq<ProjectView>,
    order: ProjectSortOrder,
    directives: Seq<ProjectParamView>,
)
    ensures
        sorted_projects(s, order, directives).len() == s.len(),
        forall|i: int, j: int|
            0 <= i < j < s.len() ==> !policy_key(
                order,
                directives,
                #[trigger] sorted_projects(s, order, directives)[j],
            ).precedes(
                policy_key(order, directives, #[trigger] sorted_projects(s, order, directives)[i]),
            ),
{
    let keyed = keyed_projects(s, order, directives);
    let t = stable_sorted(keyed);
    lemma_sorted_entries_carry_keys(s, order, directives);
    lemma_stable_sorted_ordered(keyed);
    assert forall|i: int, j: int| 0 <= i < j < s.len() implies !policy_key(
        order,
        directives,
        #[trigger] sorted_projects(s, order, directives)[j],
    ).precedes(
        policy_key(order, directives, #[trigger] sorted_projects(s, order, directives)[i]),
    ) by {
        assert(!t[j].key.precedes(t[i].key));
    }
}

/// Sorted by stars, every project has at least as many stars as the one
/// after it, a project without a count standing below every count.
pub proof fn lemma_sorted_by_stars_descends(s: Seq<ProjectView>, directives: Seq<ProjectParamView>)
    ensures
        forall|i: int|
            0 <= i && i + 1 < s.len() ==> count_rank(
                (#[trigger] sorted_projects(s, ProjectSortOrder::Stars, directives)[i]).stars,
            ) >= count_rank(sorted_projects(s, ProjectSortOrder::Stars, directives)[i + 1].stars),
{
    lemma_sorted_projects_in_order(s, ProjectSortOrder::Stars, directives);
    let out = sorted_projects(s, ProjectSortOrder::Stars, directives);
    assert forall|i: int| 0 <= i && i + 1 < s.len() implies count_rank((#[trigger] out[i]).stars)
        >= count_rank(out[i + 1].stars) by {
        let a = policy_key(ProjectSortOrder::Stars, directives, out[i]);
        let b = policy_key(ProjectSortOrder::Stars, directives, out[i + 1]);
        assert(!b.precedes(a));
    }
}

proof fn lemma_with_key_items(
    x: Seq<Keyed<ProjectView>>,
    order: ProjectSortOrder,
    directives: Seq<ProjectParamView>,
    k: SortKey,
)
    requires
        forall|i: int|
            0 <= i < x.len() ==> (#[trigger] x[i]).key == policy_key(order, directives, x[i].item),
    ensures
        items_of(with_key(x, k)) == projects_with_key(items_of(x), order, directives, k),
    decreases x.len(),
{
    if x.len() == 0 {
        assert(items_of(with_key(x, k)) =~= projects_with_key(items_of(x), order, directives, k));
    } else {
        let rest = x.drop_first();
        assert forall|i: int| 0 <= i < rest.len() implies (#[trigger] rest[i]).key == policy_key(
            order,
            directives,
            rest[i].item,
        ) by {
            assert(rest[i] == x[i + 1]);
        }
        lemma_with_key_items(rest, order, directives, k);
        assert(items_of(x).drop_first() =~= items_of(rest));
        assert(items_of(x)[0] == x[0].item);
        if x[0].key == k {
            assert(items_of(seq![x[0]] + with_key(rest, k)) =~= seq![x[0].item] + items_of(
                with_key(rest, k),
            ));
        }
    }
}

/// The sort is stable: the projects that share a key stand in the sorted
/// list in the order in which they stood before.
pub proof fn lemma_sorted_projects_stable(
    s: Seq<ProjectView>,
    order: ProjectSortOrder,
    directives: Seq<ProjectParamView>,
    k: SortKey,
)
    ensures
        projects_with_key(sorted_projects(s, order, directives), order, directives, k)
            == projects_with_key(s, order, directives, k),
{
    let keyed = keyed_projects(s, order, directives);
    let t = stable_sorted(keyed);
    lemma_sorted_entries_carry_keys(s, order, directives);
    assert forall|i: int| 0 <= i < t.len() implies (#[trigger] t[i]).key == policy_key(
        order,
        directives,
        t[i].item,
    ) by {
        assert(sorted_projects(s, order, directives)[i] == t[i].item);
    }
    lemma_with_key_items(t, order, directives, k);
    lemma_with_key_items(keyed, order, directives, k);
    lemma_stable_sorted_keeps_order(keyed, k);
    assert(items_of(keyed) =~= s);
}

/// Sorting rearranges the projects and nothing else: the sorted list holds
/// the same projects, each as often as before. So no two projects of the
/// sorted list share a name where no two did before.
pub proof fn lemma_sorted_projects_rearranged(
    s: Seq<ProjectView>,
    order: ProjectSortOrder,
    directives: Seq<ProjectParamView>,
)
    ensures
        sorted_projects(s, order, directives).to_multiset() == s.to_multiset(),
        distinct_names(s) ==> distinct_names(sorted_projects(s, order, directives)),
{
    let keyed = keyed_projects(s, order, directives);
    let out = sorted_projects(s, order, directives);
    lemma_stable_sorted_permutes(keyed);
    assert(items_of(keyed) =~= s);
    if distinct_names(s) {
        assert(s.no_duplicates());
        s.lemma_multiset_has_no_duplicates();
        out.lemma_multiset_has_no_duplicates_conv();
        assert forall|i: int, j: int| 0 <= i < j < out.len() implies (#[trigger] out[i]).name != (
        #[trigger] out[j]).name by {
            vstd::seq_lib::to_multiset_contains(out, out[i]);
            vstd::seq_lib::to_multiset_contains(out, out[j]);
            vstd::seq_lib::to_multiset_contains(s, out[i]);
            vstd::seq_lib::to_multiset_contains(s, out[j]);
            assert(out.contains(out[i]) && out.contains(out[j]));
            let a = choose|a: int| 0 <= a < s.len() && s[a] == out[i];
            let b = choose|b: int| 0 <= b < s.len() && s[b] == out[j];
            assert(out[i] != out[j]);
            if a < b {
                assert(s[a].name != s[b].name);
            } else if b < a {
                assert(s[b].name != s[a].name);
            }
        }
    }
}

} // verus!
