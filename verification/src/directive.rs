//! The directives of the project list and their interpreter.

use crate::policy::{
    count_rank, lemma_sorted_by_stars_descends, lemma_sorted_projects_in_order,
    lemma_sorted_projects_rearranged, sort_languages, sort_projects, sorted_languages,
    sorted_projects,
};
use crate::project::{
    clone_optional_text, clone_texts, Project, ProjectImportMode, ProjectSortOrder, ProjectView,
};
use crate::store::{
    distinct_names, has_name, lemma_merge_all, lemma_whitelist, lemma_whitelist_complete,
    merge_all, names_of, put_all, whitelist, ProjectStore,
};
use vstd::prelude::*;

verus! {

/// Where project records are fetched from.
#[derive(Debug)]
pub enum ProjectImport {
    /// The account's own repositories, or the listed ones where `repos` is
    /// set.
    GitHub { ignore_forks: bool, repos: Option<Vec<String>>, token: Option<String> },
}

/// One directive of the project list.
#[derive(Debug)]
pub enum ProjectParam {
    /// Fetch project records.
    Import(ProjectImport),
    /// Set the order of the final list.
    Sort { order_by: ProjectSortOrder },
    /// Set how fetched and hand-written records are combined.
    ImportMode { import_mode: ProjectImportMode },
    /// A hand-written project record.
    Raw(Project),
}

/// The mathematical content of a [`ProjectParam`].
pub enum ProjectParamView {
    Import { ignore_forks: bool, repos: Option<Seq<Seq<char>>>, token: Option<Seq<char>> },
    Sort { order_by: ProjectSortOrder },
    ImportMode { import_mode: ProjectImportMode },
    Raw(ProjectView),
}

impl View for ProjectParam {
    type V = ProjectParamView;

    open spec fn view(&self) -> ProjectParamView {
        match self {
            ProjectParam::Import(ProjectImport::GitHub { ignore_forks, repos, token }) => {
                ProjectParamView::Import {
                    ignore_forks: *ignore_forks,
                    repos: repos.deep_view(),
                    token: token.deep_view(),
                }
            },
            ProjectParam::Sort { order_by } => ProjectParamView::Sort { order_by: *order_by },
            ProjectParam::ImportMode { import_mode } => ProjectParamView::ImportMode {
                import_mode: *import_mode,
            },
            ProjectParam::Raw(p) => ProjectParamView::Raw(p@),
        }
    }
}

impl DeepView for ProjectParam {
    type V = ProjectParamView;

    open spec fn deep_view(&self) -> ProjectParamView {
        self@
    }
}

/// The index of the last hand-written record named `name` in the directive
/// list, or -1 where there is none.
pub open spec fn last_raw_named(directives: Seq<ProjectParamView>, name: Seq<char>) -> int
    decreases directives.len(),
{
    if directives.len() == 0 {
        -1
    } else {
        match directives.last() {
            ProjectParamView::Raw(p) => if p.name == name {
                directives.len() - 1
            } else {
                last_raw_named(directives.drop_last(), name)
            },
            _ => last_raw_named(directives.drop_last(), name),
        }
    }
}

/// A fetch that the interpreter asks its caller to make.
#[derive(Debug)]
pub enum ImportRequest {
    /// The repositories that the account owns.
    Owned { ignore_forks: bool, token: Option<String> },
    /// The listed repositories, each written as owner, slash, name. `viewer`
    /// is the account from whose point of view roles are assigned.
    Named { repos: Vec<String>, token: Option<String>, viewer: Option<String> },
}

/// The mathematical content of an [`ImportRequest`].
pub enum ImportRequestView {
    Owned { ignore_forks: bool, token: Option<Seq<char>> },
    Named { repos: Seq<Seq<char>>, token: Option<Seq<char>>, viewer: Option<Seq<char>> },
}

impl View for ImportRequest {
    type V = ImportRequestView;

    open spec fn view(&self) -> ImportRequestView {
        match self {
            ImportRequest::Owned { ignore_forks, token } => ImportRequestView::Owned {
                ignore_forks: *ignore_forks,
                token: token.deep_view(),
            },
            ImportRequest::Named { repos, token, viewer } => ImportRequestView::Named {
                repos: repos.deep_view(),
                token: token.deep_view(),
                viewer: viewer.deep_view(),
            },
        }
    }
}

impl DeepView for ImportRequest {
    type V = ImportRequestView;

    open spec fn deep_view(&self) -> ImportRequestView {
        self@
    }
}

/// What the interpreter has gathered so far.
pub struct InterpreterView {
    /// The merge store.
    pub store: Seq<ProjectView>,
    /// The sort order that the directives have set, if any.
    pub sort_order: Option<ProjectSortOrder>,
    /// The import mode in force.
    pub import_mode: ProjectImportMode,
}

/// The state before any directive: an empty store, no sort order, and fetched
/// and hand-written records combined.
pub open spec fn initial_state() -> InterpreterView {
    InterpreterView {
        store: Seq::empty(),
        sort_order: None,
        import_mode: ProjectImportMode::Combine,
    }
}

/// The state after a directive is read. A directive that sets the sort order
/// or the import mode replaces what an earlier one has set; the others leave
/// the state as it is.
pub open spec fn after_directive(state: InterpreterView, d: ProjectParamView) -> InterpreterView {
    match d {
        ProjectParamView::Sort { order_by } => InterpreterView {
            sort_order: Some(order_by),
            ..state
        },
        ProjectParamView::ImportMode { import_mode } => InterpreterView { import_mode, ..state },
        _ => state,
    }
}

/// The fetch that a directive asks for, if it asks for one.
pub open spec fn request_of(d: ProjectParamView, viewer: Option<Seq<char>>) -> Option<
    ImportRequestView,
> {
    match d {
        ProjectParamView::Import { ignore_forks, repos: None, token } => Some(
            ImportRequestView::Owned { ignore_forks, token },
        ),
        ProjectParamView::Import { ignore_forks, repos: Some(repos), token } => Some(
            ImportRequestView::Named { repos, token, viewer },
        ),
        _ => None,
    }
}

/// The state after the records of a fetch are taken into the store.
pub open spec fn after_fetch(state: InterpreterView, batch: Seq<ProjectView>) -> InterpreterView {
    InterpreterView { store: put_all(state.store, batch), ..state }
}

/// The sort order that applies at the end: the one that was set, or the
/// hand-written order where none was set and only hand-written projects
/// survive.
pub open spec fn effective_order(state: InterpreterView) -> Option<ProjectSortOrder> {
    if state.sort_order is None && state.import_mode == ProjectImportMode::Whitelist {
        Some(ProjectSortOrder::Manual)
    } else {
        state.sort_order
    }
}

/// A hand-written record as it is merged: its language shares sorted, the
/// largest first.
pub open spec fn normalized(p: ProjectView) -> ProjectView {
    ProjectView { languages: sorted_languages(p.languages), ..p }
}

/// The hand-written records of the directive list as they are merged, in
/// order.
pub open spec fn manual_records(directives: Seq<ProjectParamView>) -> Seq<ProjectView>
    decreases directives.len(),
{
    if directives.len() == 0 {
        Seq::empty()
    } else {
        match directives.last() {
            ProjectParamView::Raw(p) => manual_records(directives.drop_last()).push(normalized(p)),
            _ => manual_records(directives.drop_last()),
        }
    }
}

/// The names of the hand-written records of the directive list, in order.
pub open spec fn manual_names(directives: Seq<ProjectParamView>) -> Seq<Seq<char>>
    decreases directives.len(),
{
    if directives.len() == 0 {
        Seq::empty()
    } else {
        match directives.last() {
            ProjectParamView::Raw(p) => manual_names(directives.drop_last()).push(p.name),
            _ => manual_names(directives.drop_last()),
        }
    }
}

/// The projects that survive: under `Whitelist` the records that the
/// hand-written names select, in the order of those names; under `Combine`
/// every record of the store, in the order of the store.
pub open spec fn selection(
    store: Seq<ProjectView>,
    mode: ProjectImportMode,
    directives: Seq<ProjectParamView>,
) -> Seq<ProjectView> {
    match mode {
        ProjectImportMode::Whitelist => whitelist(store, manual_names(directives)),
        ProjectImportMode::Combine => store,
    }
}

/// The surviving projects in their final order. The hand-written order is
/// not applied under `Whitelist`, where the selection already stands in it.
pub open spec fn arranged(
    chosen: Seq<ProjectView>,
    order: Option<ProjectSortOrder>,
    mode: ProjectImportMode,
    directives: Seq<ProjectParamView>,
) -> Seq<ProjectView> {
    match order {
        None => chosen,
        Some(ProjectSortOrder::Manual) => if mode == ProjectImportMode::Whitelist {
            chosen
        } else {
            sorted_projects(chosen, ProjectSortOrder::Manual, directives)
        },
        Some(o) => sorted_projects(chosen, o, directives),
    }
}

/// The final project list: the hand-written records are merged into the
/// store, the survivors are selected, and the selection is put in order.
pub open spec fn finished(state: InterpreterView, directives: Seq<ProjectParamView>) -> Seq<
    ProjectView,
> {
    arranged(
        selection(
            merge_all(state.store, manual_records(directives)),
            state.import_mode,
            directives,
        ),
        effective_order(state),
        state.import_mode,
        directives,
    )
}

/// The hand-written records are merged under the names that they were
/// written with.
pub proof fn lemma_manual_records_names(directives: Seq<ProjectParamView>)
    ensures
        names_of(manual_records(directives)) == manual_names(directives),
    decreases directives.len(),
{
    if directives.len() == 0 {
        assert(names_of(manual_records(directives)) =~= manual_names(directives));
    } else {
        lemma_manual_records_names(directives.drop_last());
        match directives.last() {
            ProjectParamView::Raw(p) => {
                assert(names_of(manual_records(directives.drop_last()).push(normalized(p)))
                    =~= names_of(manual_records(directives.drop_last())).push(p.name));
            },
            _ => {},
        }
    }
}

/// Under `Combine`, no two projects of the final list share a name.
pub proof fn lemma_combined_names_distinct(
    state: InterpreterView,
    directives: Seq<ProjectParamView>,
)
    requires
        distinct_names(state.store),
        state.import_mode == ProjectImportMode::Combine,
    ensures
        distinct_names(finished(state, directives)),
{
    let merged = merge_all(state.store, manual_records(directives));
    lemma_merge_all(state.store, manual_records(directives));
    match effective_order(state) {
        Some(order) => {
            lemma_sorted_projects_rearranged(merged, order, directives);
        },
        None => {},
    }
}

/// Where the directives ask for the order by stars, every project of the
/// final list has at least as many stars as the one after it, a project
/// without a count standing below every count.
pub proof fn lemma_finished_by_stars(state: InterpreterView, directives: Seq<ProjectParamView>)
    requires
        state.sort_order == Some(ProjectSortOrder::Stars),
    ensures
        forall|i: int|
            0 <= i && i + 1 < finished(state, directives).len() ==> count_rank(
                (#[trigger] finished(state, directives)[i]).stars,
            ) >= count_rank(finished(state, directives)[i + 1].stars),
{
    let chosen = selection(
        merge_all(state.store, manual_records(directives)),
        state.import_mode,
        directives,
    );
    lemma_sorted_by_stars_descends(chosen, directives);
    lemma_sorted_projects_in_order(chosen, ProjectSortOrder::Stars, directives);
}

/// Under `Whitelist`, the final list has at most one project for each
/// hand-written record, whatever its order.
pub proof fn lemma_whitelist_size(state: InterpreterView, directives: Seq<ProjectParamView>)
    requires
        state.import_mode == ProjectImportMode::Whitelist,
    ensures
        finished(state, directives).len() <= manual_names(directives).len(),
{
    let merged = merge_all(state.store, manual_records(directives));
    let chosen = whitelist(merged, manual_names(directives));
    lemma_whitelist(merged, manual_names(directives));
    match effective_order(state) {
        Some(order) => {
            lemma_sorted_projects_in_order(chosen, order, directives);
        },
        None => {},
    }
}

/// Under `Whitelist` with the hand-written order, the final list holds one
/// project for each hand-written record, in the order in which the records
/// were written: its names are the hand-written names.
pub proof fn lemma_whitelist_follows_manual_names(
    state: InterpreterView,
    directives: Seq<ProjectParamView>,
)
    requires
        distinct_names(state.store),
        state.import_mode == ProjectImportMode::Whitelist,
        state.sort_order is None || state.sort_order == Some(ProjectSortOrder::Manual),
    ensures
        names_of(finished(state, directives)) == manual_names(directives),
{
    let records = manual_records(directives);
    let merged = merge_all(state.store, records);
    let names = manual_names(directives);
    lemma_merge_all(state.store, records);
    lemma_manual_records_names(directives);
    assert forall|i: int| 0 <= i < names.len() implies has_name(merged, #[trigger] names[i]) by {
        assert(names[i] == names_of(records)[i]);
        assert(names_of(records)[i] == records[i].name);
    }
    lemma_whitelist_complete(merged, names);
}

/// The interpreter of the project directives. It reads the directives in
/// order, asks its caller for the fetches, and keeps what was fetched in a
/// merge store.
pub struct Interpreter {
    store: ProjectStore,
    sort_order: Option<ProjectSortOrder>,
    import_mode: ProjectImportMode,
}

impl View for Interpreter {
    type V = InterpreterView;

    closed spec fn view(&self) -> InterpreterView {
        InterpreterView {
            store: self.store@,
            sort_order: self.sort_order,
            import_mode: self.import_mode,
        }
    }
}

impl Interpreter {
    /// No two records of the store share a name.
    pub open spec fn well_formed(&self) -> bool {
        distinct_names(self@.store)
    }

    /// An interpreter that has read nothing.
    pub fn new() -> (interpreter: Self)
        ensures
            interpreter@ == initial_state(),
            interpreter.well_formed(),
    {
        Interpreter {
            store: ProjectStore::new(),
            sort_order: None,
            import_mode: ProjectImportMode::Combine,
        }
    }

    /// The sort order that the directives read so far have set.
    pub fn sort_order(&self) -> (order: Option<ProjectSortOrder>)
        ensures
            order == self@.sort_order,
    {
        self.sort_order
    }

    /// The import mode in force.
    pub fn import_mode(&self) -> (mode: ProjectImportMode)
        ensures
            mode == self@.import_mode,
    {
        self.import_mode
    }

    /// Reads one directive. Returns the fetch that the caller has to make
    /// before the next directive is read, if the directive asks for one; its
    /// records are handed back through [`Interpreter::absorb`]. `viewer` is
    /// the person's account name, where it is known.
    pub fn step(&mut self, directive: &ProjectParam, viewer: Option<&str>) -> (request: Option<
        ImportRequest,
    >)
        requires
            old(self).well_formed(),
        ensures
            final(self)@ == after_directive(old(self)@, directive@),
            final(self).well_formed(),
            request.deep_view() == request_of(directive@, viewer.deep_view()),
    {
        match directive {
            ProjectParam::Import(ProjectImport::GitHub { ignore_forks, repos: None, token }) => {
                Some(
                    ImportRequest::Owned {
                        ignore_forks: *ignore_forks,
                        token: clone_optional_text(token),
                    },
                )
            },
            ProjectParam::Import(
                ProjectImport::GitHub { ignore_forks: _, repos: Some(repos), token },
            ) => {
                let viewer = match viewer {
                    Some(name) => Some(name.to_owned()),
                    None => None,
                };
                Some(
                    ImportRequest::Named {
                        repos: clone_texts(repos),
                        token: clone_optional_text(token),
                        viewer,
                    },
                )
            },
            ProjectParam::Sort { order_by } => {
                self.sort_order = Some(*order_by);
                None
            },
            ProjectParam::ImportMode { import_mode } => {
                self.import_mode = *import_mode;
                None
            },
            ProjectParam::Raw(_) => None,
        }
    }

    /// Takes the records of a fetch into the store, in order. A record
    /// replaces an earlier one with the same name, of this fetch or of an
    /// earlier one.
    pub fn absorb(&mut self, fetched: Vec<Project>)
        requires
            old(self).well_formed(),
        ensures
            final(self)@ == after_fetch(old(self)@, fetched.deep_view()),
            final(self).well_formed(),
    {
        self.store.extend(fetched);
    }

    /// Ends the run, once every directive has been read and every fetch
    /// taken in: merges the hand-written records of `directives` into the
    /// store in order, selects the survivors, and puts them in order.
    pub fn finish(self, directives: &Vec<ProjectParam>) -> (projects: Vec<Project>)
        requires
            self.well_formed(),
        ensures
            projects.deep_view() == finished(self@, directives.deep_view()),
    {
        let ghost d = directives.deep_view();
        let ghost start = self@;
        let Interpreter { store, sort_order, import_mode } = self;
        let mut store = store;
        let mut names: Vec<String> = Vec::new();
        let order = match (sort_order, import_mode) {
            (None, ProjectImportMode::Whitelist) => Some(ProjectSortOrder::Manual),
            _ => sort_order,
        };
        assert(order == effective_order(start));
        let mut i: usize = 0;
        assert(d.subrange(0, 0) =~= Seq::<ProjectParamView>::empty());
        assert(names.deep_view() =~= Seq::<Seq<char>>::empty());
        while i < directives.len()
            invariant
                i <= directives.len(),
                d == directives.deep_view(),
                store.well_formed(),
                store@ == merge_all(start.store, manual_records(d.subrange(0, i as int))),
                names.deep_view() == manual_names(d.subrange(0, i as int)),
            decreases directives.len() - i,
        {
            let ghost done = d.subrange(0, i as int);
            let ghost next = d.subrange(0, i + 1);
            let ghost names_before = names.deep_view();
            proof {
                assert(next.drop_last() =~= done);
                assert(next.last() == directives[i as int]@);
            }
            match &directives[i] {
                ProjectParam::Raw(p) => {
                    let mut record = p.clone();
                    record.languages = sort_languages(record.languages);
                    assert(record@ == normalized(p@));
                    proof {
                        let merged_before = manual_records(done);
                        assert(manual_records(next) == merged_before.push(normalized(p@)));
                        assert(manual_records(next).drop_last() =~= merged_before);
                    }
                    store.merge(&record);
                    names.push(p.name.clone());
                    assert(names.deep_view() =~= names_before.push(p.name@));
                },
                _ => {},
            }
            i += 1;
        }
        assert(d.subrange(0, d.len() as int) =~= d);
        let chosen = match import_mode {
            ProjectImportMode::Whitelist => store.select(&names),
            ProjectImportMode::Combine => store.projects(),
        };
        assert(chosen.deep_view() == selection(store@, import_mode, d));
        match order {
            None => chosen,
            Some(ProjectSortOrder::Manual) => {
                if import_mode == ProjectImportMode::Whitelist {
                    chosen
                } else {
                    sort_projects(chosen, ProjectSortOrder::Manual, directives)
                }
            },
            Some(o) => sort_projects(chosen, o, directives),
        }
    }
}

/// The fetches that the directives ask for, in order.
pub open spec fn requests_of(directives: Seq<ProjectParamView>, viewer: Option<Seq<char>>) -> Seq<
    ImportRequestView,
>
    decreases directives.len(),
{
    if directives.len() == 0 {
        Seq::empty()
    } else {
        let rest = requests_of(directives.drop_last(), viewer);
        match request_of(directives.last(), viewer) {
            Some(request) => rest.push(request),
            None => rest,
        }
    }
}

/// The state after the directives are read in order, the fetch of each
/// import directive answered by the next of `batches`. An import directive
/// for which no batch is left adds nothing.
pub open spec fn state_after(
    directives: Seq<ProjectParamView>,
    batches: Seq<Seq<ProjectView>>,
) -> InterpreterView
    decreases directives.len(),
{
    if directives.len() == 0 {
        initial_state()
    } else {
        let before = state_after(directives.drop_last(), batches);
        let asked = requests_of(directives.drop_last(), None).len();
        match directives.last() {
            ProjectParamView::Import { ignore_forks, repos, token } => if asked < batches.len() {
                after_fetch(before, batches[asked as int])
            } else {
                before
            },
            other => after_directive(before, other),
        }
    }
}

/// The final project list of a run. It is a function of the directives and
/// of what was fetched: the same directives and the same answers give the
/// same list.
pub open spec fn assembled(
    directives: Seq<ProjectParamView>,
    batches: Seq<Seq<ProjectView>>,
) -> Seq<ProjectView> {
    finished(state_after(directives, batches), directives)
}

/// Lists the fetches that the directives ask for, in the order in which
/// they have to be made.
pub fn import_requests(directives: &Vec<ProjectParam>, viewer: Option<&str>) -> (requests: Vec<
    ImportRequest,
>)
    ensures
        requests.deep_view() == requests_of(directives.deep_view(), viewer.deep_view()),
{
    let ghost d = directives.deep_view();
    let mut reader = Interpreter::new();
    let mut requests: Vec<ImportRequest> = Vec::new();
    let mut i: usize = 0;
    assert(d.subrange(0, 0) =~= Seq::<ProjectParamView>::empty());
    assert(requests.deep_view() =~= Seq::<ImportRequestView>::empty());
    while i < directives.len()
        invariant
            i <= directives.len(),
            d == directives.deep_view(),
            reader.well_formed(),
            requests.deep_view() == requests_of(d.subrange(0, i as int), viewer.deep_view()),
        decreases directives.len() - i,
    {
        let ghost next = d.subrange(0, i + 1);
        let ghost before = requests.deep_view();
        proof {
            assert(next.drop_last() =~= d.subrange(0, i as int));
            assert(next.last() == directives[i as int]@);
        }
        match reader.step(&directives[i], viewer) {
            Some(request) => {
                let ghost view = request@;
                requests.push(request);
                assert(requests.deep_view() =~= before.push(view));
            },
            None => {},
        }
        i += 1;
    }
    assert(d.subrange(0, d.len() as int) =~= d);
    requests
}

/// Runs the interpreter over the directives, with the answers to its
/// fetches at hand: `fetched` holds the records that each fetch gave, in the
/// order of [`import_requests`]. Returns the final project list.
pub fn assemble(directives: &Vec<ProjectParam>, fetched: Vec<Vec<Project>>) -> (projects: Vec<
    Project,
>)
    ensures
        projects.deep_view() == assembled(directives.deep_view(), fetched.deep_view()),
{
    let ghost d = directives.deep_view();
    let ghost batches = fetched.deep_view();
    let ghost all = fetched@;
    let mut pending = crate::sorting::reversed(fetched);
    let mut interpreter = Interpreter::new();
    let mut i: usize = 0;
    assert(d.subrange(0, 0) =~= Seq::<ProjectParamView>::empty());
    while i < directives.len()
        invariant
            i <= directives.len(),
            d == directives.deep_view(),
            batches.len() == all.len(),
            forall|k: int| 0 <= k < all.len() ==> batches[k] == (#[trigger] all[k]).deep_view(),
            interpreter.well_formed(),
            interpreter@ == state_after(d.subrange(0, i as int), batches),
            pending.len() <= all.len(),
            pending@ == all.reverse().subrange(0, pending.len() as int),
            all.len() - pending.len() == (if requests_of(d.subrange(0, i as int), None).len()
                < all.len() {
                requests_of(d.subrange(0, i as int), None).len() as int
            } else {
                all.len() as int
            }),
        decreases directives.len() - i,
    {
        let ghost done = d.subrange(0, i as int);
        let ghost next = d.subrange(0, i + 1);
        proof {
            assert(next.drop_last() =~= done);
            assert(next.last() == directives[i as int]@);
        }
        let request = interpreter.step(&directives[i], None);
        if request.is_some() {
            if pending.len() > 0 {
                let batch = pending.pop().unwrap();
                assert(pending@ =~= all.reverse().subrange(0, pending.len() as int));
                interpreter.absorb(batch);
            }
        }
        i += 1;
    }
    assert(d.subrange(0, d.len() as int) =~= d);
    interpreter.finish(directives)
}

} // verus!
