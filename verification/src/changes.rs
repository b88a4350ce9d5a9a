//! Showing what a session changed in files.
use crate::api;
use crate::api::{ApiError, Refusal, Status};
use crate::events::AgentActivity;
use crate::message;
use crate::paths;
use crate::paths::Platform;
use crate::session::{FileChange, FileChangeKind, FileChangeSet, TurnOutcome};
use crate::sort;
use crate::sort::{Rank, SmallestFirst};
use crate::upload;
use crate::upload::SessionScope;
use vstd::prelude::*;
use vstd::string::*;

verus! {

/// How far the editor is.
#[derive(Debug)]
pub enum EditorStatus {
    Closed,
    Starting { instance_id: u128 },
    Ready { instance_id: u128 },
    Unavailable { message: String },
    Failed { message: String },
}

/// Refuses to show no changes at all.
pub fn check_changes(change_ids: &Vec<u128>) -> (r: Result<(), ApiError>)
    ensures
        change_ids@.len() > 0 ==> r is Ok,
        change_ids@.len() == 0 ==> (r matches Err(e) && e@ == api::bad(
            "at least one file change is required"@,
        )),
{
    if change_ids.len() == 0 {
        Err(ApiError::message(Status::BadRequest, "at least one file change is required"))
    } else {
        Ok(())
    }
}

/// The editor that changes are shown in, where it runs.
pub open spec fn editor_of(status: EditorStatus) -> Result<u128, Refusal> {
    match status {
        EditorStatus::Starting { instance_id } | EditorStatus::Ready { instance_id } => Ok(
            instance_id,
        ),
        EditorStatus::Unavailable { message } | EditorStatus::Failed { message } => Err(
            Refusal { status: Status::ServiceUnavailable, error: message@ },
        ),
        EditorStatus::Closed => Err(
            Refusal {
                status: Status::ServiceUnavailable,
                error: "code-server did not start"@,
            },
        ),
    }
}

/// The editor that changes are shown in, where it runs.
pub fn editor_instance(status: EditorStatus) -> (r: Result<u128, ApiError>)
    ensures
        match editor_of(status) {
            Ok(id) => r == Ok::<u128, ApiError>(id),
            Err(f) => r matches Err(e) && e@ == f,
        },
{
    match status {
        EditorStatus::Starting { instance_id } => Ok(instance_id),
        EditorStatus::Ready { instance_id } => Ok(instance_id),
        EditorStatus::Unavailable { message } => Err(
            ApiError { status: Status::ServiceUnavailable, error: message },
        ),
        EditorStatus::Failed { message } => Err(
            ApiError { status: Status::ServiceUnavailable, error: message },
        ),
        EditorStatus::Closed => Err(
            ApiError::message(Status::ServiceUnavailable, "code-server did not start"),
        ),
    }
}

/// Whether an open session is the one that changes are asked of.
pub fn is_asked(no_project: bool, project: &str, scope: SessionScope, project_root: &str) -> (r: bool)
    ensures
        r == upload::in_scope(
            scope,
            project_root@,
            if no_project {
                None
            } else {
                Some(project@)
            },
        ),
{
    upload::matches_scope(
        scope,
        project_root,
        if no_project {
            None
        } else {
            Some(project)
        },
    )
}

// ---------------------------------------------------------------------------
// Which changes may be shown

/// Whether an activity made a change.
pub open spec fn makes(activity: AgentActivity, change_id: u128) -> bool {
    activity.live_change_id == Some(change_id) || activity.change_id == Some(change_id)
}

/// Whether one of the activities made a change.
pub open spec fn made_by(activities: Seq<AgentActivity>, change_id: u128) -> bool {
    exists|i: int| 0 <= i < activities.len() && makes(#[trigger] activities[i], change_id)
}

fn same_id(id: Option<u128>, other: u128) -> (r: bool)
    ensures
        r == (id == Some(other)),
{
    match id {
        Some(id) => id == other,
        None => false,
    }
}

/// Whether one of the activities made a change.
pub fn activities_reference_change(activities: &Vec<AgentActivity>, change_id: u128) -> (r: bool)
    ensures
        r == made_by(activities@, change_id),
{
    let mut i: usize = 0;
    while i < activities.len()
        invariant
            i <= activities@.len(),
            forall|j: int| 0 <= j < i ==> !makes(#[trigger] activities@[j], change_id),
        decreases activities@.len() - i,
    {
        if same_id(activities[i].live_change_id, change_id) || same_id(
            activities[i].change_id,
            change_id,
        ) {
            assert(makes(activities@[i as int], change_id));
            return true;
        }
        i += 1;
    }
    false
}

/// The position of the first change of an id at or after `i`.
pub open spec fn change_at(changes: Seq<FileChangeSet>, id: u128, i: int) -> int
    decreases changes.len() - i,
{
    if i >= changes.len() {
        changes.len() as int
    } else if changes[i].id == id {
        i
    } else {
        change_at(changes, id, i + 1)
    }
}

/// Where the session keeps a change, where it does; a change that it does not know is refused, unless
/// an activity made it.
pub fn referenced_change(
    changes: &Vec<FileChangeSet>,
    activities: &Vec<AgentActivity>,
    live_activities: &Vec<AgentActivity>,
    change_id: u128,
) -> (r: Result<Option<usize>, ApiError>)
    ensures
        ({
            let at = change_at(changes@, change_id, 0);
            if at < changes@.len() {
                r == Ok::<Option<usize>, ApiError>(Some(at as usize)) && changes@[at].id == change_id
            } else if made_by(activities@, change_id) || made_by(live_activities@, change_id) {
                r == Ok::<Option<usize>, ApiError>(None)
            } else {
                r matches Err(e) && e@ == (Refusal {
                    status: Status::NotFound,
                    error: "file change is not part of this session"@,
                })
            }
        }),
{
    let mut i: usize = 0;
    while i < changes.len() && changes[i].id != change_id
        invariant
            i <= changes@.len(),
            change_at(changes@, change_id, 0) == change_at(changes@, change_id, i as int),
        decreases changes@.len() - i,
    {
        i += 1;
    }
    if i < changes.len() {
        return Ok(Some(i));
    }
    if activities_reference_change(activities, change_id) || activities_reference_change(
        live_activities,
        change_id,
    ) {
        return Ok(None);
    }
    Err(ApiError::message(Status::NotFound, "file change is not part of this session"))
}

/// The change to show: as it is stored, else as the session keeps it.
pub fn available_change(loaded: Option<FileChangeSet>, kept: Option<FileChangeSet>) -> (r: Result<
    FileChangeSet,
    ApiError,
>)
    ensures
        match (loaded, kept) {
            (Some(c), _) => r == Ok::<FileChangeSet, ApiError>(c),
            (None, Some(c)) => r == Ok::<FileChangeSet, ApiError>(c),
            (None, None) => r matches Err(e) && e@ == (Refusal {
                status: Status::NotFound,
                error: "file change is not available yet"@,
            }),
        },
{
    match loaded {
        Some(c) => Ok(c),
        None => match kept {
            Some(c) => Ok(c),
            None => Err(ApiError::message(Status::NotFound, "file change is not available yet")),
        },
    }
}

// ---------------------------------------------------------------------------
// Changes that cannot be shown any more

/// Whether a change is kept in temporary files only.
pub open spec fn is_temporary(file: FileChange) -> bool {
    file is Temporary
}

/// Whether a change is kept in temporary files only, and the file is no part of the project.
pub open spec fn is_external(platform: Platform, file: FileChange, project: Seq<char>) -> bool {
    file is Temporary && !paths::lies_in(platform, project, file.path_view())
}

/// What a person is told of changes that cannot be shown any more.
pub open spec fn gone_text(
    platform: Platform,
    files: Seq<FileChange>,
    project: Seq<char>,
    git_available: bool,
    error: Seq<char>,
) -> Seq<char> {
    if exists|i: int| 0 <= i < files.len() && is_external(platform, #[trigger] files[i], project) {
        "Historical diffs for files outside the selected project are temporary and are no longer available."@
    } else if exists|i: int| 0 <= i < files.len() && is_temporary(#[trigger] files[i]) {
        if !git_available {
            "Git is unavailable. Install Git, then initialize the selected project as a Git repository to preserve historical diffs."@
        } else {
            "Historical diffs require Git. Initialize the project as a Git repository to preserve changes across turns."@
        }
    } else {
        error
    }
}

/// How it is refused to show changes that cannot be shown any more.
pub fn gone(
    platform: Platform,
    change: &FileChangeSet,
    project: &str,
    git_available: bool,
    error: String,
) -> (e: ApiError)
    ensures
        e@ == (Refusal {
            status: Status::Gone,
            error: gone_text(platform, change.files@, project@, git_available, error@),
        }),
{
    let mut temporary = false;
    let mut external = false;
    let mut i: usize = 0;
    while i < change.files.len()
        invariant
            i <= change.files@.len(),
            temporary == exists|j: int| 0 <= j < i && is_temporary(#[trigger] change.files@[j]),
            external == exists|j: int|
                0 <= j < i && is_external(platform, #[trigger] change.files@[j], project@),
        decreases change.files@.len() - i,
    {
        let file = &change.files[i];
        if let FileChange::Temporary(_) = file {
            assert(is_temporary(change.files@[i as int]));
            temporary = true;
            if !paths::is_below(platform, project, file.path()) {
                assert(is_external(platform, change.files@[i as int], project@));
                external = true;
            }
        }
        i += 1;
    }
    if external {
        ApiError::message(
            Status::Gone,
            "Historical diffs for files outside the selected project are temporary and are no longer available.",
        )
    } else if temporary && !git_available {
        ApiError::message(
            Status::Gone,
            "Git is unavailable. Install Git, then initialize the selected project as a Git repository to preserve historical diffs.",
        )
    } else if temporary {
        ApiError::message(
            Status::Gone,
            "Historical diffs require Git. Initialize the project as a Git repository to preserve changes across turns.",
        )
    } else {
        ApiError { status: Status::Gone, error }
    }
}

// ---------------------------------------------------------------------------
// The list of changes

/// What was changed in a file.
#[derive(Debug)]
pub struct DiffFile {
    pub path: String,
    pub before: String,
    pub after: String,
    pub focus_line: usize,
    pub changed_lines: usize,
}

impl Clone for DiffFile {
    fn clone(&self) -> (r: Self)
        ensures
            r == *self,
    {
        DiffFile {
            path: self.path.clone(),
            before: self.before.clone(),
            after: self.after.clone(),
            focus_line: self.focus_line,
            changed_lines: self.changed_lines,
        }
    }
}

/// A change put together again.
#[derive(Debug)]
pub struct Reconstructed {
    pub kind: FileChangeKind,
    pub files: Vec<DiffFile>,
}

/// The changes that are to be shown.
#[derive(Debug)]
pub struct DiffList {
    pub title: String,
    pub files: Vec<DiffFile>,
}

/// The changes that are to be shown.
#[verifier::ext_equal]
pub struct DiffListView {
    pub title: Seq<char>,
    pub files: Seq<DiffFile>,
}

impl View for DiffList {
    type V = DiffListView;

    open spec fn view(&self) -> DiffListView {
        DiffListView { title: self.title@, files: self.files@ }
    }
}

/// What the changes of a turn are called.
pub open spec fn turn_title(outcome: Option<TurnOutcome>) -> Seq<char> {
    match outcome {
        Some(TurnOutcome::Cancelled) => "Changes before cancellation"@,
        Some(TurnOutcome::Failed) => "Changes before error"@,
        _ => "Turn file changes"@,
    }
}

/// With the files of one more change.
pub open spec fn with_change(
    list: DiffListView,
    outcome: Option<TurnOutcome>,
    kind: FileChangeKind,
    files: Seq<DiffFile>,
) -> DiffListView {
    DiffListView {
        title: if kind == FileChangeKind::Turn {
            turn_title(outcome)
        } else {
            list.title
        },
        files: list.files + files,
    }
}

/// How the files rank: those with most changed lines first.
pub open spec fn change_ranks(files: Seq<DiffFile>) -> Seq<SmallestFirst> {
    Seq::new(files.len(), |i: int| SmallestFirst { number: (0 - files[i].changed_lines) as i128 })
}

/// The files, those with most changed lines first; files with as many stay in their order.
pub open spec fn most_changed_first(files: Seq<DiffFile>) -> Seq<DiffFile> {
    let order = sort::sort_by(change_ranks(files), sort::upto(files.len()));
    Seq::new(order.len(), |i: int| files[order[i]])
}

impl DiffList {
    /// A list without changes.
    pub fn new() -> (l: DiffList)
        ensures
            l@ == (DiffListView { title: "Operation changes"@, files: Seq::empty() }),
    {
        let l = DiffList { title: "Operation changes".to_owned(), files: Vec::new() };
        assert(l@.files == Seq::<DiffFile>::empty());
        l
    }

    /// Takes one more change, or refuses it where it cannot be put together again.
    pub fn take(
        &mut self,
        platform: Platform,
        change: &FileChangeSet,
        reconstructed: Result<Reconstructed, String>,
        project: &str,
        git_available: bool,
    ) -> (r: Result<(), ApiError>)
        ensures
            match reconstructed {
                Ok(c) => r is Ok && final(self)@ == with_change(
                    old(self)@,
                    change.outcome,
                    c.kind,
                    c.files@,
                ),
                Err(e) => final(self)@ == old(self)@ && (r matches Err(f) && f@ == (Refusal {
                    status: Status::Gone,
                    error: gone_text(platform, change.files@, project@, git_available, e@),
                })),
            },
    {
        match reconstructed {
            Ok(c) => {
                if let FileChangeKind::Turn = c.kind {
                    self.title = match change.outcome {
                        Some(TurnOutcome::Cancelled) => "Changes before cancellation".to_owned(),
                        Some(TurnOutcome::Failed) => "Changes before error".to_owned(),
                        _ => "Turn file changes".to_owned(),
                    };
                }
                let mut files = c.files;
                self.files.append(&mut files);
                Ok(())
            },
            Err(e) => Err(gone(platform, change, project, git_available, e)),
        }
    }

    /// The list as it is shown.
    pub fn ordered(&self) -> (l: DiffList)
        ensures
            l@ == (DiffListView { title: self@.title, files: most_changed_first(self@.files) }),
    {
        let mut keys: Vec<SmallestFirst> = Vec::new();
        let mut i: usize = 0;
        while i < self.files.len()
            invariant
                i <= self.files@.len(),
                keys@.len() == i,
                forall|j: int|
                    0 <= j < i ==> #[trigger] keys@[j] == change_ranks(self.files@)[j],
            decreases self.files@.len() - i,
        {
            keys.push(SmallestFirst { number: 0 - self.files[i].changed_lines as i128 });
            i += 1;
        }
        assert(keys@ == change_ranks(self.files@));
        let order = sort::sort_all(&keys);
        let mut files: Vec<DiffFile> = Vec::new();
        let mut i: usize = 0;
        while i < order.len()
            invariant
                i <= order@.len(),
                files@.len() == i,
                forall|j: int| 0 <= j < order@.len() ==> #[trigger] order@[j] < self.files@.len(),
                forall|j: int|
                    0 <= j < i ==> #[trigger] files@[j] == self.files@[order@[j] as int],
            decreases order@.len() - i,
        {
            files.push(self.files[order[i]].clone());
            i += 1;
        }
        assert(sort::ints(order@).len() == order@.len());
        assert(files@ == most_changed_first(self.files@));
        DiffList { title: self.title.clone(), files }
    }
}

// ---------------------------------------------------------------------------
// From a request to the editor

/// Changes on their way to the editor: those before `at` are in the list.
#[derive(Debug)]
pub struct Opening {
    pub change_ids: Vec<u128>,
    pub at: usize,
    pub list: DiffList,
}

/// What has to be done to show changes.
#[derive(Debug)]
pub enum OpenStep {
    /// Load a change and put it together again.
    Load(u128),
    /// Show them all, and go to the file at `focus`.
    Show { list: DiffList, focus: usize },
}

/// Whether a session knows of a change: it keeps it, or one of its activities made it.
pub open spec fn is_known(
    changes: Seq<FileChangeSet>,
    activities: Seq<AgentActivity>,
    live_activities: Seq<AgentActivity>,
    change_id: u128,
) -> bool {
    ||| change_at(changes, change_id, 0) < changes.len()
    ||| made_by(activities, change_id)
    ||| made_by(live_activities, change_id)
}

impl Opening {
    /// Whether the changes in the list are some of those that are asked for.
    pub open spec fn wf(self) -> bool {
        self.at <= self.change_ids@.len()
    }

    /// Begins with no change in the list.
    pub fn begin(change_ids: Vec<u128>) -> (r: Result<Opening, ApiError>)
        ensures
            match r {
                Ok(o) => o.wf() && change_ids@.len() > 0 && o.change_ids == change_ids && o.at == 0
                    && o.list@ == (DiffListView {
                    title: "Operation changes"@,
                    files: Seq::empty(),
                }),
                Err(e) => change_ids@.len() == 0 && e@ == api::bad(
                    "at least one file change is required"@,
                ),
            },
    {
        match check_changes(&change_ids) {
            Ok(()) => Ok(Opening { change_ids, at: 0, list: DiffList::new() }),
            Err(e) => Err(e),
        }
    }

    /// What has to be done next. No change is loaded that the session does not know of.
    pub fn next(
        &self,
        changes: &Vec<FileChangeSet>,
        activities: &Vec<AgentActivity>,
        live_activities: &Vec<AgentActivity>,
    ) -> (r: Result<OpenStep, ApiError>)
        requires
            self.wf(),
        ensures
            match r {
                Ok(OpenStep::Show { list, focus }) => self.at == self.change_ids@.len() && focus == 0
                    && list@ == (DiffListView {
                    title: self.list@.title,
                    files: most_changed_first(self.list@.files),
                }),
                Ok(OpenStep::Load(id)) => self.at < self.change_ids@.len() && id
                    == self.change_ids@[self.at as int] && is_known(
                    changes@,
                    activities@,
                    live_activities@,
                    id,
                ),
                Err(e) => self.at < self.change_ids@.len() && !is_known(
                    changes@,
                    activities@,
                    live_activities@,
                    self.change_ids@[self.at as int],
                ) && e@ == (Refusal {
                    status: Status::NotFound,
                    error: "file change is not part of this session"@,
                }),
            },
    {
        if self.at == self.change_ids.len() {
            return Ok(OpenStep::Show { list: self.list.ordered(), focus: 0 });
        }
        let id: u128 = self.change_ids[self.at];
        match referenced_change(changes, activities, live_activities, id) {
            Ok(_) => Ok(OpenStep::Load(id)),
            Err(e) => Err(e),
        }
    }

    /// Takes the change that was put together again, and goes on to the next one.
    pub fn take(
        &mut self,
        platform: Platform,
        change: &FileChangeSet,
        reconstructed: Result<Reconstructed, String>,
        project: &str,
        git_available: bool,
    ) -> (r: Result<(), ApiError>)
        requires
            old(self).wf(),
            old(self).at < old(self).change_ids@.len(),
        ensures
            final(self).wf(),
            final(self).change_ids == old(self).change_ids,
            match reconstructed {
                Ok(c) => r is Ok && final(self).at == old(self).at + 1 && final(self).list@
                    == with_change(old(self).list@, change.outcome, c.kind, c.files@),
                Err(e) => final(self).at == old(self).at && final(self).list@ == old(self).list@
                    && (r matches Err(f) && f@ == (Refusal {
                    status: Status::Gone,
                    error: gone_text(platform, change.files@, project@, git_available, e@),
                })),
            },
    {
        let count: usize = self.change_ids.len();
        match self.list.take(platform, change, reconstructed, project, git_available) {
            Ok(()) => {
                assert(self.at < count);
                self.at += 1;
                Ok(())
            },
            Err(e) => Err(e),
        }
    }
}

/// The files are shown with those first that have most changed lines, and none is lost.
pub proof fn files_are_shown_by_their_changes(files: Seq<DiffFile>)
    ensures
        most_changed_first(files).len() == files.len(),
        forall|i: int, j: int|
            0 <= i < j < files.len() ==> (#[trigger] most_changed_first(files)[i]).changed_lines
                >= (#[trigger] most_changed_first(files)[j]).changed_lines,
        forall|k: int|
            0 <= k < files.len() ==> most_changed_first(files).contains(#[trigger] files[k]),
{
    let keys = change_ranks(files);
    let all = sort::upto(files.len());
    let order = sort::sort_by(keys, all);
    sort::lemma_sort_members(keys, all);
    sort::lemma_sort_in_order(keys, all);
    let shown = most_changed_first(files);
    assert forall|i: int| 0 <= i < order.len() implies 0 <= #[trigger] order[i] < files.len() by {
        sort::lemma_sort_contains(keys, all, order[i]);
        assert(order.contains(order[i]));
        let k = choose|k: int| 0 <= k < all.len() && all[k] == order[i];
        assert(all[k] == k);
    }
    assert forall|i: int, j: int| 0 <= i < j < files.len() implies (
    #[trigger] shown[i]).changed_lines >= (#[trigger] shown[j]).changed_lines by {
        assert(!keys[order[j]].before(keys[order[i]]));
    }
    assert forall|k: int| 0 <= k < files.len() implies shown.contains(#[trigger] files[k]) by {
        sort::lemma_sort_contains(keys, all, k);
        assert(all[k] == k);
        assert(order.contains(k));
        let i = choose|i: int| 0 <= i < order.len() && order[i] == k;
        assert(shown[i] == files[k]);
    }
}

/// Changes are shown in the editor that starts or runs; of one that failed it is told why.
pub proof fn changes_are_shown_in_the_editor_that_runs(id: u128, message: String)
    ensures
        editor_of(EditorStatus::Starting { instance_id: id }) == Ok::<u128, Refusal>(id),
        editor_of(EditorStatus::Ready { instance_id: id }) == Ok::<u128, Refusal>(id),
        editor_of(EditorStatus::Closed) is Err,
        editor_of(EditorStatus::Unavailable { message }) matches Err(f) && f.error == message@
            && f.status == Status::ServiceUnavailable,
        editor_of(EditorStatus::Failed { message }) matches Err(f) && f.error == message@
            && f.status == Status::ServiceUnavailable,
{
}

/// A session knows a change that it keeps, or that an activity names, live or not; it knows no other.
pub proof fn a_change_is_known_where_it_is_named(
    changes: Seq<FileChangeSet>,
    activities: Seq<AgentActivity>,
    live_activities: Seq<AgentActivity>,
    id: u128,
)
    ensures
        is_known(changes, activities, live_activities, id) <==> {
            ||| exists|i: int| 0 <= i < changes.len() && (#[trigger] changes[i]).id == id
            ||| exists|i: int|
                0 <= i < activities.len() && ((#[trigger] activities[i]).change_id == Some(id)
                    || activities[i].live_change_id == Some(id))
            ||| exists|i: int|
                0 <= i < live_activities.len() && ((#[trigger] live_activities[i]).change_id
                    == Some(id) || live_activities[i].live_change_id == Some(id))
        },
{
    lemma_change_at(changes, id, 0);
    let at = change_at(changes, id, 0);
    if exists|i: int| 0 <= i < changes.len() && (#[trigger] changes[i]).id == id {
        let i = choose|i: int| 0 <= i < changes.len() && (#[trigger] changes[i]).id == id;
        if at > i {
            assert(changes[i].id != id);
        }
    }
    if made_by(activities, id) {
        let i = choose|i: int| 0 <= i < activities.len() && makes(#[trigger] activities[i], id);
        assert(activities[i].change_id == Some(id) || activities[i].live_change_id == Some(id));
    }
    if made_by(live_activities, id) {
        let i = choose|i: int|
            0 <= i < live_activities.len() && makes(#[trigger] live_activities[i], id);
        assert(live_activities[i].change_id == Some(id) || live_activities[i].live_change_id
            == Some(id));
    }
    if exists|i: int|
        0 <= i < activities.len() && ((#[trigger] activities[i]).change_id == Some(id)
            || activities[i].live_change_id == Some(id)) {
        let i = choose|i: int|
            0 <= i < activities.len() && ((#[trigger] activities[i]).change_id == Some(id)
                || activities[i].live_change_id == Some(id));
        assert(makes(activities[i], id));
    }
    if exists|i: int|
        0 <= i < live_activities.len() && ((#[trigger] live_activities[i]).change_id == Some(id)
            || live_activities[i].live_change_id == Some(id)) {
        let i = choose|i: int|
            0 <= i < live_activities.len() && ((#[trigger] live_activities[i]).change_id == Some(id)
                || live_activities[i].live_change_id == Some(id));
        assert(makes(live_activities[i], id));
    }
}

proof fn lemma_change_at(changes: Seq<FileChangeSet>, id: u128, from: int)
    requires
        0 <= from <= changes.len(),
    ensures
        from <= change_at(changes, id, from) <= changes.len(),
        change_at(changes, id, from) < changes.len() ==> changes[change_at(changes, id, from)].id
            == id,
        forall|i: int| from <= i < change_at(changes, id, from) ==> (#[trigger] changes[i]).id != id,
    decreases changes.len() - from,
{
    if from < changes.len() && changes[from].id != id {
        lemma_change_at(changes, id, from + 1);
    }
}

/// The files of a change stand behind those of the changes before it, and the changes of a turn give
/// the list its title.
pub proof fn files_of_changes_stand_in_a_row(
    list: DiffListView,
    outcome: Option<TurnOutcome>,
    files: Seq<DiffFile>,
)
    ensures
        forall|kind: FileChangeKind| #[trigger]
            with_change(list, outcome, kind, files).files == list.files + files,
        forall|kind: FileChangeKind|
            kind != FileChangeKind::Turn ==> (#[trigger] with_change(list, outcome, kind, files)).title
                == list.title,
        with_change(list, Some(TurnOutcome::Cancelled), FileChangeKind::Turn, files).title
            == "Changes before cancellation"@,
        with_change(list, Some(TurnOutcome::Failed), FileChangeKind::Turn, files).title
            == "Changes before error"@,
        with_change(list, None, FileChangeKind::Turn, files).title == "Turn file changes"@,
{
}

/// Where no file was kept for a time only, what went wrong is told; else why the changes are gone.
pub proof fn what_is_gone_is_explained(
    platform: Platform,
    files: Seq<FileChange>,
    project: Seq<char>,
    git: bool,
    error: Seq<char>,
    i: int,
)
    requires
        0 <= i < files.len(),
    ensures
        (forall|k: int| 0 <= k < files.len() ==> !((#[trigger] files[k]) is Temporary)) ==> gone_text(
            platform,
            files,
            project,
            git,
            error,
        ) == error,
        files[i] is Temporary && !paths::lies_in(platform, project, files[i].path_view())
            ==> gone_text(platform, files, project, git, error)
            == "Historical diffs for files outside the selected project are temporary and are no longer available."@,
        files[i] is Temporary && (forall|k: int|
            0 <= k < files.len() ==> paths::lies_in(
                platform,
                project,
                (#[trigger] files[k]).path_view(),
            )) ==> gone_text(platform, files, project, git, error) == (if git {
            "Historical diffs require Git. Initialize the project as a Git repository to preserve changes across turns."@
        } else {
            "Git is unavailable. Install Git, then initialize the selected project as a Git repository to preserve historical diffs."@
        }),
{
    if files[i] is Temporary {
        assert(is_temporary(files[i]));
        if !paths::lies_in(platform, project, files[i].path_view()) {
            assert(is_external(platform, files[i], project));
        }
    }
}

/// A change is shown as it is stored, and else as the session keeps it.
pub proof fn the_stored_change_is_shown(
    loaded: Option<FileChangeSet>,
    held: Option<FileChangeSet>,
    r: Result<FileChangeSet, ApiError>,
)
    requires
        call_ensures(available_change, (loaded, held), r),
    ensures
        loaded matches Some(c) ==> r == Ok::<FileChangeSet, ApiError>(c),
        loaded is None ==> (held matches Some(c) ==> r == Ok::<FileChangeSet, ApiError>(c)),
        r is Err <==> loaded is None && held is None,
{
}

} // verus!
