//! The history of install attempts: an append-only list of records, and
//! where it is kept.

use crate::env_detect::Environment;
use crate::executor::{join_path, path_under, ExecutionError, ExecutionResult};
use crate::planner::InstallPlan;
use vstd::prelude::*;

verus! {

/// How an install attempt ended.
#[derive(Debug, Clone, Copy, PartialEq, Eq, Structural)]
pub enum InstallStatus {
    Success,
    Failed,
}

/// The name under which a status is stored.
pub open spec fn status_name(status: InstallStatus) -> Seq<char> {
    match status {
        InstallStatus::Success => "success"@,
        InstallStatus::Failed => "failed"@,
    }
}

impl InstallStatus {
    /// The name under which the status is stored: `success` or `failed`.
    pub fn as_str(&self) -> (r: &'static str)
        ensures
            r@ == status_name(*self),
    {
        match self {
            InstallStatus::Success => "success",
            InstallStatus::Failed => "failed",
        }
    }

    /// The status that an execution's result stands for.
    pub fn of(result: &Result<ExecutionResult, ExecutionError>) -> (r: InstallStatus)
        ensures
            r == if result is Ok {
                InstallStatus::Success
            } else {
                InstallStatus::Failed
            },
    {
        match result {
            Ok(_) => InstallStatus::Success,
            Err(_) => InstallStatus::Failed,
        }
    }
}

/// A moment in UTC: whole seconds since the start of 1970, and the
/// nanoseconds since the last whole second.
#[derive(Debug, Clone, Copy, PartialEq, Eq, Structural)]
pub struct Timestamp {
    pub secs: i64,
    pub nanos: u32,
}

/// One install attempt, as it is kept in the history.
#[derive(Debug)]
pub struct InstallRecord {
    pub app_name: String,
    pub app_version: String,
    pub mode: String,
    pub os: String,
    pub cpu_arch: String,
    pub timestamp: Timestamp,
    pub status: InstallStatus,
}

/// What an [`InstallRecord`] says.
pub struct InstallRecordView {
    pub app_name: Seq<char>,
    pub app_version: Seq<char>,
    pub mode: Seq<char>,
    pub os: Seq<char>,
    pub cpu_arch: Seq<char>,
    pub timestamp: Timestamp,
    pub status: InstallStatus,
}

impl DeepView for InstallRecord {
    type V = InstallRecordView;

    open spec fn deep_view(&self) -> InstallRecordView {
        InstallRecordView {
            app_name: self.app_name@,
            app_version: self.app_version@,
            mode: self.mode@,
            os: self.os@,
            cpu_arch: self.cpu_arch@,
            timestamp: self.timestamp,
            status: self.status,
        }
    }
}

impl View for InstallRecord {
    type V = InstallRecordView;

    open spec fn view(&self) -> InstallRecordView {
        self.deep_view()
    }
}

impl Clone for InstallRecord {
    fn clone(&self) -> (r: Self)
        ensures
            r@ == self@,
    {
        InstallRecord {
            app_name: self.app_name.clone(),
            app_version: self.app_version.clone(),
            mode: self.mode.clone(),
            os: self.os.clone(),
            cpu_arch: self.cpu_arch.clone(),
            timestamp: self.timestamp,
            status: self.status,
        }
    }
}

impl InstallRecord {
    /// The record of an attempt to carry out `plan` in `env` that ended
    /// with `status` at `timestamp`.
    pub fn of_attempt(
        plan: &InstallPlan,
        env: &Environment,
        timestamp: Timestamp,
        status: InstallStatus,
    ) -> (r: InstallRecord)
        ensures
            r@ == (InstallRecordView {
                app_name: plan@.app_name,
                app_version: plan@.app_version,
                mode: plan@.chosen_mode,
                os: env@.os,
                cpu_arch: env@.cpu_arch,
                timestamp,
                status,
            }),
    {
        InstallRecord {
            app_name: plan.app_name.clone(),
            app_version: plan.app_version.clone(),
            mode: plan.chosen_mode.clone(),
            os: env.os.clone(),
            cpu_arch: env.cpu_arch.clone(),
            timestamp,
            status,
        }
    }
}

/// The history: install attempts in the order in which they were recorded.
#[derive(Debug)]
pub struct State {
    pub installs: Vec<InstallRecord>,
}

/// What a [`State`] says.
pub struct StateView {
    pub installs: Seq<InstallRecordView>,
}

impl DeepView for State {
    type V = StateView;

    open spec fn deep_view(&self) -> StateView {
        StateView { installs: self.installs.deep_view() }
    }
}

impl View for State {
    type V = StateView;

    open spec fn view(&self) -> StateView {
        self.deep_view()
    }
}

impl Default for State {
    /// The history before the first attempt.
    fn default() -> (r: Self)
        ensures
            r@.installs.len() == 0,
    {
        State { installs: Vec::new() }
    }
}

impl Clone for State {
    fn clone(&self) -> (r: Self)
        ensures
            r@ == self@,
    {
        let mut installs: Vec<InstallRecord> = Vec::new();
        let mut i: usize = 0;
        while i < self.installs.len()
            invariant
                i <= self.installs@.len(),
                installs@.len() == i,
                forall|k: int| 0 <= k < i ==> installs@[k]@ == self.installs@[k]@,
            decreases self.installs@.len() - i,
        {
            installs.push(self.installs[i].clone());
            i += 1;
        }
        assert(installs.deep_view() =~= self.installs.deep_view());
        State { installs }
    }
}

/// The history to start from: what was stored, or the empty history where
/// nothing has been stored yet.
pub fn load_state(stored: Option<State>) -> (r: State)
    ensures
        match stored {
            Some(state) => r == state,
            None => r@.installs.len() == 0,
        },
{
    match stored {
        Some(state) => state,
        None => State::default(),
    }
}

/// Appends a record to the history: the records already there keep their
/// order, and the new one comes last.
pub fn add_install_record(state: &mut State, record: InstallRecord)
    ensures
        final(state)@.installs == old(state)@.installs.push(record@),
{
    let ghost before = state.installs.deep_view();
    state.installs.push(record);
    assert(state.installs.deep_view() =~= before.push(record@));
}

/// The history after the records have been appended one after another.
pub open spec fn appended_each(installs: Seq<InstallRecordView>, records: Seq<InstallRecordView>) -> Seq<
    InstallRecordView,
>
    decreases records.len(),
{
    if records.len() == 0 {
        installs
    } else {
        appended_each(installs.push(records[0]), records.drop_first())
    }
}

/// After any number of appends the history holds what it held before,
/// followed by the appended records in the order of their appending;
/// started empty, it holds exactly as many records as were appended.
pub proof fn lemma_appends_in_order(installs: Seq<InstallRecordView>, records: Seq<InstallRecordView>)
    ensures
        appended_each(installs, records) == installs + records,
        appended_each(installs, records).len() == installs.len() + records.len(),
        appended_each(Seq::empty(), records) == records,
{
    let empty = Seq::<InstallRecordView>::empty();
    lemma_appends_plain(installs, records);
    lemma_appends_plain(empty, records);
    assert(empty + records =~= records);
}

proof fn lemma_appends_plain(installs: Seq<InstallRecordView>, records: Seq<InstallRecordView>)
    ensures
        appended_each(installs, records) == installs + records,
    decreases records.len(),
{
    if records.len() == 0 {
        assert(installs + records =~= installs);
    } else {
        lemma_appends_plain(installs.push(records[0]), records.drop_first());
        assert(installs.push(records[0]) + records.drop_first() =~= installs + records);
    }
}

/// The file that holds the history, under the platform's data directory.
pub open spec fn state_file_under(data_dir: Seq<char>) -> Seq<char> {
    path_under(path_under(data_dir, "enzyme-installer"@), "state.json"@)
}

/// The sibling file that a new history is written to before it replaces
/// the old one.
pub open spec fn temp_file_under(data_dir: Seq<char>) -> Seq<char> {
    path_under(path_under(data_dir, "enzyme-installer"@), "state.tmp"@)
}

/// Where the history is kept, given the platform's data directory; an
/// error where the platform has none.
pub fn state_file_path(data_dir: Option<&str>) -> (r: Result<String, String>)
    ensures
        match data_dir {
            Some(dir) => r matches Ok(path) && path@ == state_file_under(dir@),
            None => r matches Err(message) && message@
                == "could not determine platform data directory"@,
        },
{
    match data_dir {
        Some(dir) => {
            let base = join_path(dir, "enzyme-installer");
            Ok(join_path(base.as_str(), "state.json"))
        },
        None => Err(String::from_str("could not determine platform data directory")),
    }
}

/// Where a new history is written before it takes the place of the old
/// one: a sibling of the history file, so that the replacement is a
/// rename within one directory.
pub fn temp_file_path(data_dir: &str) -> (r: String)
    ensures
        r@ == temp_file_under(data_dir@),
{
    let base = join_path(data_dir, "enzyme-installer");
    join_path(base.as_str(), "state.tmp")
}

/// One thing done to the file system when the history is saved.
#[derive(Debug)]
pub enum StoreAction {
    /// Create the directory at `path`, with its parents.
    CreateDirectory { path: String },
    /// Write the whole history to the file at `path`.
    WriteFile { path: String },
    /// Rename the file at `from` to `to`, replacing what is there.
    Rename { from: String, to: String },
}

/// What a [`StoreAction`] says.
pub enum StoreActionView {
    CreateDirectory { path: Seq<char> },
    WriteFile { path: Seq<char> },
    Rename { from: Seq<char>, to: Seq<char> },
}

impl DeepView for StoreAction {
    type V = StoreActionView;

    open spec fn deep_view(&self) -> StoreActionView {
        match self {
            StoreAction::CreateDirectory { path } => StoreActionView::CreateDirectory {
                path: path@,
            },
            StoreAction::WriteFile { path } => StoreActionView::WriteFile { path: path@ },
            StoreAction::Rename { from, to } => StoreActionView::Rename { from: from@, to: to@ },
        }
    }
}

impl View for StoreAction {
    type V = StoreActionView;

    open spec fn view(&self) -> StoreActionView {
        self.deep_view()
    }
}

/// Whether an action changes what the file at `path` holds.
pub open spec fn changes_file(action: StoreActionView, path: Seq<char>) -> bool {
    match action {
        StoreActionView::CreateDirectory { path: _ } => false,
        StoreActionView::WriteFile { path: written } => written == path,
        StoreActionView::Rename { from, to } => from == path || to == path,
    }
}

/// How the history is saved: its directory is created, the new history is
/// written to the sibling file, and the sibling is renamed over the
/// history file.
pub open spec fn save_actions(data_dir: Seq<char>) -> Seq<StoreActionView> {
    seq![
        StoreActionView::CreateDirectory { path: path_under(data_dir, "enzyme-installer"@) },
        StoreActionView::WriteFile { path: temp_file_under(data_dir) },
        StoreActionView::Rename { from: temp_file_under(data_dir), to: state_file_under(data_dir) },
    ]
}

/// The actions that save the history, in the order in which they are to be
/// carried out.
pub fn save_state(data_dir: &str) -> (r: Vec<StoreAction>)
    ensures
        r.deep_view() == save_actions(data_dir@),
{
    let directory = join_path(data_dir, "enzyme-installer");
    let temp = temp_file_path(data_dir);
    let target = join_path(directory.as_str(), "state.json");
    let mut actions: Vec<StoreAction> = Vec::new();
    actions.push(StoreAction::CreateDirectory { path: directory });
    actions.push(StoreAction::WriteFile { path: temp.clone() });
    actions.push(StoreAction::Rename { from: temp, to: target });
    assert(actions.deep_view() =~= save_actions(data_dir@));
    actions
}

/// Saving never leaves a half-written history: nothing before the final
/// rename changes the history file, so a save that is cut short at any
/// point before the rename leaves the previous file as it was.
pub proof fn lemma_save_replaces_last(data_dir: Seq<char>)
    ensures
        save_actions(data_dir).len() == 3,
        forall|i: int|
            0 <= i < 2 ==> !changes_file(
                #[trigger] save_actions(data_dir)[i],
                state_file_under(data_dir),
            ),
        save_actions(data_dir)[2] == (StoreActionView::Rename {
            from: temp_file_under(data_dir),
            to: state_file_under(data_dir),
        }),
        temp_file_under(data_dir) != state_file_under(data_dir),
{
    reveal_strlit("state.json");
    reveal_strlit("state.tmp");
    let directory = path_under(data_dir, "enzyme-installer"@);
    assert("state.json"@.len() == 10);
    assert("state.tmp"@.len() == 9);
    assert(path_under(directory, "state.json"@).len() == path_under(directory, "state.tmp"@).len()
        + 1);
}

} // verus!
