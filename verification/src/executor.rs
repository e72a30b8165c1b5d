//! Carrying out a plan: what to do next, what each outcome means, and the
//! pure parts of the individual step kinds.
//!
//! The side effects themselves (spawning a shell, fetching a URL, touching
//! the file system) happen outside this library. What is decided here is
//! the order of steps, when to stop, what a failure is called, which paths
//! an archive entry may be written to, and what a rendered template reads.

use crate::planner::{InstallPlan, PlannedStep};
use crate::strmap::{lemma_lookup_deep, lookup, StrMap};
use crate::text::{
    chars_of, decimal, decimal_digits, decimal_signed, find_from, first_occurrence,
    lemma_first_occurrence, occurs_at, signed_digits, split, split_on, str_eq, trim, trimmed,
};
use vstd::prelude::*;

verus! {

/// How many steps ran, out of how many: returned only when all did.
#[derive(Debug, Clone, Copy, PartialEq, Eq, Structural)]
pub struct ExecutionResult {
    pub completed_steps: usize,
    pub total_steps: usize,
}

/// Why an execution stopped early.
#[derive(Debug)]
pub enum ExecutionError {
    /// The step at `index` (counted from zero) could not complete.
    StepFailed { index: usize, message: String },
    /// Something went wrong before a step's index was known.
    Other(String),
}

/// What an [`ExecutionError`] says.
pub enum ExecutionErrorView {
    StepFailed { index: nat, message: Seq<char> },
    Other(Seq<char>),
}

impl View for ExecutionError {
    type V = ExecutionErrorView;

    open spec fn view(&self) -> ExecutionErrorView {
        match self {
            ExecutionError::StepFailed { index, message } => ExecutionErrorView::StepFailed {
                index: *index as nat,
                message: message@,
            },
            ExecutionError::Other(message) => ExecutionErrorView::Other(message@),
        }
    }
}

/// The text of an [`ExecutionError`].
pub open spec fn execution_error_message(e: ExecutionErrorView) -> Seq<char> {
    match e {
        ExecutionErrorView::StepFailed { index, message } => "step "@ + decimal_digits(index)
            + " failed: "@ + message,
        ExecutionErrorView::Other(message) => message,
    }
}

impl ExecutionError {
    /// The error as a sentence.
    pub fn message(&self) -> (r: String)
        ensures
            r@ == execution_error_message(self@),
    {
        match self {
            ExecutionError::StepFailed { index, message } => {
                let mut r = String::from_str("step ");
                let number = decimal(*index as u64);
                r.append(number.as_str());
                r.append(" failed: ");
                r.append(message.as_str());
                r
            },
            ExecutionError::Other(message) => message.clone(),
        }
    }
}

/// The two characters that open a placeholder.
pub open spec fn opening() -> Seq<char> {
    seq!['{', '{']
}

/// The two characters that close a placeholder.
pub open spec fn closing() -> Seq<char> {
    seq!['}', '}']
}

/// The template from position `from` on, with its placeholders filled in.
///
/// A placeholder runs from the first `{{` to the first `}}` after it; the
/// text between them, trimmed, is the key. A placeholder whose key has a
/// value is replaced by the value; any other is kept as written. Text
/// after the last complete placeholder is kept as written.
pub open spec fn rendered_from(
    template: Seq<char>,
    vars: Seq<(Seq<char>, Seq<char>)>,
    from: int,
) -> Seq<char>
    decreases template.len() - from,
{
    let rest = template.subrange(from, template.len() as int);
    if from < 0 {
        rest
    } else {
        match first_occurrence(template, opening(), from) {
            None => rest,
            Some(start) => match first_occurrence(template, closing(), start + 2) {
                None => rest,
                Some(end) => {
                    proof {
                        lemma_first_occurrence(template, opening(), from);
                        lemma_first_occurrence(template, closing(), start + 2);
                    }
                    let key = template.subrange(start + 2, end);
                    let filled = match lookup(vars, trimmed(key)) {
                        Some(value) => value,
                        None => template.subrange(start, end + 2),
                    };
                    template.subrange(from, start) + filled + rendered_from(
                        template,
                        vars,
                        end + 2,
                    )
                },
            },
        }
    }
}

/// The template with its placeholders filled in.
pub open spec fn rendered(template: Seq<char>, vars: Seq<(Seq<char>, Seq<char>)>) -> Seq<char> {
    rendered_from(template, vars, 0)
}

/// Where no key has a value, rendering changes nothing: every placeholder
/// stays in the text exactly as it was written.
pub proof fn lemma_unresolved_kept(template: Seq<char>, vars: Seq<(Seq<char>, Seq<char>)>, from: int)
    requires
        0 <= from <= template.len(),
        forall|key: Seq<char>| lookup(vars, key) is None,
    ensures
        rendered_from(template, vars, from) == template.subrange(from, template.len() as int),
    decreases template.len() - from,
{
    lemma_first_occurrence(template, opening(), from);
    if let Some(start) = first_occurrence(template, opening(), from) {
        assert(opening().len() == 2);
        lemma_first_occurrence(template, closing(), start + 2);
        if let Some(end) = first_occurrence(template, closing(), start + 2) {
            assert(closing().len() == 2);
            lemma_unresolved_kept(template, vars, end + 2);
            assert(template.subrange(from, start) + template.subrange(start, end + 2)
                + template.subrange(end + 2, template.len() as int) =~= template.subrange(
                from,
                template.len() as int,
            ));
        }
    }
}

/// A text without `{{` is its own rendering, whatever the values.
pub proof fn lemma_plain_text_kept(template: Seq<char>, vars: Seq<(Seq<char>, Seq<char>)>)
    requires
        first_occurrence(template, opening(), 0) is None,
    ensures
        rendered(template, vars) == template,
{
    assert(template.subrange(0, template.len() as int) =~= template);
}

/// Fills the `{{ key }}` placeholders of a template from `vars`. A
/// placeholder whose key is unknown stays in the text as it was written.
pub fn replace_placeholders(template: &str, vars: &StrMap<String>) -> (r: String)
    ensures
        r@ == rendered(template@, vars.deep_view()),
{
    let chars = chars_of(template);
    let n: usize = chars.len();
    let mut open: Vec<char> = Vec::new();
    open.push('{');
    open.push('{');
    let mut close: Vec<char> = Vec::new();
    close.push('}');
    close.push('}');
    assert(open@ =~= opening());
    assert(close@ =~= closing());
    let ghost values = vars.deep_view();
    let mut result = String::new();
    let mut from: usize = 0;
    loop
        invariant
            from <= n,
            n == chars@.len(),
            chars@ == template@,
            open@ == opening(),
            close@ == closing(),
            values == vars.deep_view(),
            rendered(template@, values) == result@ + rendered_from(template@, values, from as int),
        decreases n - from,
    {
        let start: usize = match find_from(&chars, &open, from) {
            Some(start) => start,
            None => {
                result.append(template.substring_char(from, n));
                return result;
            },
        };
        proof {
            lemma_first_occurrence(template@, opening(), from as int);
            assert(opening().len() == 2);
            assert(occurs_at(template@, opening(), start as int));
        }
        let end: usize = match find_from(&chars, &close, start + 2) {
            Some(end) => end,
            None => {
                result.append(template.substring_char(from, n));
                return result;
            },
        };
        proof {
            lemma_first_occurrence(template@, closing(), start + 2);
            assert(closing().len() == 2);
            assert(occurs_at(template@, closing(), end as int));
            lemma_lookup_deep(*vars, trimmed(template@.subrange(start + 2, end as int)));
        }
        let ghost before = result@;
        result.append(template.substring_char(from, start));
        let key = template.substring_char(start + 2, end);
        match vars.get(trim(key)) {
            Some(value) => {
                result.append(value.as_str());
            },
            None => {
                result.append(template.substring_char(start, end + 2));
            },
        }
        proof {
            let filled = match lookup(values, trimmed(template@.subrange(start + 2, end as int))) {
                Some(value) => value,
                None => template@.subrange(start as int, end + 2),
            };
            assert(result@ =~= before + template@.subrange(from as int, start as int) + filled);
            assert(before + rendered_from(template@, values, from as int) =~= result@
                + rendered_from(template@, values, end + 2));
        }
        from = end + 2;
    }
}

/// The command interpreter for a platform and the flag that makes it run
/// one command line: the Windows command processor on Windows, a POSIX
/// shell everywhere else.
pub open spec fn shell_of(os: Seq<char>) -> (Seq<char>, Seq<char>) {
    if os == "windows"@ {
        ("cmd"@, "/C"@)
    } else {
        ("/bin/sh"@, "-c"@)
    }
}

/// The program and flag with which a `Run` step's command line is handed
/// to the platform's command interpreter.
pub fn shell_for(os: &str) -> (r: (String, String))
    ensures
        (r.0@, r.1@) == shell_of(os@),
{
    if str_eq(os, "windows") {
        (String::from_str("cmd"), String::from_str("/C"))
    } else {
        (String::from_str("/bin/sh"), String::from_str("-c"))
    }
}

/// What became of a spawned command: it could not be started, or it ended
/// with an exit code, or without one where a signal ended it.
#[derive(Debug, Clone, Copy, PartialEq, Eq, Structural)]
pub enum CommandReport {
    NotStarted,
    Exited(Option<i32>),
}

/// An exit code as `{:?}` writes it.
pub open spec fn exit_code_debug(code: Option<i32>) -> Seq<char> {
    match code {
        Some(c) => "Some("@ + signed_digits(c as int) + ")"@,
        None => "None"@,
    }
}

/// What a `Run` step's outcome means: success is exit code zero; anything
/// else is a failure with the message given.
pub open spec fn command_outcome(command: Seq<char>, report: CommandReport) -> Result<
    (),
    Seq<char>,
> {
    match report {
        CommandReport::NotStarted => Err("running shell command: "@ + command),
        CommandReport::Exited(Some(0)) => Ok(()),
        CommandReport::Exited(code) => Err("command exited with status "@ + exit_code_debug(code)),
    }
}

/// Judges the outcome of a `Run` step.
pub fn run_command(command: &str, report: CommandReport) -> (r: Result<(), String>)
    ensures
        match command_outcome(command@, report) {
            Ok(_) => r is Ok,
            Err(message) => r matches Err(text) && text@ == message,
        },
{
    match report {
        CommandReport::NotStarted => {
            let mut message = String::from_str("running shell command: ");
            message.append(command);
            Err(message)
        },
        CommandReport::Exited(code) => {
            let mut message = String::from_str("command exited with status ");
            match code {
                Some(c) => {
                    if c == 0 {
                        return Ok(());
                    }
                    let ghost head = message@;
                    message.append("Some(");
                    let digits = decimal_signed(c);
                    message.append(digits.as_str());
                    message.append(")");
                    assert(message@ =~= head + ("Some("@ + signed_digits(c as int) + ")"@));
                },
                None => {
                    message.append("None");
                },
            }
            Err(message)
        },
    }
}

/// Whether an HTTP status code reports success, that is, lies in 200..=299.
pub open spec fn is_success_status(status: u16) -> bool {
    200 <= status < 300
}

/// What became of the request of a download: it failed, or the server
/// answered with the given status and its text, such as `404 Not Found`.
#[derive(Debug)]
pub enum DownloadReport {
    RequestFailed,
    Answered { status: u16, status_text: String },
}

/// What a server's answer means for a `Download` step: a status outside
/// 200..=299 fails the step and nothing may be written.
pub open spec fn download_outcome(status: u16, status_text: Seq<char>) -> Result<(), Seq<char>> {
    if is_success_status(status) {
        Ok(())
    } else {
        Err("download failed with status "@ + status_text)
    }
}

/// Judges a server's answer to a `Download` step before anything is
/// written: `Ok` exactly for a status in 200..=299.
pub fn perform_download(url: &str, report: &DownloadReport) -> (r: Result<(), String>)
    ensures
        match *report {
            DownloadReport::RequestFailed => r matches Err(text) && text@ == "requesting "@ + url@,
            DownloadReport::Answered { status, status_text } => match download_outcome(
                status,
                status_text@,
            ) {
                Ok(_) => r is Ok,
                Err(message) => r matches Err(text) && text@ == message,
            },
        },
{
    match report {
        DownloadReport::RequestFailed => {
            let mut message = String::from_str("requesting ");
            message.append(url);
            Err(message)
        },
        DownloadReport::Answered { status, status_text } => {
            if 200 <= *status && *status < 300 {
                Ok(())
            } else {
                let mut message = String::from_str("download failed with status ");
                message.append(status_text.as_str());
                Err(message)
            }
        },
    }
}

/// The path component that names a parent directory.
pub open spec fn parent_component() -> Seq<char> {
    seq!['.', '.']
}

/// Whether one of the `/`-separated components of `name` is `..`.
pub open spec fn has_parent_component(name: Seq<char>) -> bool {
    exists|i: int|
        0 <= i < split_on(name, '/').len() && #[trigger] split_on(name, '/')[i]
            == parent_component()
}

/// Whether `name` is an absolute path, that is, begins with `/`.
pub open spec fn is_absolute_name(name: Seq<char>) -> bool {
    name.len() > 0 && name[0] == '/'
}

/// `name` placed under the directory `dest`.
pub open spec fn path_under(dest: Seq<char>, name: Seq<char>) -> Seq<char> {
    if dest.len() == 0 {
        name
    } else if dest.last() == '/' {
        dest + name
    } else {
        dest + seq!['/'] + name
    }
}

/// Where an archive entry is to be written, or why it is refused: an entry
/// with a `..` component escapes the destination, and an absolute entry
/// names a place of its own; every other entry goes under the destination.
pub open spec fn sanitized_path(dest: Seq<char>, name: Seq<char>) -> Result<Seq<char>, Seq<char>> {
    if has_parent_component(name) {
        Err("archive entry escapes destination: "@ + name)
    } else if is_absolute_name(name) {
        Err("archive entry has absolute path: "@ + name)
    } else {
        Ok(path_under(dest, name))
    }
}

/// Places `name` under the directory `dest`, with one `/` between them
/// unless `dest` is empty or already ends in one.
pub fn join_path(dest: &str, name: &str) -> (r: String)
    ensures
        r@ == path_under(dest@, name@),
{
    let dest_chars = chars_of(dest);
    let mut path = String::from_str(dest);
    if dest_chars.len() > 0 && dest_chars[dest_chars.len() - 1] != '/' {
        proof {
            reveal_strlit("/");
            assert("/"@ =~= seq!['/']);
        }
        path.append("/");
    }
    path.append(name);
    proof {
        assert(path@ =~= path_under(dest@, name@));
    }
    path
}

fn names_parent(name: &str) -> (r: bool)
    ensures
        r == has_parent_component(name@),
{
    let pieces = split(name, '/');
    let ghost view = pieces.deep_view();
    let mut i: usize = 0;
    while i < pieces.len()
        invariant
            i <= pieces@.len(),
            view == pieces.deep_view(),
            view == split_on(name@, '/'),
            forall|k: int| 0 <= k < i ==> #[trigger] view[k] != parent_component(),
        decreases pieces@.len() - i,
    {
        assert(view[i as int] == pieces@[i as int]@);
        let chars = chars_of(pieces[i].as_str());
        if chars.len() == 2 && chars[0] == '.' && chars[1] == '.' {
            assert(chars@ =~= parent_component());
            return true;
        }
        assert(chars@ != parent_component()) by {
            if chars@ == parent_component() {
                assert(parent_component().len() == 2);
                assert(parent_component()[0] == '.');
                assert(parent_component()[1] == '.');
            }
        }
        i += 1;
    }
    false
}

/// Decides where an archive entry may be written under `dest`. Entries
/// that would leave the destination by a `..` component, or that name an
/// absolute path, are refused with a message that names the entry.
pub fn sanitize_extract_path(dest: &str, name: &str) -> (r: Result<String, String>)
    ensures
        match sanitized_path(dest@, name@) {
            Ok(path) => r matches Ok(p) && p@ == path,
            Err(message) => r matches Err(text) && text@ == message,
        },
{
    if names_parent(name) {
        let mut message = String::from_str("archive entry escapes destination: ");
        message.append(name);
        return Err(message);
    }
    let name_chars = chars_of(name);
    if name_chars.len() > 0 && name_chars[0] == '/' {
        let mut message = String::from_str("archive entry has absolute path: ");
        message.append(name);
        return Err(message);
    }
    Ok(join_path(dest, name))
}

/// Whether the path with components `target` lies in or is the directory
/// with components `root`: every component of `root`, in order, opens
/// `target`.
pub open spec fn lies_within(root: Seq<Seq<char>>, target: Seq<Seq<char>>) -> bool {
    root.len() <= target.len() && forall|i: int| 0 <= i < root.len() ==> root[i] == target[i]
}

/// Confirms that a resolved target lies within the resolved destination,
/// both given by their path components; otherwise refuses the entry with
/// a message that names it.
pub fn confirm_within(name: &str, root: &Vec<String>, target: &Vec<String>) -> (r: Result<
    (),
    String,
>)
    ensures
        lies_within(root.deep_view(), target.deep_view()) ==> r is Ok,
        !lies_within(root.deep_view(), target.deep_view()) ==> (r matches Err(text) && text@
            == "archive entry outside destination: "@ + name@),
{
    let mut inside: bool = root.len() <= target.len();
    let mut i: usize = 0;
    while inside && i < root.len()
        invariant
            i <= root@.len(),
            inside ==> root@.len() <= target@.len(),
            inside ==> forall|k: int|
                0 <= k < i ==> #[trigger] root.deep_view()[k] == target.deep_view()[k],
            !inside ==> !lies_within(root.deep_view(), target.deep_view()),
        decreases root@.len() - i,
    {
        assert(root.deep_view()[i as int] == root@[i as int]@);
        assert(target.deep_view()[i as int] == target@[i as int]@);
        if !str_eq(root[i].as_str(), target[i].as_str()) {
            inside = false;
        }
        i += 1;
    }
    if inside {
        Ok(())
    } else {
        let mut message = String::from_str("archive entry outside destination: ");
        message.append(name);
        Err(message)
    }
}

/// What to do with one archive entry.
#[derive(Debug)]
pub enum EntryAction {
    /// Create the directory at `path`, with its parents.
    CreateDirectory { path: String },
    /// Create the parents of `path`, write the entry's bytes there, and
    /// set the permission bits `mode` if some are given.
    WriteFile { path: String, mode: Option<u32> },
}

/// What an [`EntryAction`] says.
pub enum EntryActionView {
    CreateDirectory { path: Seq<char> },
    WriteFile { path: Seq<char>, mode: Option<u32> },
}

impl View for EntryAction {
    type V = EntryActionView;

    open spec fn view(&self) -> EntryActionView {
        match self {
            EntryAction::CreateDirectory { path } => EntryActionView::CreateDirectory {
                path: path@,
            },
            EntryAction::WriteFile { path, mode } => EntryActionView::WriteFile {
                path: path@,
                mode: *mode,
            },
        }
    }
}

/// What is done with an archive entry: nothing if its name is refused; a
/// directory is created; a file is written, with the recorded permission
/// bits where the platform has them.
pub open spec fn entry_action(
    dest: Seq<char>,
    name: Seq<char>,
    is_dir: bool,
    unix_mode: Option<u32>,
    posix: bool,
) -> Result<EntryActionView, Seq<char>> {
    match sanitized_path(dest, name) {
        Err(message) => Err(message),
        Ok(path) => if is_dir {
            Ok(EntryActionView::CreateDirectory { path })
        } else {
            Ok(
                EntryActionView::WriteFile {
                    path,
                    mode: if posix {
                        unix_mode
                    } else {
                        None
                    },
                },
            )
        },
    }
}

/// Decides what to do with one archive entry, before anything is written
/// for it.
pub fn plan_entry(dest: &str, name: &str, is_dir: bool, unix_mode: Option<u32>, posix: bool) -> (r:
    Result<EntryAction, String>)
    ensures
        match entry_action(dest@, name@, is_dir, unix_mode, posix) {
            Ok(action) => r matches Ok(a) && a@ == action,
            Err(message) => r matches Err(text) && text@ == message,
        },
{
    let path = match sanitize_extract_path(dest, name) {
        Ok(path) => path,
        Err(message) => {
            return Err(message);
        },
    };
    if is_dir {
        Ok(EntryAction::CreateDirectory { path })
    } else {
        let mode = if posix {
            unix_mode
        } else {
            None
        };
        Ok(EntryAction::WriteFile { path, mode })
    }
}

/// An accepted entry has no `..` component, is not absolute, and is
/// written to a path that the destination opens.
pub proof fn lemma_sanitized_stays_under(dest: Seq<char>, name: Seq<char>)
    requires
        sanitized_path(dest, name) is Ok,
    ensures
        !has_parent_component(name),
        !is_absolute_name(name),
        dest.is_prefix_of(sanitized_path(dest, name)->Ok_0),
        name.is_suffix_of(sanitized_path(dest, name)->Ok_0),
{
    let path = path_under(dest, name);
    assert(path.subrange(0, dest.len() as int) =~= dest);
    assert(path.subrange(path.len() - name.len(), path.len() as int) =~= name);
}

/// What a step's outcome means for the plan: success stays success, and a
/// failure is reported under the step's own index.
pub open spec fn step_result(index: nat, outcome: Result<(), Seq<char>>) -> Result<
    (),
    ExecutionErrorView,
> {
    match outcome {
        Ok(_) => Ok(()),
        Err(message) => Err(ExecutionErrorView::StepFailed { index, message }),
    }
}

/// Turns the outcome of carrying out one step into the step's result: a
/// failure is reported under the step's index with the message given.
pub fn execute_step(step: &PlannedStep, outcome: Result<(), String>) -> (r: Result<
    (),
    ExecutionError,
>)
    ensures
        match outcome {
            Ok(_) => r is Ok,
            Err(message) => r matches Err(e) && e@ == (ExecutionErrorView::StepFailed {
                index: step@.index,
                message: message@,
            }),
        },
{
    match outcome {
        Ok(_) => Ok(()),
        Err(message) => Err(ExecutionError::StepFailed { index: step.index, message }),
    }
}

/// The failure that ends a plan when the step at `position` fails: a
/// failure that names a step is passed on, any other is ascribed to the
/// step at `position`.
pub open spec fn failure_at(position: nat, error: ExecutionErrorView) -> ExecutionErrorView {
    match error {
        ExecutionErrorView::StepFailed { index, message } => error,
        ExecutionErrorView::Other(message) => ExecutionErrorView::StepFailed {
            index: position,
            message,
        },
    }
}

/// Where an execution stands after a step.
#[derive(Debug)]
pub enum Progress {
    /// The step at this position is the next to carry out.
    Continue(usize),
    /// Every step has completed.
    Finished(ExecutionResult),
    /// A step failed; no further step is to be carried out.
    Failed(ExecutionError),
}

/// What a [`Progress`] says.
pub enum ProgressView {
    Continue(nat),
    Finished { completed_steps: nat, total_steps: nat },
    Failed(ExecutionErrorView),
}

impl View for Progress {
    type V = ProgressView;

    open spec fn view(&self) -> ProgressView {
        match self {
            Progress::Continue(position) => ProgressView::Continue(*position as nat),
            Progress::Finished(result) => ProgressView::Finished {
                completed_steps: result.completed_steps as nat,
                total_steps: result.total_steps as nat,
            },
            Progress::Failed(error) => ProgressView::Failed(error@),
        }
    }
}

/// Where an execution of `total` steps stands before its first step.
pub open spec fn progress_at_start(total: nat) -> ProgressView {
    if total == 0 {
        ProgressView::Finished { completed_steps: 0, total_steps: 0 }
    } else {
        ProgressView::Continue(0)
    }
}

/// Where an execution of `total` steps stands once the step at `position`
/// has ended with `outcome`: a failure ends it; a success leads to the
/// next step, or to the end after the last one.
pub open spec fn progress_after(
    total: nat,
    position: nat,
    outcome: Result<(), ExecutionErrorView>,
) -> ProgressView {
    match outcome {
        Err(error) => ProgressView::Failed(failure_at(position, error)),
        Ok(_) => if position + 1 >= total {
            ProgressView::Finished { completed_steps: total, total_steps: total }
        } else {
            ProgressView::Continue(position + 1)
        },
    }
}

/// The view of a step's result.
pub open spec fn result_view(outcome: Result<(), ExecutionError>) -> Result<(), ExecutionErrorView> {
    match outcome {
        Ok(_) => Ok(()),
        Err(e) => Err(e@),
    }
}

/// Where the execution of a plan stands before its first step.
pub fn begin(plan: &InstallPlan) -> (r: Progress)
    ensures
        r@ == progress_at_start(plan@.steps.len()),
{
    if plan.steps.len() == 0 {
        Progress::Finished(ExecutionResult { completed_steps: 0, total_steps: 0 })
    } else {
        Progress::Continue(0)
    }
}

/// Where the execution of a plan stands once the step at `position` has
/// ended with `outcome`.
pub fn advance(plan: &InstallPlan, position: usize, outcome: Result<(), ExecutionError>) -> (r:
    Progress)
    ensures
        r@ == progress_after(plan@.steps.len(), position as nat, result_view(outcome)),
{
    let total: usize = plan.steps.len();
    match outcome {
        Err(error) => Progress::Failed(
            match error {
                ExecutionError::StepFailed { index, message } => ExecutionError::StepFailed {
                    index,
                    message,
                },
                ExecutionError::Other(message) => ExecutionError::StepFailed {
                    index: position,
                    message,
                },
            },
        ),
        Ok(_) => if total == 0 || position >= total - 1 {
            Progress::Finished(ExecutionResult { completed_steps: total, total_steps: total })
        } else {
            Progress::Continue(position + 1)
        },
    }
}

/// Where an execution of `total` steps arrives from `position`, given the
/// outcomes of the steps in plan order. Outcomes are consulted one by one
/// and none after the first failure.
pub open spec fn run_from(
    total: nat,
    outcomes: Seq<Result<(), ExecutionErrorView>>,
    position: nat,
) -> ProgressView
    decreases total - position,
{
    if position >= total {
        ProgressView::Finished { completed_steps: total, total_steps: total }
    } else if position >= outcomes.len() {
        ProgressView::Continue(position)
    } else {
        match outcomes[position as int] {
            Err(error) => ProgressView::Failed(failure_at(position, error)),
            Ok(_) => run_from(total, outcomes, position + 1),
        }
    }
}

/// An execution halts at its first failing step: the failure is ascribed
/// to that step, and what later steps would have done plays no part.
pub proof fn lemma_halts_at_first_failure(
    total: nat,
    outcomes: Seq<Result<(), ExecutionErrorView>>,
    others: Seq<Result<(), ExecutionErrorView>>,
    k: nat,
)
    requires
        k < total,
        k < outcomes.len(),
        k < others.len(),
        outcomes[k as int] is Err,
        forall|j: int| 0 <= j < k ==> outcomes[j] is Ok,
        forall|j: int| 0 <= j <= k ==> others[j] == outcomes[j],
    ensures
        run_from(total, outcomes, 0) == ProgressView::Failed(
            failure_at(k, outcomes[k as int]->Err_0),
        ),
        run_from(total, others, 0) == run_from(total, outcomes, 0),
{
    lemma_run_prefix(total, outcomes, k, 0);
    lemma_run_prefix(total, others, k, 0);
}

proof fn lemma_run_prefix(
    total: nat,
    outcomes: Seq<Result<(), ExecutionErrorView>>,
    k: nat,
    position: nat,
)
    requires
        position <= k,
        k < total,
        k < outcomes.len(),
        forall|j: int| position <= j < k ==> outcomes[j] is Ok,
    ensures
        run_from(total, outcomes, position) == run_from(total, outcomes, k),
    decreases k - position,
{
    if position < k {
        lemma_run_prefix(total, outcomes, k, position + 1);
    }
}

/// An execution whose steps all succeed completes every step: the count of
/// completed steps equals the total.
pub proof fn lemma_all_succeed(total: nat, outcomes: Seq<Result<(), ExecutionErrorView>>)
    requires
        outcomes.len() >= total,
        forall|j: int| 0 <= j < total ==> outcomes[j] is Ok,
    ensures
        run_from(total, outcomes, 0) == (ProgressView::Finished {
            completed_steps: total,
            total_steps: total,
        }),
{
    lemma_run_tail(total, outcomes, 0);
}

proof fn lemma_run_tail(total: nat, outcomes: Seq<Result<(), ExecutionErrorView>>, position: nat)
    requires
        position <= total,
        outcomes.len() >= total,
        forall|j: int| position <= j < total ==> outcomes[j] is Ok,
    ensures
        run_from(total, outcomes, position) == (ProgressView::Finished {
            completed_steps: total,
            total_steps: total,
        }),
    decreases total - position,
{
    if position < total {
        lemma_run_tail(total, outcomes, position + 1);
    }
}

/// One transition of an execution agrees with the outcome-by-outcome
/// account of a run.
pub proof fn lemma_advance_follows_run(
    total: nat,
    outcomes: Seq<Result<(), ExecutionErrorView>>,
    position: nat,
)
    requires
        position < total,
        position < outcomes.len(),
    ensures
        run_from(total, outcomes, position) == match progress_after(
            total,
            position,
            outcomes[position as int],
        ) {
            ProgressView::Continue(next) => run_from(total, outcomes, next),
            settled => settled,
        },
{
    if outcomes[position as int] is Ok && position + 1 >= total {
        assert(run_from(total, outcomes, position + 1) == (ProgressView::Finished {
            completed_steps: total,
            total_steps: total,
        }));
    }
}

/// Carries out a plan: `perform` is called on the steps in plan order,
/// one at a time, until one fails or all are done. On success the counts
/// of completed and total steps are equal. On failure the error names the
/// failing step, and no later step has been handed to `perform`.
pub fn execute_plan<F: Fn(&PlannedStep) -> Result<(), ExecutionError>>(
    plan: &InstallPlan,
    perform: F,
) -> (r: Result<ExecutionResult, ExecutionError>)
    requires
        forall|step: &PlannedStep| call_requires(perform, (step,)),
    ensures
        match r {
            Ok(result) => {
                &&& result.completed_steps == plan.steps@.len()
                &&& result.total_steps == plan.steps@.len()
                &&& forall|k: int|
                    0 <= k < plan.steps@.len() ==> call_ensures(
                        perform,
                        (&#[trigger] plan.steps@[k],),
                        Ok::<(), ExecutionError>(()),
                    )
            },
            Err(error) => exists|k: int, e: ExecutionError|
                {
                    &&& 0 <= k < plan.steps@.len()
                    &&& forall|j: int|
                        0 <= j < k ==> call_ensures(
                            perform,
                            (&#[trigger] plan.steps@[j],),
                            Ok::<(), ExecutionError>(()),
                        )
                    &&& #[trigger] call_ensures(
                        perform,
                        (&plan.steps@[k],),
                        Err::<(), ExecutionError>(e),
                    )
                    &&& error@ == failure_at(k as nat, e@)
                },
        },
{
    let mut progress = begin(plan);
    let mut position: usize = 0;
    loop
        invariant
            position <= plan.steps@.len(),
            forall|step: &PlannedStep| call_requires(perform, (step,)),
            forall|j: int|
                0 <= j < position ==> call_ensures(
                    perform,
                    (&#[trigger] plan.steps@[j],),
                    Ok::<(), ExecutionError>(()),
                ),
            progress@ == (if position as nat >= plan@.steps.len() {
                ProgressView::Finished {
                    completed_steps: plan@.steps.len(),
                    total_steps: plan@.steps.len(),
                }
            } else {
                ProgressView::Continue(position as nat)
            }),
        decreases plan.steps@.len() - position,
    {
        match progress {
            Progress::Finished(result) => {
                return Ok(result);
            },
            Progress::Failed(error) => {
                return Err(error);
            },
            Progress::Continue(at) => {
                let step = &plan.steps[at];
                let outcome = perform(step);
                let ghost seen = outcome;
                let next = advance(plan, at, outcome);
                if let Progress::Failed(error) = next {
                    assert(call_ensures(
                        perform,
                        (&plan.steps@[at as int],),
                        Err::<(), ExecutionError>(seen->Err_0),
                    ));
                    return Err(error);
                }
                assert(seen is Ok);
                assert(seen->Ok_0 == ());
                assert(seen =~= Ok::<(), ExecutionError>(()));
                assert(call_ensures(perform, (&plan.steps@[at as int],), seen));
                progress = next;
                position = at + 1;
            },
        }
    }
}

} // verus!
