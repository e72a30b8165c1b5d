//! Preparing a language runtime for the steps of a plan: where a local Node
//! or Python environment lives, whether it can be used, and what the steps'
//! environment must hold for it.
//!
//! Looking at the file system and creating a virtual environment happen
//! outside this library; their findings are handed in as plain facts.

use crate::executor::{join_path, path_under};
use crate::strmap::{lemma_with_entry_deep, with_entry, StrMap};
use crate::text::{
    chars_of, clone_strings, find_from, first_occurrence, join, joined, str_eq,
};
use vstd::prelude::*;

verus! {

/// The kind of runtime a plan asks for.
#[derive(Debug, Clone, Copy, PartialEq, Eq, Structural)]
pub enum RuntimeEnvType {
    NodeLocal,
    PythonVenv,
}

/// How a Node runtime may be obtained.
#[derive(Debug)]
pub struct NodeRuntime {
    pub install_strategy: Option<String>,
}

/// The runtime a plan asks for, and the directory it lives under.
#[derive(Debug)]
pub struct RuntimeEnv {
    pub kind: RuntimeEnvType,
    pub root: String,
    pub node: Option<NodeRuntime>,
}

/// What the steps of a plan run with: environment variables to set, and
/// directories to put in front of the search path.
#[derive(Debug)]
pub struct ExecutionContext {
    pub env: StrMap<String>,
    pub path_prefixes: Vec<String>,
}

/// What an [`ExecutionContext`] says.
pub struct ExecutionContextView {
    pub env: Seq<(Seq<char>, Seq<char>)>,
    pub path_prefixes: Seq<Seq<char>>,
}

impl View for ExecutionContext {
    type V = ExecutionContextView;

    open spec fn view(&self) -> ExecutionContextView {
        ExecutionContextView {
            env: self.env.deep_view(),
            path_prefixes: self.path_prefixes.deep_view(),
        }
    }
}

/// The separator between the entries of a search path.
pub open spec fn path_separator(windows: bool) -> Seq<char> {
    if windows {
        ";"@
    } else {
        ":"@
    }
}

/// The search path with the prefixes in front of what is there already;
/// nothing where there are no prefixes.
pub open spec fn merged_path_of(prefixes: Seq<Seq<char>>, existing: Seq<char>, windows: bool) -> Option<
    Seq<char>,
> {
    if prefixes.len() == 0 {
        None
    } else if existing.len() == 0 {
        Some(joined(prefixes, path_separator(windows)))
    } else {
        Some(joined(prefixes.push(existing), path_separator(windows)))
    }
}

impl ExecutionContext {
    /// A context that changes nothing.
    pub fn new() -> (r: Self)
        ensures
            r@.env.len() == 0,
            r@.path_prefixes.len() == 0,
    {
        ExecutionContext { env: StrMap::new(), path_prefixes: Vec::new() }
    }

    /// The search path for the steps: the prefixes, then the path that is
    /// there already unless it is empty, joined by the platform's
    /// separator. `None` where there is no prefix to add.
    pub fn merged_path(&self, existing: &str, windows: bool) -> (r: Option<String>)
        ensures
            r.deep_view() == merged_path_of(self@.path_prefixes, existing@, windows),
    {
        if self.path_prefixes.len() == 0 {
            return None;
        }
        let mut segments = clone_strings(&self.path_prefixes);
        proof {
            reveal_strlit("");
            assert(existing@.len() == 0 ==> existing@ =~= ""@);
        }
        if !str_eq(existing, "") {
            let ghost before = segments.deep_view();
            segments.push(String::from_str(existing));
            assert(segments.deep_view() =~= before.push(existing@));
        }
        let separator = if windows {
            ";"
        } else {
            ":"
        };
        Some(join(&segments, separator))
    }
}

/// The runtime's root as a full path: the root itself where it is
/// absolute, else the root under the working directory.
pub open spec fn resolved_root(root: Seq<char>, root_is_absolute: bool, cwd: Seq<char>) -> Seq<char> {
    if root_is_absolute {
        root
    } else {
        path_under(cwd, root)
    }
}

/// Resolves the runtime's root against the working directory.
pub fn resolve_root(root: &str, root_is_absolute: bool, cwd: &str) -> (r: String)
    ensures
        r@ == resolved_root(root@, root_is_absolute, cwd@),
{
    if root_is_absolute {
        String::from_str(root)
    } else {
        join_path(cwd, root)
    }
}

/// The directory that holds a local Node runtime's programs.
pub open spec fn node_bin_dir_of(root: Seq<char>) -> Seq<char> {
    path_under(path_under(root, "node"@), "bin"@)
}

/// The Node program of a local runtime.
pub open spec fn local_node_of(root: Seq<char>, os: Seq<char>) -> Seq<char> {
    path_under(
        node_bin_dir_of(root),
        if os == "windows"@ {
            "node.exe"@
        } else {
            "node"@
        },
    )
}

/// The directory that holds a local Node runtime's programs.
pub fn node_bin_dir(root: &str) -> (r: String)
    ensures
        r@ == node_bin_dir_of(root@),
{
    let node_root = join_path(root, "node");
    join_path(node_root.as_str(), "bin")
}

/// The Node program of a local runtime.
pub fn local_node(root: &str, os: &str) -> (r: String)
    ensures
        r@ == local_node_of(root@, os@),
{
    let bin_dir = node_bin_dir(root);
    let program = if str_eq(os, "windows") {
        "node.exe"
    } else {
        "node"
    };
    join_path(bin_dir.as_str(), program)
}

/// The directory of a Python virtual environment.
pub open spec fn venv_dir_of(root: Seq<char>) -> Seq<char> {
    path_under(root, "venv"@)
}

/// The directory that holds a virtual environment's programs.
pub open spec fn venv_bin_dir_of(root: Seq<char>, os: Seq<char>) -> Seq<char> {
    path_under(
        venv_dir_of(root),
        if os == "windows"@ {
            "Scripts"@
        } else {
            "bin"@
        },
    )
}

/// The Python program whose presence shows that a virtual environment
/// exists.
pub open spec fn venv_python_of(root: Seq<char>, os: Seq<char>) -> Seq<char> {
    path_under(
        venv_bin_dir_of(root, os),
        if os == "windows"@ {
            "python.exe"@
        } else {
            "python"@
        },
    )
}

/// The directory of a Python virtual environment.
pub fn venv_dir(root: &str) -> (r: String)
    ensures
        r@ == venv_dir_of(root@),
{
    join_path(root, "venv")
}

/// The directory that holds a virtual environment's programs.
pub fn venv_bin_dir(root: &str, os: &str) -> (r: String)
    ensures
        r@ == venv_bin_dir_of(root@, os@),
{
    let dir = venv_dir(root);
    let name = if str_eq(os, "windows") {
        "Scripts"
    } else {
        "bin"
    };
    join_path(dir.as_str(), name)
}

/// The Python program whose presence shows that a virtual environment
/// exists.
pub fn venv_python(root: &str, os: &str) -> (r: String)
    ensures
        r@ == venv_python_of(root@, os@),
{
    let bin_dir = venv_bin_dir(root, os);
    let name = if str_eq(os, "windows") {
        "python.exe"
    } else {
        "python"
    };
    join_path(bin_dir.as_str(), name)
}

/// Whether a virtual environment exists, given the paths found on disk.
pub fn venv_exists(root: &str, os: &str, present: &Vec<String>) -> (r: bool)
    ensures
        r == present.deep_view().contains(venv_python_of(root@, os@)),
{
    let python = venv_python(root, os);
    let ghost view = present.deep_view();
    let mut i: usize = 0;
    while i < present.len()
        invariant
            i <= present@.len(),
            view == present.deep_view(),
            python@ == venv_python_of(root@, os@),
            forall|k: int| 0 <= k < i ==> #[trigger] view[k] != python@,
        decreases present@.len() - i,
    {
        assert(view[i as int] == present@[i as int]@);
        if str_eq(present[i].as_str(), python.as_str()) {
            return true;
        }
        i += 1;
    }
    false
}

/// The Python launcher tried first when creating a virtual environment.
pub open spec fn venv_launcher_of(os: Seq<char>) -> Seq<char> {
    if os == "windows"@ {
        "py"@
    } else {
        "python3"@
    }
}

/// The Python launcher tried first when creating a virtual environment;
/// `python` is the one to fall back on.
pub fn venv_launcher(os: &str) -> (r: String)
    ensures
        r@ == venv_launcher_of(os@),
{
    if str_eq(os, "windows") {
        String::from_str("py")
    } else {
        String::from_str("python3")
    }
}

/// Judges the creation of a virtual environment: it succeeded if the
/// first launcher did, or else if the fallback did.
pub fn create_venv(first_succeeded: bool, fallback_succeeded: bool) -> (r: Result<(), String>)
    ensures
        first_succeeded || fallback_succeeded ==> r is Ok,
        !(first_succeeded || fallback_succeeded) ==> (r matches Err(message) && message@
            == "failed to create python virtual environment"@),
{
    if first_succeeded || fallback_succeeded {
        Ok(())
    } else {
        Err(String::from_str("failed to create python virtual environment"))
    }
}

/// The strategy by which a Node runtime may be obtained: the one the plan
/// names, or `local_bundle_or_global` where it names none.
pub open spec fn node_strategy_of(node: Option<Option<Seq<char>>>) -> Seq<char> {
    match node {
        Some(Some(strategy)) => strategy,
        _ => "local_bundle_or_global"@,
    }
}

/// The strategy that a runtime description names, if any.
pub open spec fn named_strategy(runtime: RuntimeEnv) -> Option<Option<Seq<char>>> {
    match runtime.node {
        Some(node) => Some(node.install_strategy.deep_view()),
        None => None,
    }
}

/// Whether a strategy allows a Node runtime installed elsewhere on the
/// host: its name holds the word `global`.
pub open spec fn allows_global(strategy: Seq<char>) -> bool {
    first_occurrence(strategy, "global"@, 0) is Some
}

/// What preparing a Node runtime comes to: the local runtime is used if it
/// is present; else one installed elsewhere if the strategy allows it and
/// one is present; else there is none to use.
pub open spec fn node_context(
    strategy: Seq<char>,
    root: Seq<char>,
    local_present: bool,
    global_present: bool,
    ctx: ExecutionContextView,
) -> Result<ExecutionContextView, Seq<char>> {
    if local_present {
        Ok(
            ExecutionContextView {
                env: ctx.env,
                path_prefixes: ctx.path_prefixes.push(node_bin_dir_of(root)),
            },
        )
    } else if allows_global(strategy) && global_present {
        Ok(ctx)
    } else {
        Err(
            "Node runtime not available locally and no compatible global installation found"@,
        )
    }
}

/// Prepares the context for a Node runtime under `root`, given whether a
/// local runtime and one installed elsewhere were found.
pub fn prepare_node_env(
    runtime: &RuntimeEnv,
    root: &str,
    local_present: bool,
    global_present: bool,
    ctx: &mut ExecutionContext,
) -> (r: Result<(), String>)
    ensures
        match node_context(
            node_strategy_of(named_strategy(*runtime)),
            root@,
            local_present,
            global_present,
            old(ctx)@,
        ) {
            Ok(context) => r is Ok && final(ctx)@ == context,
            Err(message) => r matches Err(text) && text@ == message && final(ctx)@ == old(ctx)@,
        },
{
    if local_present {
        let ghost before = ctx.path_prefixes.deep_view();
        let bin_dir = node_bin_dir(root);
        ctx.path_prefixes.push(bin_dir);
        assert(ctx.path_prefixes.deep_view() =~= before.push(node_bin_dir_of(root@)));
        return Ok(());
    }
    let strategy = match &runtime.node {
        Some(node) => match &node.install_strategy {
            Some(strategy) => strategy.clone(),
            None => String::from_str("local_bundle_or_global"),
        },
        None => String::from_str("local_bundle_or_global"),
    };
    let word = chars_of("global");
    let letters = chars_of(strategy.as_str());
    if find_from(&letters, &word, 0).is_some() && global_present {
        return Ok(());
    }
    Err(
        String::from_str(
            "Node runtime not available locally and no compatible global installation found",
        ),
    )
}

/// The context once a Python virtual environment under `root` is in use:
/// `VIRTUAL_ENV` names it, and its programs come first on the search path.
pub open spec fn python_context(root: Seq<char>, os: Seq<char>, ctx: ExecutionContextView) -> ExecutionContextView {
    ExecutionContextView {
        env: with_entry(ctx.env, "VIRTUAL_ENV"@, venv_dir_of(root)),
        path_prefixes: ctx.path_prefixes.push(venv_bin_dir_of(root, os)),
    }
}

/// Prepares the context for a Python virtual environment under `root`
/// that exists or has just been created.
pub fn prepare_python_env(root: &str, os: &str, ctx: &mut ExecutionContext)
    ensures
        final(ctx)@ == python_context(root@, os@, old(ctx)@),
{
    let ghost before = *ctx;
    let dir = venv_dir(root);
    let bin_dir = venv_bin_dir(root, os);
    ctx.env.insert(String::from_str("VIRTUAL_ENV"), dir);
    proof {
        lemma_with_entry_deep(before.env, ctx.env, "VIRTUAL_ENV"@, dir);
    }
    let ghost prefixes = ctx.path_prefixes.deep_view();
    ctx.path_prefixes.push(bin_dir);
    assert(ctx.path_prefixes.deep_view() =~= prefixes.push(venv_bin_dir_of(root@, os@)));
}

/// What was found out on the host for preparing a runtime.
#[derive(Debug)]
pub struct RuntimeFacts {
    /// The runtime's root, resolved to a full path.
    pub root: String,
    /// Whether the local Node program exists.
    pub local_node_present: bool,
    /// Whether a Node program is installed elsewhere on the host.
    pub global_node_present: bool,
    /// Why no virtual environment could be had, if none could.
    pub venv_failure: Option<String>,
    /// The search path as it is now.
    pub existing_path: String,
    /// Whether the host separates search path entries as Windows does.
    pub windows_host: bool,
}

/// The context with its search path made an environment variable, where
/// there are prefixes to add.
pub open spec fn with_search_path(ctx: ExecutionContextView, existing: Seq<char>, windows: bool) -> ExecutionContextView {
    match merged_path_of(ctx.path_prefixes, existing, windows) {
        Some(path) => ExecutionContextView {
            env: with_entry(ctx.env, "PATH"@, path),
            path_prefixes: ctx.path_prefixes,
        },
        None => ctx,
    }
}

/// The context that a runtime description and the facts found on the host
/// come to; nothing where no runtime is asked for.
pub open spec fn runtime_context(runtime: Option<RuntimeEnv>, os: Seq<char>, facts: RuntimeFacts) -> Result<
    Option<ExecutionContextView>,
    Seq<char>,
> {
    let empty = ExecutionContextView { env: Seq::empty(), path_prefixes: Seq::empty() };
    match runtime {
        None => Ok(None),
        Some(rt) => {
            let prepared = match rt.kind {
                RuntimeEnvType::NodeLocal => node_context(
                    node_strategy_of(named_strategy(rt)),
                    facts.root@,
                    facts.local_node_present,
                    facts.global_node_present,
                    empty,
                ),
                RuntimeEnvType::PythonVenv => match facts.venv_failure {
                    Some(message) => Err(message@),
                    None => Ok(python_context(facts.root@, os, empty)),
                },
            };
            match prepared {
                Ok(ctx) => Ok(
                    Some(with_search_path(ctx, facts.existing_path@, facts.windows_host)),
                ),
                Err(message) => Err(message),
            }
        },
    }
}

/// Prepares the context in which the steps of a plan run, from the
/// runtime the plan asks for and the facts found on the host.
pub fn prepare_runtime_env(runtime: Option<&RuntimeEnv>, os: &str, facts: &RuntimeFacts) -> (r:
    Result<Option<ExecutionContext>, String>)
    ensures
        match runtime_context(
            match runtime {
                Some(rt) => Some(*rt),
                None => None,
            },
            os@,
            *facts,
        ) {
            Ok(Some(context)) => r matches Ok(Some(ctx)) && ctx@ == context,
            Ok(None) => r matches Ok(None),
            Err(message) => r matches Err(text) && text@ == message,
        },
{
    let runtime = match runtime {
        Some(runtime) => runtime,
        None => {
            return Ok(None);
        },
    };
    let mut ctx = ExecutionContext::new();
    assert(ctx@.env =~= Seq::empty());
    assert(ctx@.path_prefixes =~= Seq::empty());
    match runtime.kind {
        RuntimeEnvType::NodeLocal => {
            match prepare_node_env(
                runtime,
                facts.root.as_str(),
                facts.local_node_present,
                facts.global_node_present,
                &mut ctx,
            ) {
                Ok(_) => {},
                Err(message) => {
                    return Err(message);
                },
            }
        },
        RuntimeEnvType::PythonVenv => {
            match &facts.venv_failure {
                Some(message) => {
                    return Err(message.clone());
                },
                None => {},
            }
            prepare_python_env(facts.root.as_str(), os, &mut ctx);
        },
    }
    let ghost prepared = ctx;
    if let Some(path) = ctx.merged_path(facts.existing_path.as_str(), facts.windows_host) {
        ctx.env.insert(String::from_str("PATH"), path);
        proof {
            lemma_with_entry_deep(prepared.env, ctx.env, "PATH"@, path);
        }
    }
    Ok(Some(ctx))
}

} // verus!
