//! Choosing the mode that fits the machine and laying out its steps as a
//! plan.

use crate::env_detect::{debug_list, environment_debug, Environment, EnvironmentView};
use crate::manifest::{
    lemma_valid_manifest, step_command, step_description, valid_manifest, Manifest, ManifestView,
    Mode, ModeView, OsConstraint, OsConstraintView, RequirementsView, Step, StepView,
};
use crate::strmap::{lemma_lookup_deep, lemma_position_from, lookup, position_from};
use crate::text::{
    ascii_case_equal, bracket, bracketed, debug_format, debug_quoted, decimal, decimal_digits,
    eq_ignore_ascii_case, str_eq,
};
use crate::version::{meets_minimum, version_meets};
use vstd::prelude::*;

verus! {

/// One step of a plan: its place in the plan, how it reads, and the work
/// itself.
#[derive(Debug)]
pub struct PlannedStep {
    pub index: usize,
    pub description: String,
    pub command: String,
    pub step: Step,
}

/// What a [`PlannedStep`] says.
pub struct PlannedStepView {
    pub index: nat,
    pub description: Seq<char>,
    pub command: Seq<char>,
    pub step: StepView,
}

impl DeepView for PlannedStep {
    type V = PlannedStepView;

    open spec fn deep_view(&self) -> PlannedStepView {
        PlannedStepView {
            index: self.index as nat,
            description: self.description@,
            command: self.command@,
            step: self.step@,
        }
    }
}

impl View for PlannedStep {
    type V = PlannedStepView;

    open spec fn view(&self) -> PlannedStepView {
        self.deep_view()
    }
}

impl Clone for PlannedStep {
    fn clone(&self) -> (r: Self)
        ensures
            r@ == self@,
    {
        PlannedStep {
            index: self.index,
            description: self.description.clone(),
            command: self.command.clone(),
            step: self.step.clone(),
        }
    }
}

/// The ordered steps chosen for one application on one machine.
#[derive(Debug)]
pub struct InstallPlan {
    pub app_name: String,
    pub app_version: String,
    pub chosen_mode: String,
    pub os: String,
    pub steps: Vec<PlannedStep>,
}

/// What an [`InstallPlan`] says.
pub struct InstallPlanView {
    pub app_name: Seq<char>,
    pub app_version: Seq<char>,
    pub chosen_mode: Seq<char>,
    pub os: Seq<char>,
    pub steps: Seq<PlannedStepView>,
}

impl DeepView for InstallPlan {
    type V = InstallPlanView;

    open spec fn deep_view(&self) -> InstallPlanView {
        InstallPlanView {
            app_name: self.app_name@,
            app_version: self.app_version@,
            chosen_mode: self.chosen_mode@,
            os: self.os@,
            steps: self.steps.deep_view(),
        }
    }
}

impl View for InstallPlan {
    type V = InstallPlanView;

    open spec fn view(&self) -> InstallPlanView {
        self.deep_view()
    }
}

impl Clone for InstallPlan {
    fn clone(&self) -> (r: Self)
        ensures
            r@ == self@,
    {
        let mut steps: Vec<PlannedStep> = Vec::new();
        let mut i: usize = 0;
        while i < self.steps.len()
            invariant
                i <= self.steps@.len(),
                steps@.len() == i,
                forall|k: int| 0 <= k < i ==> steps@[k]@ == self.steps@[k]@,
            decreases self.steps@.len() - i,
        {
            steps.push(self.steps[i].clone());
            i += 1;
        }
        assert(steps.deep_view() =~= self.steps.deep_view());
        InstallPlan {
            app_name: self.app_name.clone(),
            app_version: self.app_version.clone(),
            chosen_mode: self.chosen_mode.clone(),
            os: self.os.clone(),
            steps,
        }
    }
}

/// Why no plan could be made.
#[derive(Debug)]
pub enum PlannerError {
    NoCompatibleMode { environment: Environment, reasons: Vec<String> },
}

/// What a [`PlannerError`] says.
pub enum PlannerErrorView {
    NoCompatibleMode { environment: EnvironmentView, reasons: Seq<Seq<char>> },
}

impl View for PlannerError {
    type V = PlannerErrorView;

    open spec fn view(&self) -> PlannerErrorView {
        match self {
            PlannerError::NoCompatibleMode { environment, reasons } =>
                PlannerErrorView::NoCompatibleMode {
                    environment: environment@,
                    reasons: reasons.deep_view(),
                },
        }
    }
}

/// The text of a [`PlannerError`].
pub open spec fn planner_error_message(e: PlannerErrorView) -> Seq<char> {
    match e {
        PlannerErrorView::NoCompatibleMode { environment, reasons } =>
            "no compatible mode found for environment "@ + environment_debug(environment) + ": "@
                + bracketed(reasons.map_values(|s: Seq<char>| debug_quoted(s))),
    }
}

impl PlannerError {
    /// The error as a sentence.
    pub fn message(&self) -> (r: String)
        ensures
            r@ == planner_error_message(self@),
    {
        match self {
            PlannerError::NoCompatibleMode { environment, reasons } => {
                let mut r = String::from_str("no compatible mode found for environment ");
                let env_text = environment.debug_text();
                r.append(env_text.as_str());
                r.append(": ");
                let list = debug_list(reasons);
                r.append(list.as_str());
                r
            },
        }
    }
}

/// Whether one constraint admits the environment: the family is the
/// environment's, letter case aside, and the environment's version meets
/// the minimum where one is given.
pub open spec fn constraint_admits(env: EnvironmentView, c: OsConstraintView) -> bool {
    ascii_case_equal(c.family, env.os) && match c.min_version {
        Some(min) => meets_minimum(min, env.os_version),
        None => true,
    }
}

/// Whether the operating-system constraints admit the environment: there
/// are none, or one of them does.
pub open spec fn os_admitted(env: EnvironmentView, os: Seq<OsConstraintView>) -> bool {
    os.len() == 0 || exists|i: int| 0 <= i < os.len() && constraint_admits(env, #[trigger] os[i])
}

/// Whether the architecture list admits the environment: it is empty, or
/// names the environment's architecture, letter case aside.
pub open spec fn arch_admitted(env: EnvironmentView, archs: Seq<Seq<char>>) -> bool {
    archs.len() == 0 || exists|i: int|
        0 <= i < archs.len() && ascii_case_equal(#[trigger] archs[i], env.cpu_arch)
}

/// Whether the environment has the memory asked for.
pub open spec fn ram_admitted(env: EnvironmentView, ram_gb: Option<u64>) -> bool {
    match ram_gb {
        Some(required) => env.ram_gb >= required,
        None => true,
    }
}

/// A constraint as `{:?}` writes it.
pub open spec fn constraint_debug(c: OsConstraintView) -> Seq<char> {
    "OsConstraint { family: "@ + debug_quoted(c.family) + ", min_version: "@ + match c.min_version {
        Some(v) => "Some("@ + debug_quoted(v) + ")"@,
        None => "None"@,
    } + " }"@
}

/// Why the operating-system constraints turn the environment down.
pub open spec fn os_reason(env: EnvironmentView, os: Seq<OsConstraintView>) -> Seq<char> {
    "requires "@ + bracketed(os.map_values(|c: OsConstraintView| constraint_debug(c))) + ", found "@
        + env.os + " "@ + env.os_version
}

/// Why the architecture list turns the environment down.
pub open spec fn arch_reason(env: EnvironmentView, archs: Seq<Seq<char>>) -> Seq<char> {
    "requires CPU in "@ + bracketed(archs.map_values(|a: Seq<char>| debug_quoted(a))) + ", found "@
        + env.cpu_arch
}

/// Why the memory requirement turns the environment down.
pub open spec fn ram_reason(env: EnvironmentView, required: u64) -> Seq<char> {
    "requires >= "@ + decimal_digits(required as nat) + " GiB RAM, found "@ + decimal_digits(
        env.ram_gb as nat,
    ) + " GiB"@
}

/// How a mode stands with an environment.
pub enum Verdict {
    /// The mode can be installed.
    Compatible,
    /// The mode has no steps for the environment's platform.
    MissingSteps,
    /// The mode's requirements are not met, for the reason given.
    Rejected(Seq<char>),
}

/// The outcome of checking requirements against an environment: operating
/// system first, then architecture, then memory.
pub open spec fn requirements_verdict(req: RequirementsView, env: EnvironmentView) -> Verdict {
    if !os_admitted(env, req.os) {
        Verdict::Rejected(os_reason(env, req.os))
    } else if !arch_admitted(env, req.cpu_arch) {
        Verdict::Rejected(arch_reason(env, req.cpu_arch))
    } else if !ram_admitted(env, req.ram_gb) {
        Verdict::Rejected(ram_reason(env, req.ram_gb->0))
    } else {
        Verdict::Compatible
    }
}

/// How a mode stands with an environment. A mode without steps for the
/// environment's platform is out whatever its requirements say.
pub open spec fn mode_verdict(mode: ModeView, env: EnvironmentView) -> Verdict {
    if lookup(mode.steps, env.os) is None {
        Verdict::MissingSteps
    } else {
        match mode.requirements {
            Some(req) => requirements_verdict(req, env),
            None => Verdict::Compatible,
        }
    }
}

/// Whether a mode can be installed in an environment.
pub open spec fn compatible(mode: ModeView, env: EnvironmentView) -> bool {
    mode_verdict(mode, env) is Compatible
}

/// Whether the constraint admits the environment.
pub fn os_matches(env: &Environment, constraint: &OsConstraint) -> (r: bool)
    ensures
        r == constraint_admits(env@, constraint@),
{
    if !eq_ignore_ascii_case(constraint.family.as_str(), env.os.as_str()) {
        return false;
    }
    match &constraint.min_version {
        Some(min_version) => version_meets(min_version.as_str(), env.os_version.as_str()),
        None => true,
    }
}

fn render_constraint(c: &OsConstraint) -> (r: String)
    ensures
        r@ == constraint_debug(c@),
{
    let mut r = String::from_str("OsConstraint { family: ");
    let family = debug_format(c.family.as_str());
    r.append(family.as_str());
    r.append(", min_version: ");
    let ghost head = r@;
    match &c.min_version {
        Some(v) => {
            r.append("Some(");
            let quoted = debug_format(v.as_str());
            r.append(quoted.as_str());
            r.append(")");
            assert(r@ =~= head + ("Some("@ + debug_quoted(v@) + ")"@));
        },
        None => {
            r.append("None");
        },
    }
    r.append(" }");
    r
}

fn describe_os_mismatch(env: &Environment, os: &Vec<OsConstraint>) -> (r: String)
    ensures
        r@ == os_reason(env@, os.deep_view()),
{
    let mut items: Vec<String> = Vec::new();
    let mut i: usize = 0;
    while i < os.len()
        invariant
            i <= os@.len(),
            items@.len() == i,
            forall|k: int| 0 <= k < i ==> items@[k]@ == constraint_debug(os@[k]@),
        decreases os@.len() - i,
    {
        items.push(render_constraint(&os[i]));
        i += 1;
    }
    assert(items.deep_view() =~= os.deep_view().map_values(
        |c: OsConstraintView| constraint_debug(c),
    ));
    let mut r = String::from_str("requires ");
    let list = bracket(&items);
    r.append(list.as_str());
    r.append(", found ");
    r.append(env.os.as_str());
    r.append(" ");
    r.append(env.os_version.as_str());
    r
}

fn describe_arch_mismatch(env: &Environment, archs: &Vec<String>) -> (r: String)
    ensures
        r@ == arch_reason(env@, archs.deep_view()),
{
    let mut r = String::from_str("requires CPU in ");
    let list = debug_list(archs);
    r.append(list.as_str());
    r.append(", found ");
    r.append(env.cpu_arch.as_str());
    r
}

fn describe_ram_shortfall(env: &Environment, required: u64) -> (r: String)
    ensures
        r@ == ram_reason(env@, required),
{
    let mut r = String::from_str("requires >= ");
    let wanted = decimal(required);
    r.append(wanted.as_str());
    r.append(" GiB RAM, found ");
    let found = decimal(env.ram_gb);
    r.append(found.as_str());
    r.append(" GiB");
    r
}

fn any_constraint_admits(env: &Environment, os: &Vec<OsConstraint>) -> (r: bool)
    ensures
        r == exists|i: int|
            0 <= i < os.deep_view().len() && constraint_admits(env@, #[trigger] os.deep_view()[i]),
{
    let ghost view = os.deep_view();
    let mut i: usize = 0;
    while i < os.len()
        invariant
            i <= os@.len(),
            view == os.deep_view(),
            forall|k: int| 0 <= k < i ==> !constraint_admits(env@, #[trigger] view[k]),
        decreases os@.len() - i,
    {
        assert(view[i as int] == os@[i as int]@);
        if os_matches(env, &os[i]) {
            return true;
        }
        i += 1;
    }
    false
}

fn any_arch_matches(env: &Environment, archs: &Vec<String>) -> (r: bool)
    ensures
        r == exists|i: int|
            0 <= i < archs.deep_view().len() && ascii_case_equal(
                #[trigger] archs.deep_view()[i],
                env@.cpu_arch,
            ),
{
    let ghost view = archs.deep_view();
    let mut i: usize = 0;
    while i < archs.len()
        invariant
            i <= archs@.len(),
            view == archs.deep_view(),
            forall|k: int| 0 <= k < i ==> !ascii_case_equal(#[trigger] view[k], env@.cpu_arch),
        decreases archs@.len() - i,
    {
        assert(view[i as int] == archs@[i as int]@);
        if eq_ignore_ascii_case(archs[i].as_str(), env.cpu_arch.as_str()) {
            return true;
        }
        i += 1;
    }
    false
}

/// Decides whether a mode can be installed in an environment: `Ok(true)`
/// if it can, `Ok(false)` if it has no steps for the environment's
/// platform, and otherwise the reason why its requirements are not met.
pub fn is_mode_compatible(mode_name: &str, mode: &Mode, env: &Environment) -> (r: Result<
    bool,
    String,
>)
    ensures
        match mode_verdict(mode@, env@) {
            Verdict::Compatible => r == Ok::<bool, String>(true),
            Verdict::MissingSteps => r == Ok::<bool, String>(false),
            Verdict::Rejected(reason) => r matches Err(text) && text@ == reason,
        },
{
    proof {
        lemma_lookup_deep(mode.steps, env.os@);
    }
    if !mode.steps.contains_key(env.os.as_str()) {
        return Ok(false);
    }
    if let Some(requirements) = &mode.requirements {
        if requirements.os.len() != 0 && !any_constraint_admits(env, &requirements.os) {
            return Err(describe_os_mismatch(env, &requirements.os));
        }
        if requirements.cpu_arch.len() != 0 && !any_arch_matches(env, &requirements.cpu_arch) {
            return Err(describe_arch_mismatch(env, &requirements.cpu_arch));
        }
        if let Some(required_ram) = requirements.ram_gb {
            if env.ram_gb < required_ram {
                return Err(describe_ram_shortfall(env, required_ram));
            }
        }
    }
    Ok(true)
}

/// The memory a mode asks for, in GiB; zero where it asks for none.
pub open spec fn required_ram_of(mode: ModeView) -> u64 {
    match mode.requirements {
        Some(req) => match req.ram_gb {
            Some(ram) => ram,
            None => 0,
        },
        None => 0,
    }
}

/// The memory a mode asks for, in GiB; zero where it asks for none.
pub fn required_ram(mode: &Mode) -> (r: u64)
    ensures
        r == required_ram_of(mode@),
{
    match &mode.requirements {
        Some(req) => match req.ram_gb {
            Some(ram) => ram,
            None => 0,
        },
        None => 0,
    }
}

/// The name of the mode that is preferred over all others.
pub open spec fn preferred_name() -> Seq<char> {
    "full"@
}

/// Whether some candidate bears the preferred name.
pub open spec fn has_preferred(candidates: Seq<(Seq<char>, ModeView)>) -> bool {
    exists|j: int| 0 <= j < candidates.len() && (#[trigger] candidates[j]).0 == preferred_name()
}

/// Whether candidate `i` is the one to install: the first candidate named
/// `full` if there is one; otherwise the first among those that ask for
/// the most memory.
pub open spec fn is_best(candidates: Seq<(Seq<char>, ModeView)>, i: int) -> bool {
    &&& 0 <= i < candidates.len()
    &&& if has_preferred(candidates) {
        &&& candidates[i].0 == preferred_name()
        &&& forall|j: int| 0 <= j < i ==> (#[trigger] candidates[j]).0 != preferred_name()
    } else {
        &&& forall|j: int|
            0 <= j < candidates.len() ==> required_ram_of((#[trigger] candidates[j]).1)
                <= required_ram_of(candidates[i].1)
        &&& forall|j: int|
            0 <= j < i ==> required_ram_of((#[trigger] candidates[j]).1) < required_ram_of(
                candidates[i].1,
            )
    }
}

/// The candidates as the selection rule sees them: names and modes by
/// their views.
pub open spec fn candidates_view(modes: Seq<(&String, &Mode)>) -> Seq<(Seq<char>, ModeView)> {
    Seq::new(modes.len(), |i: int| (modes[i].0@, modes[i].1@))
}

/// Picks the mode to install among compatible candidates, given in the
/// order in which the manifest lists them.
pub fn choose_best_mode<'a>(modes: &[(&'a String, &'a Mode)]) -> (r: (&'a String, &'a Mode))
    requires
        modes@.len() > 0,
    ensures
        exists|i: int| is_best(candidates_view(modes@), i) && r == modes@[i],
{
    let ghost view = candidates_view(modes@);
    let mut i: usize = 0;
    while i < modes.len()
        invariant
            i <= modes@.len(),
            view == candidates_view(modes@),
            forall|j: int| 0 <= j < i ==> (#[trigger] view[j]).0 != preferred_name(),
        decreases modes@.len() - i,
    {
        assert(view[i as int].0 == modes@[i as int].0@);
        if str_eq(modes[i].0.as_str(), "full") {
            assert(is_best(view, i as int));
            return modes[i];
        }
        i += 1;
    }
    assert(!has_preferred(view));
    let mut best: usize = 0;
    let mut best_ram: u64 = required_ram(modes[0].1);
    let mut k: usize = 1;
    assert(view[0].1 == modes@[0].1@);
    while k < modes.len()
        invariant
            1 <= k <= modes@.len(),
            best < k,
            view == candidates_view(modes@),
            best_ram == required_ram_of(view[best as int].1),
            forall|j: int| 0 <= j < k ==> required_ram_of((#[trigger] view[j]).1) <= best_ram,
            forall|j: int| 0 <= j < best ==> required_ram_of((#[trigger] view[j]).1) < best_ram,
        decreases modes@.len() - k,
    {
        assert(view[k as int].1 == modes@[k as int].1@);
        let ram: u64 = required_ram(modes[k].1);
        if ram > best_ram {
            best = k;
            best_ram = ram;
        }
        k += 1;
    }
    assert(is_best(view, best as int));
    modes[best]
}

/// The compatible ones among the first `n` modes, in manifest order.
pub open spec fn compatible_prefix(
    modes: Seq<(Seq<char>, ModeView)>,
    env: EnvironmentView,
    n: int,
) -> Seq<(Seq<char>, ModeView)>
    decreases n,
{
    if n <= 0 {
        Seq::empty()
    } else {
        let rest = compatible_prefix(modes, env, n - 1);
        if compatible(modes[n - 1].1, env) {
            rest.push(modes[n - 1])
        } else {
            rest
        }
    }
}

/// The modes of a manifest that can be installed in an environment, in
/// manifest order.
pub open spec fn compatible_modes(m: ManifestView, env: EnvironmentView) -> Seq<
    (Seq<char>, ModeView),
> {
    compatible_prefix(m.modes, env, m.modes.len() as int)
}

/// The line that says why a mode was passed over.
pub open spec fn rejection_text(name: Seq<char>, mode: ModeView, env: EnvironmentView) -> Seq<
    char,
> {
    match mode_verdict(mode, env) {
        Verdict::Rejected(reason) => name + ": "@ + reason,
        _ => name + ": missing required steps for "@ + env.os,
    }
}

/// One line per mode of the manifest, in manifest order, each saying why
/// that mode was passed over.
pub open spec fn rejections(m: ManifestView, env: EnvironmentView) -> Seq<Seq<char>> {
    Seq::new(m.modes.len(), |i: int| rejection_text(m.modes[i].0, m.modes[i].1, env))
}

/// The steps of a plan: the given steps in their order, each with its
/// zero-based position, its description and its command.
pub open spec fn planned_steps(steps: Seq<StepView>) -> Seq<PlannedStepView> {
    Seq::new(
        steps.len(),
        |k: int|
            PlannedStepView {
                index: k as nat,
                description: step_description(steps[k]),
                command: step_command(steps[k]),
                step: steps[k],
            },
    )
}

/// The plan that installs the chosen mode: the application's name and
/// version, the mode's name, the platform, and the mode's steps for that
/// platform.
pub open spec fn plan_of(
    m: ManifestView,
    env: EnvironmentView,
    chosen: (Seq<char>, ModeView),
) -> InstallPlanView {
    InstallPlanView {
        app_name: m.name,
        app_version: m.version,
        chosen_mode: chosen.0,
        os: env.os,
        steps: planned_steps(lookup(chosen.1.steps, env.os).unwrap()),
    }
}

/// Every candidate is a compatible mode of the manifest, and there is no
/// candidate exactly when no mode is compatible.
pub proof fn lemma_compatible_prefix(
    modes: Seq<(Seq<char>, ModeView)>,
    env: EnvironmentView,
    n: int,
)
    requires
        0 <= n <= modes.len(),
    ensures
        compatible_prefix(modes, env, n).len() <= n,
        forall|k: int|
            0 <= k < compatible_prefix(modes, env, n).len() ==> compatible(
                (#[trigger] compatible_prefix(modes, env, n)[k]).1,
                env,
            ) && exists|j: int| 0 <= j < n && modes[j] == compatible_prefix(modes, env, n)[k],
        compatible_prefix(modes, env, n).len() == 0 <==> forall|j: int|
            0 <= j < n ==> !compatible((#[trigger] modes[j]).1, env),
    decreases n,
{
    if n > 0 {
        lemma_compatible_prefix(modes, env, n - 1);
        let rest = compatible_prefix(modes, env, n - 1);
        let all = compatible_prefix(modes, env, n);
        assert forall|k: int| 0 <= k < all.len() implies compatible((#[trigger] all[k]).1, env)
            && exists|j: int| 0 <= j < n && modes[j] == all[k] by {
            if k < rest.len() {
                assert(all[k] == rest[k]);
                let j = choose|j: int| 0 <= j < n - 1 && modes[j] == rest[k];
                assert(modes[j] == all[k]);
            } else {
                assert(modes[n - 1] == all[k]);
            }
        }
        if all.len() == 0 {
            assert forall|j: int| 0 <= j < n implies !compatible((#[trigger] modes[j]).1, env) by {
            }
        }
    }
}

fn plan_steps(steps: &Vec<Step>) -> (r: Vec<PlannedStep>)
    ensures
        r.deep_view() == planned_steps(steps.deep_view()),
{
    let mut planned: Vec<PlannedStep> = Vec::new();
    let mut k: usize = 0;
    while k < steps.len()
        invariant
            k <= steps@.len(),
            planned@.len() == k,
            forall|j: int|
                0 <= j < k ==> (#[trigger] planned@[j])@ == planned_steps(steps.deep_view())[j],
        decreases steps@.len() - k,
    {
        let step = &steps[k];
        assert(steps.deep_view()[k as int] == step@);
        planned.push(
            PlannedStep {
                index: k,
                description: step.description(),
                command: step.command(),
                step: step.clone(),
            },
        );
        k += 1;
    }
    assert(planned.deep_view() =~= planned_steps(steps.deep_view()));
    planned
}

fn rejection_line(mode_name: &String, verdict: &Result<bool, String>, env: &Environment) -> (r:
    String)
    ensures
        verdict matches Err(reason) ==> r@ == mode_name@ + ": "@ + reason@,
        verdict is Ok ==> r@ == mode_name@ + ": missing required steps for "@ + env@.os,
{
    let mut r = mode_name.clone();
    match verdict {
        Err(reason) => {
            r.append(": ");
            r.append(reason.as_str());
        },
        Ok(_) => {
            r.append(": missing required steps for ");
            r.append(env.os.as_str());
        },
    }
    r
}

/// Plans an installation: picks the one mode of the manifest to install
/// in the environment and lists its steps for the environment's platform.
/// Where no mode is compatible, the error carries the environment and,
/// for each mode in manifest order, the reason it was passed over.
pub fn plan_install(manifest: &Manifest, env: &Environment) -> (r: Result<
    InstallPlan,
    PlannerError,
>)
    ensures
        match r {
            Ok(plan) => exists|i: int|
                is_best(compatible_modes(manifest@, env@), i) && plan@ == plan_of(
                    manifest@,
                    env@,
                    #[trigger] compatible_modes(manifest@, env@)[i],
                ),
            Err(e) => compatible_modes(manifest@, env@).len() == 0 && e@
                == (PlannerErrorView::NoCompatibleMode {
                environment: env@,
                reasons: rejections(manifest@, env@),
            }),
        },
{
    let ghost modes = manifest@.modes;
    let n: usize = manifest.modes.len();
    let mut found: Vec<(&String, &Mode)> = Vec::new();
    let mut reasons: Vec<String> = Vec::new();
    let mut i: usize = 0;
    while i < n
        invariant
            i <= n,
            n == manifest.modes@.len(),
            modes == manifest@.modes,
            candidates_view(found@) == compatible_prefix(modes, env@, i as int),
            found@.len() == 0 ==> reasons@.len() == i && forall|k: int|
                0 <= k < i ==> (#[trigger] reasons@[k])@ == rejection_text(
                    modes[k].0,
                    modes[k].1,
                    env@,
                ),
        decreases n - i,
    {
        if let Some((mode_name, mode)) = manifest.modes.entry(i) {
            assert(modes[i as int] == (mode_name@, mode@));
            let verdict = is_mode_compatible(mode_name.as_str(), mode, env);
            let ghost before = found@;
            match verdict {
                Ok(true) => {
                    found.push((mode_name, mode));
                    assert(candidates_view(found@) =~= candidates_view(before).push(
                        modes[i as int],
                    ));
                },
                _ => {
                    reasons.push(rejection_line(mode_name, &verdict, env));
                },
            }
        }
        i += 1;
    }
    if found.len() == 0 {
        assert(reasons.deep_view() =~= rejections(manifest@, env@));
        return Err(PlannerError::NoCompatibleMode { environment: env.clone(), reasons });
    }
    let chosen = choose_best_mode(found.as_slice());
    proof {
        lemma_compatible_prefix(modes, env@, n as int);
        lemma_lookup_deep(chosen.1.steps, env.os@);
    }
    let ghost pick = choose|p: int|
        is_best(candidates_view(found@), p) && chosen == found@[p];
    assert(candidates_view(found@)[pick] == (chosen.0@, chosen.1@));
    let ghost candidates = compatible_modes(manifest@, env@);
    assert(candidates == candidates_view(found@));
    assert(compatible(candidates[pick].1, env@));
    let steps = match chosen.1.steps.get(env.os.as_str()) {
        Some(steps) => plan_steps(steps),
        None => unreached(),
    };
    let plan = InstallPlan {
        app_name: manifest.name.clone(),
        app_version: manifest.version.clone(),
        chosen_mode: chosen.0.clone(),
        os: env.os.clone(),
        steps,
    };
    assert(plan@ == plan_of(manifest@, env@, candidates[pick]));
    Ok(plan)
}

/// A mode that declares no steps for the environment's platform is never
/// compatible, whatever its requirements say.
pub proof fn lemma_missing_steps_exclude(mode: ModeView, env: EnvironmentView)
    requires
        lookup(mode.steps, env.os) is None,
    ensures
        !compatible(mode, env),
        mode_verdict(mode, env) is MissingSteps,
        forall|requirements: Option<RequirementsView>|
            !compatible(ModeView { requirements, steps: mode.steps }, env),
{
}

/// A mode without steps for the environment's platform is not among the
/// candidates.
pub proof fn lemma_candidates_have_steps(m: ManifestView, env: EnvironmentView, k: int)
    requires
        0 <= k < compatible_modes(m, env).len(),
    ensures
        lookup(compatible_modes(m, env)[k].1.steps, env.os) is Some,
        compatible(compatible_modes(m, env)[k].1, env),
        exists|j: int| 0 <= j < m.modes.len() && m.modes[j] == compatible_modes(m, env)[k],
{
    lemma_compatible_prefix(m.modes, env, m.modes.len() as int);
    let c = compatible_modes(m, env)[k];
    assert(compatible(c.1, env));
    let j = choose|j: int| 0 <= j < m.modes.len() && m.modes[j] == c;
    assert(m.modes[j] == compatible_modes(m, env)[k]);
}

/// Selection is deterministic: at most one candidate is the one to
/// install.
pub proof fn lemma_best_unique(candidates: Seq<(Seq<char>, ModeView)>, i: int, j: int)
    requires
        is_best(candidates, i),
        is_best(candidates, j),
    ensures
        i == j,
{
    if i < j {
        assert(candidates[i].0 == candidates[i].0);
    } else if j < i {
        assert(candidates[j].0 == candidates[j].0);
    }
}

proof fn lemma_best_among_first(candidates: Seq<(Seq<char>, ModeView)>, n: int) -> (b: int)
    requires
        0 < n <= candidates.len(),
    ensures
        0 <= b < n,
        forall|j: int|
            0 <= j < n ==> required_ram_of((#[trigger] candidates[j]).1) <= required_ram_of(
                candidates[b].1,
            ),
        forall|j: int|
            0 <= j < b ==> required_ram_of((#[trigger] candidates[j]).1) < required_ram_of(
                candidates[b].1,
            ),
    decreases n,
{
    if n == 1 {
        0
    } else {
        let prev = lemma_best_among_first(candidates, n - 1);
        if required_ram_of(candidates[n - 1].1) > required_ram_of(candidates[prev].1) {
            n - 1
        } else {
            prev
        }
    }
}

proof fn lemma_first_preferred(candidates: Seq<(Seq<char>, ModeView)>, n: int) -> (b: int)
    requires
        0 <= n < candidates.len(),
        candidates[n].0 == preferred_name(),
    ensures
        0 <= b <= n,
        candidates[b].0 == preferred_name(),
        forall|j: int| 0 <= j < b ==> (#[trigger] candidates[j]).0 != preferred_name(),
    decreases n,
{
    if exists|j: int| 0 <= j < n && (#[trigger] candidates[j]).0 == preferred_name() {
        let j = choose|j: int| 0 <= j < n && (#[trigger] candidates[j]).0 == preferred_name();
        lemma_first_preferred(candidates, j)
    } else {
        n
    }
}

/// Whenever some mode is compatible, one of the candidates is the one to
/// install.
pub proof fn lemma_best_exists(candidates: Seq<(Seq<char>, ModeView)>)
    requires
        candidates.len() > 0,
    ensures
        exists|i: int| is_best(candidates, i),
{
    if has_preferred(candidates) {
        let j = choose|j: int|
            0 <= j < candidates.len() && (#[trigger] candidates[j]).0 == preferred_name();
        let b = lemma_first_preferred(candidates, j);
        assert(is_best(candidates, b));
    } else {
        let b = lemma_best_among_first(candidates, candidates.len() as int);
        assert(is_best(candidates, b));
    }
}

/// A compatible mode named `full` is chosen whatever memory the
/// candidates ask for; without one, the choice asks for at least as much
/// memory as every other candidate, and for more than every candidate
/// listed before it.
pub proof fn lemma_selection_policy(candidates: Seq<(Seq<char>, ModeView)>, i: int)
    requires
        is_best(candidates, i),
    ensures
        has_preferred(candidates) ==> candidates[i].0 == preferred_name(),
        !has_preferred(candidates) ==> forall|j: int|
            0 <= j < candidates.len() ==> required_ram_of((#[trigger] candidates[j]).1)
                <= required_ram_of(candidates[i].1),
        !has_preferred(candidates) ==> forall|j: int|
            0 <= j < i ==> required_ram_of((#[trigger] candidates[j]).1) < required_ram_of(
                candidates[i].1,
            ),
{
}

/// The same manifest and environment always give the same plan.
pub proof fn lemma_plan_determined(m: ManifestView, env: EnvironmentView, i: int, j: int)
    requires
        is_best(compatible_modes(m, env), i),
        is_best(compatible_modes(m, env), j),
    ensures
        plan_of(m, env, compatible_modes(m, env)[i]) == plan_of(m, env, compatible_modes(m, env)[j]),
{
    lemma_best_unique(compatible_modes(m, env), i, j);
}

/// Where nothing is compatible, the reasons hold exactly one line for each
/// mode of the manifest, in manifest order, and each line opens with the
/// name of its mode.
pub proof fn lemma_one_reason_per_mode(m: ManifestView, env: EnvironmentView)
    ensures
        rejections(m, env).len() == m.modes.len(),
        forall|i: int|
            0 <= i < m.modes.len() ==> (#[trigger] rejections(m, env)[i]) == rejection_text(
                m.modes[i].0,
                m.modes[i].1,
                env,
            ),
        forall|i: int|
            0 <= i < m.modes.len() ==> m.modes[i].0.is_prefix_of(#[trigger] rejections(m, env)[i]),
{
    assert forall|i: int| 0 <= i < m.modes.len() implies m.modes[i].0.is_prefix_of(
        #[trigger] rejections(m, env)[i],
    ) by {
        let name = m.modes[i].0;
        let line = rejections(m, env)[i];
        assert(line.subrange(0, name.len() as int) =~= name);
    }
}

/// The steps of a plan are the chosen mode's steps for the platform, in
/// their order, numbered from zero.
pub proof fn lemma_plan_steps_in_order(
    m: ManifestView,
    env: EnvironmentView,
    chosen: (Seq<char>, ModeView),
)
    requires
        lookup(chosen.1.steps, env.os) is Some,
    ensures
        plan_of(m, env, chosen).steps.len() == lookup(chosen.1.steps, env.os).unwrap().len(),
        forall|k: int|
            0 <= k < plan_of(m, env, chosen).steps.len() ==> {
                let planned = #[trigger] plan_of(m, env, chosen).steps[k];
                planned.index == k && planned.step == lookup(chosen.1.steps, env.os).unwrap()[k]
            },
{
}

/// A plan made from a valid manifest has at least one step.
pub proof fn lemma_valid_plan_has_steps(m: ManifestView, env: EnvironmentView, i: int)
    requires
        valid_manifest(m),
        0 <= i < compatible_modes(m, env).len(),
    ensures
        plan_of(m, env, compatible_modes(m, env)[i]).steps.len() > 0,
{
    lemma_candidates_have_steps(m, env, i);
    lemma_valid_manifest(m);
    let chosen = compatible_modes(m, env)[i];
    let j = choose|j: int| 0 <= j < m.modes.len() && m.modes[j] == chosen;
    lemma_position_from(chosen.1.steps, env.os, 0);
    let p = position_from(chosen.1.steps, env.os, 0)->0;
    assert(m.modes[j].1.steps[p].1.len() > 0);
}

} // verus!
