//! The install manifest: named modes, their requirements and their steps for
//! each platform, together with the rules a manifest must meet before it is
//! planned from.

use crate::strmap::StrMap;
use crate::text::{
    chars_of, find_from, first_occurrence, lemma_first_occurrence, lowercase, occurs_at, str_eq, to_lowercase,
    trim, trimmed,
};
use vstd::prelude::*;

verus! {

/// A constraint on the operating system: a family, and optionally the lowest
/// version accepted.
#[derive(Debug, Clone)]
pub struct OsConstraint {
    pub family: String,
    pub min_version: Option<String>,
}

/// What an [`OsConstraint`] says.
pub struct OsConstraintView {
    pub family: Seq<char>,
    pub min_version: Option<Seq<char>>,
}

impl DeepView for OsConstraint {
    type V = OsConstraintView;

    open spec fn deep_view(&self) -> OsConstraintView {
        OsConstraintView { family: self.family@, min_version: self.min_version.deep_view() }
    }
}

impl View for OsConstraint {
    type V = OsConstraintView;

    open spec fn view(&self) -> OsConstraintView {
        self.deep_view()
    }
}

/// What a mode asks of the machine. An empty `os` or `cpu_arch` list places
/// no constraint on that axis.
#[derive(Debug)]
pub struct Requirements {
    pub os: Vec<OsConstraint>,
    pub cpu_arch: Vec<String>,
    pub ram_gb: Option<u64>,
}

/// What a [`Requirements`] value says.
pub struct RequirementsView {
    pub os: Seq<OsConstraintView>,
    pub cpu_arch: Seq<Seq<char>>,
    pub ram_gb: Option<u64>,
}

impl DeepView for Requirements {
    type V = RequirementsView;

    open spec fn deep_view(&self) -> RequirementsView {
        RequirementsView {
            os: self.os.deep_view(),
            cpu_arch: self.cpu_arch.deep_view(),
            ram_gb: self.ram_gb,
        }
    }
}

impl View for Requirements {
    type V = RequirementsView;

    open spec fn view(&self) -> RequirementsView {
        self.deep_view()
    }
}

impl Default for Requirements {
    /// No constraint at all.
    fn default() -> (r: Self)
        ensures
            r@.os.len() == 0,
            r@.cpu_arch.len() == 0,
            r@.ram_gb is None,
    {
        Requirements { os: Vec::new(), cpu_arch: Vec::new(), ram_gb: None }
    }
}

/// Where to fetch a file from and where to put it.
#[derive(Debug, Clone)]
pub struct DownloadStep {
    pub url: String,
    pub dest: String,
}

/// Which archive to unpack and into which directory.
#[derive(Debug, Clone)]
pub struct ExtractStep {
    pub archive: String,
    pub dest: String,
}

/// Which template to render, where to write the result, and the values to
/// substitute.
#[derive(Debug, Clone)]
pub struct TemplateConfigStep {
    pub source: String,
    pub dest: String,
    pub vars: StrMap<String>,
}

/// One unit of installation work.
#[derive(Debug)]
pub enum Step {
    Run { run: String },
    Download { download: DownloadStep },
    Extract { extract: ExtractStep },
    TemplateConfig { template_config: TemplateConfigStep },
}

/// What a [`Step`] says.
pub enum StepView {
    Run { command: Seq<char> },
    Download { url: Seq<char>, dest: Seq<char> },
    Extract { archive: Seq<char>, dest: Seq<char> },
    TemplateConfig { source: Seq<char>, dest: Seq<char>, vars: Seq<(Seq<char>, Seq<char>)> },
}

impl DeepView for Step {
    type V = StepView;

    open spec fn deep_view(&self) -> StepView {
        match self {
            Step::Run { run } => StepView::Run { command: run@ },
            Step::Download { download } => StepView::Download {
                url: download.url@,
                dest: download.dest@,
            },
            Step::Extract { extract } => StepView::Extract {
                archive: extract.archive@,
                dest: extract.dest@,
            },
            Step::TemplateConfig { template_config } => StepView::TemplateConfig {
                source: template_config.source@,
                dest: template_config.dest@,
                vars: template_config.vars.deep_view(),
            },
        }
    }
}

impl View for Step {
    type V = StepView;

    open spec fn view(&self) -> StepView {
        self.deep_view()
    }
}

/// A named installation variant: what it requires, and its steps for each
/// platform it supports.
#[derive(Debug)]
pub struct Mode {
    pub requirements: Option<Requirements>,
    pub steps: StrMap<Vec<Step>>,
}

/// What a [`Mode`] says.
pub struct ModeView {
    pub requirements: Option<RequirementsView>,
    pub steps: Seq<(Seq<char>, Seq<StepView>)>,
}

impl DeepView for Mode {
    type V = ModeView;

    open spec fn deep_view(&self) -> ModeView {
        ModeView { requirements: self.requirements.deep_view(), steps: self.steps.deep_view() }
    }
}

impl View for Mode {
    type V = ModeView;

    open spec fn view(&self) -> ModeView {
        self.deep_view()
    }
}

/// The declarative description of an application's install modes.
#[derive(Debug)]
pub struct Manifest {
    pub name: String,
    pub version: String,
    pub modes: StrMap<Mode>,
}

/// What a [`Manifest`] says; `modes` is in the order in which modes are
/// considered.
pub struct ManifestView {
    pub name: Seq<char>,
    pub version: Seq<char>,
    pub modes: Seq<(Seq<char>, ModeView)>,
}

impl DeepView for Manifest {
    type V = ManifestView;

    open spec fn deep_view(&self) -> ManifestView {
        ManifestView { name: self.name@, version: self.version@, modes: self.modes.deep_view() }
    }
}

impl View for Manifest {
    type V = ManifestView;

    open spec fn view(&self) -> ManifestView {
        self.deep_view()
    }
}

impl Clone for Step {
    fn clone(&self) -> (r: Self)
        ensures
            r@ == self@,
    {
        match self {
            Step::Run { run } => Step::Run { run: run.clone() },
            Step::Download { download } => Step::Download {
                download: DownloadStep { url: download.url.clone(), dest: download.dest.clone() },
            },
            Step::Extract { extract } => Step::Extract {
                extract: ExtractStep {
                    archive: extract.archive.clone(),
                    dest: extract.dest.clone(),
                },
            },
            Step::TemplateConfig { template_config } => {
                let vars = template_config.vars.clone();
                assert(vars.deep_view() =~= template_config.vars.deep_view());
                Step::TemplateConfig {
                    template_config: TemplateConfigStep {
                        source: template_config.source.clone(),
                        dest: template_config.dest.clone(),
                        vars,
                    },
                }
            },
        }
    }
}

/// Why a constraint string could not be read.
#[derive(Debug)]
pub enum ManifestError {
    InvalidOsConstraint(String),
}

/// What a [`ManifestError`] says.
pub enum ManifestErrorView {
    InvalidOsConstraint(Seq<char>),
}

impl View for ManifestError {
    type V = ManifestErrorView;

    open spec fn view(&self) -> ManifestErrorView {
        match self {
            ManifestError::InvalidOsConstraint(raw) => ManifestErrorView::InvalidOsConstraint(raw@),
        }
    }
}

/// Why a manifest was turned down.
#[derive(Debug)]
pub enum ManifestValidationError {
    MissingField(String),
    EmptyModes,
    ModeMissingSteps(String),
    ModeMissingPlatformSteps { mode: String, platform: String },
    UnsupportedPlatform(String),
    InvalidRequirement(String, String),
    InvalidStep(String, String),
}

/// What a [`ManifestValidationError`] says.
pub enum ValidationErrorView {
    MissingField(Seq<char>),
    EmptyModes,
    ModeMissingSteps(Seq<char>),
    ModeMissingPlatformSteps { mode: Seq<char>, platform: Seq<char> },
    UnsupportedPlatform(Seq<char>),
    InvalidRequirement(Seq<char>, Seq<char>),
    InvalidStep(Seq<char>, Seq<char>),
}

impl View for ManifestValidationError {
    type V = ValidationErrorView;

    open spec fn view(&self) -> ValidationErrorView {
        match self {
            ManifestValidationError::MissingField(field) => ValidationErrorView::MissingField(
                field@,
            ),
            ManifestValidationError::EmptyModes => ValidationErrorView::EmptyModes,
            ManifestValidationError::ModeMissingSteps(mode) => ValidationErrorView::ModeMissingSteps(
                mode@,
            ),
            ManifestValidationError::ModeMissingPlatformSteps { mode, platform } =>
                ValidationErrorView::ModeMissingPlatformSteps { mode: mode@, platform: platform@ },
            ManifestValidationError::UnsupportedPlatform(platform) =>
                ValidationErrorView::UnsupportedPlatform(platform@),
            ManifestValidationError::InvalidRequirement(mode, reason) =>
                ValidationErrorView::InvalidRequirement(mode@, reason@),
            ManifestValidationError::InvalidStep(mode, reason) => ValidationErrorView::InvalidStep(
                mode@,
                reason@,
            ),
        }
    }
}

/// The text of a [`ManifestError`].
pub open spec fn manifest_error_message(e: ManifestErrorView) -> Seq<char> {
    match e {
        ManifestErrorView::InvalidOsConstraint(raw) => "invalid OS constraint format: "@ + raw,
    }
}

impl ManifestError {
    /// The error as a sentence.
    pub fn message(&self) -> (r: String)
        ensures
            r@ == manifest_error_message(self@),
    {
        match self {
            ManifestError::InvalidOsConstraint(raw) => {
                let mut r = String::from_str("invalid OS constraint format: ");
                r.append(raw.as_str());
                r
            },
        }
    }
}

/// The text of a [`ManifestValidationError`].
pub open spec fn validation_message(e: ValidationErrorView) -> Seq<char> {
    match e {
        ValidationErrorView::MissingField(field) => "manifest missing required field: "@ + field,
        ValidationErrorView::EmptyModes => "manifest has no modes defined"@,
        ValidationErrorView::ModeMissingSteps(mode) => "mode '"@ + mode
            + "' has no steps defined for any platform"@,
        ValidationErrorView::ModeMissingPlatformSteps { mode, platform } => "mode '"@ + mode
            + "' has no steps for platform '"@ + platform + "'"@,
        ValidationErrorView::UnsupportedPlatform(platform) => "unsupported platform '"@ + platform
            + "' in manifest"@,
        ValidationErrorView::InvalidRequirement(mode, reason) => "mode '"@ + mode
            + "' has an invalid requirement: "@ + reason,
        ValidationErrorView::InvalidStep(mode, reason) => "mode '"@ + mode
            + "' has an invalid step: "@ + reason,
    }
}

impl ManifestValidationError {
    /// The error as a sentence.
    pub fn message(&self) -> (r: String)
        ensures
            r@ == validation_message(self@),
    {
        match self {
            ManifestValidationError::MissingField(field) => {
                let mut r = String::from_str("manifest missing required field: ");
                r.append(field.as_str());
                r
            },
            ManifestValidationError::EmptyModes => String::from_str(
                "manifest has no modes defined",
            ),
            ManifestValidationError::ModeMissingSteps(mode) => {
                let mut r = String::from_str("mode '");
                r.append(mode.as_str());
                r.append("' has no steps defined for any platform");
                r
            },
            ManifestValidationError::ModeMissingPlatformSteps { mode, platform } => {
                let mut r = String::from_str("mode '");
                r.append(mode.as_str());
                r.append("' has no steps for platform '");
                r.append(platform.as_str());
                r.append("'");
                r
            },
            ManifestValidationError::UnsupportedPlatform(platform) => {
                let mut r = String::from_str("unsupported platform '");
                r.append(platform.as_str());
                r.append("' in manifest");
                r
            },
            ManifestValidationError::InvalidRequirement(mode, reason) => {
                let mut r = String::from_str("mode '");
                r.append(mode.as_str());
                r.append("' has an invalid requirement: ");
                r.append(reason.as_str());
                r
            },
            ManifestValidationError::InvalidStep(mode, reason) => {
                let mut r = String::from_str("mode '");
                r.append(mode.as_str());
                r.append("' has an invalid step: ");
                r.append(reason.as_str());
                r
            },
        }
    }
}

/// Why a step on its own is unacceptable, if it is: a command that is empty
/// once trimmed.
pub open spec fn step_fault(step: StepView) -> Option<Seq<char>> {
    match step {
        StepView::Run { command } => if trimmed(command).len() == 0 {
            Some("run command cannot be empty"@)
        } else {
            None
        },
        _ => None,
    }
}

/// The one-line description of a step.
pub open spec fn step_description(step: StepView) -> Seq<char> {
    match step {
        StepView::Run { command } => "Run: "@ + command,
        StepView::Download { url, dest } => "Download: "@ + url + " -> "@ + dest,
        StepView::Extract { archive, dest } => "Extract: "@ + archive + " -> "@ + dest,
        StepView::TemplateConfig { source, dest, vars } => "Template: "@ + source + " -> "@ + dest,
    }
}

/// The literal command of a step; empty for steps that run no command.
pub open spec fn step_command(step: StepView) -> Seq<char> {
    match step {
        StepView::Run { command } => command,
        _ => Seq::empty(),
    }
}

impl Step {
    /// Checks the step on its own. The error names no mode: the step does
    /// not know which mode it belongs to.
    pub fn validate(&self) -> (r: Result<(), ManifestValidationError>)
        ensures
            match step_fault(self@) {
                Some(reason) => r matches Err(e) && e@ == ValidationErrorView::InvalidStep(
                    Seq::empty(),
                    reason,
                ),
                None => r is Ok,
            },
    {
        match self {
            Step::Run { run } => {
                if trim(run.as_str()).unicode_len() == 0 {
                    Err(
                        ManifestValidationError::InvalidStep(
                            String::new(),
                            String::from_str("run command cannot be empty"),
                        ),
                    )
                } else {
                    Ok(())
                }
            },
            _ => Ok(()),
        }
    }

    /// A human-readable line naming what the step does.
    pub fn description(&self) -> (r: String)
        ensures
            r@ == step_description(self@),
    {
        match self {
            Step::Run { run } => {
                let mut r = String::from_str("Run: ");
                r.append(run.as_str());
                r
            },
            Step::Download { download } => {
                let mut r = String::from_str("Download: ");
                r.append(download.url.as_str());
                r.append(" -> ");
                r.append(download.dest.as_str());
                r
            },
            Step::Extract { extract } => {
                let mut r = String::from_str("Extract: ");
                r.append(extract.archive.as_str());
                r.append(" -> ");
                r.append(extract.dest.as_str());
                r
            },
            Step::TemplateConfig { template_config } => {
                let mut r = String::from_str("Template: ");
                r.append(template_config.source.as_str());
                r.append(" -> ");
                r.append(template_config.dest.as_str());
                r
            },
        }
    }

    /// The command line of a `Run` step; empty for the other kinds.
    pub fn command(&self) -> (r: String)
        ensures
            r@ == step_command(self@),
    {
        match self {
            Step::Run { run } => run.clone(),
            _ => String::new(),
        }
    }
}

/// The two characters that separate a family from its lowest version.
pub open spec fn at_least_marker() -> Seq<char> {
    seq!['>', '=']
}

/// What a constraint string means: `<family>` or `<family>>=<version>`,
/// surrounding whitespace ignored and the family in lowercase. A string with
/// an empty family, or with nothing after `>=`, means nothing.
pub open spec fn os_constraint_of(raw: Seq<char>) -> Result<OsConstraintView, ManifestErrorView> {
    match first_occurrence(raw, at_least_marker(), 0) {
        Some(i) => {
            let family = lowercase(trimmed(raw.subrange(0, i)));
            let version = trimmed(raw.subrange(i + 2, raw.len() as int));
            if family.len() == 0 || version.len() == 0 {
                Err(ManifestErrorView::InvalidOsConstraint(raw))
            } else {
                Ok(OsConstraintView { family, min_version: Some(version) })
            }
        },
        None => if trimmed(raw).len() != 0 {
            Ok(OsConstraintView { family: lowercase(trimmed(raw)), min_version: None })
        } else {
            Err(ManifestErrorView::InvalidOsConstraint(raw))
        },
    }
}

/// Reads an operating-system constraint of the form `<family>` or
/// `<family>>=<version>`.
pub fn parse_os_constraint(raw: &str) -> (r: Result<OsConstraint, ManifestError>)
    ensures
        match os_constraint_of(raw@) {
            Ok(c) => r matches Ok(parsed) && parsed@ == c,
            Err(e) => r matches Err(err) && err@ == e,
        },
{
    let chars = chars_of(raw);
    let mut marker: Vec<char> = Vec::new();
    marker.push('>');
    marker.push('=');
    assert(marker@ =~= at_least_marker());
    match find_from(&chars, &marker, 0) {
        Some(i) => {
            let n: usize = chars.len();
            proof {
                lemma_first_occurrence(raw@, at_least_marker(), 0);
                assert(at_least_marker().len() == 2);
                assert(occurs_at(raw@, at_least_marker(), i as int));
            }
            let family_part = raw.substring_char(0, i);
            let version_part = raw.substring_char(i + 2, n);
            let family = to_lowercase(trim(family_part));
            let version = trim(version_part);
            if family.as_str().unicode_len() == 0 || version.unicode_len() == 0 {
                return Err(ManifestError::InvalidOsConstraint(String::from_str(raw)));
            }
            Ok(OsConstraint { family, min_version: Some(String::from_str(version)) })
        },
        None => {
            let body = trim(raw);
            if body.unicode_len() != 0 {
                Ok(OsConstraint { family: to_lowercase(body), min_version: None })
            } else {
                Err(ManifestError::InvalidOsConstraint(String::from_str(raw)))
            }
        },
    }
}

/// Whether `os` names a platform that manifests may target.
pub open spec fn supported_platform(os: Seq<char>) -> bool {
    os == "windows"@ || os == "macos"@
}

/// Accepts the platform families that manifests may target, and no other.
pub fn validate_os_family(os: &str) -> (r: Result<(), ManifestValidationError>)
    ensures
        match r {
            Ok(_) => supported_platform(os@),
            Err(e) => !supported_platform(os@) && e@ == ValidationErrorView::UnsupportedPlatform(
                os@,
            ),
        },
{
    if str_eq(os, "windows") || str_eq(os, "macos") {
        Ok(())
    } else {
        Err(ManifestValidationError::UnsupportedPlatform(String::from_str(os)))
    }
}

/// Whether a string is empty once trimmed.
pub open spec fn blank(s: Seq<char>) -> bool {
    trimmed(s).len() == 0
}

/// The first constraint at or after `from` whose family is not a supported
/// platform, as an error.
pub open spec fn constraints_fault(os: Seq<OsConstraintView>, from: int) -> Option<
    ValidationErrorView,
>
    decreases os.len() - from,
{
    if from < 0 || from >= os.len() {
        None
    } else if !supported_platform(os[from].family) {
        Some(ValidationErrorView::UnsupportedPlatform(os[from].family))
    } else {
        constraints_fault(os, from + 1)
    }
}

/// An error for the first blank architecture at or after `from`, if any.
pub open spec fn arch_fault(mode: Seq<char>, archs: Seq<Seq<char>>, from: int) -> Option<
    ValidationErrorView,
>
    decreases archs.len() - from,
{
    if from < 0 || from >= archs.len() {
        None
    } else if blank(archs[from]) {
        Some(
            ValidationErrorView::InvalidRequirement(mode, "cpu_arch entries must not be empty"@),
        )
    } else {
        arch_fault(mode, archs, from + 1)
    }
}

/// What is wrong with a mode's requirements, if anything: constraints are
/// checked first, then architectures.
pub open spec fn requirements_fault(
    mode: Seq<char>,
    requirements: Option<RequirementsView>,
) -> Option<ValidationErrorView> {
    match requirements {
        None => None,
        Some(r) => match constraints_fault(r.os, 0) {
            Some(e) => Some(e),
            None => arch_fault(mode, r.cpu_arch, 0),
        },
    }
}

/// An error for the first faulty step at or after `from`, if any.
pub open spec fn steps_fault(mode: Seq<char>, steps: Seq<StepView>, from: int) -> Option<
    ValidationErrorView,
>
    decreases steps.len() - from,
{
    if from < 0 || from >= steps.len() {
        None
    } else {
        match step_fault(steps[from]) {
            Some(reason) => Some(ValidationErrorView::InvalidStep(mode, reason)),
            None => steps_fault(mode, steps, from + 1),
        }
    }
}

/// What is wrong with one platform's entry of a mode, if anything: it must
/// have steps, name a supported platform, and hold no faulty step.
pub open spec fn platform_fault(mode: Seq<char>, platform: Seq<char>, steps: Seq<StepView>) -> Option<
    ValidationErrorView,
> {
    if steps.len() == 0 {
        Some(ValidationErrorView::ModeMissingPlatformSteps { mode, platform })
    } else if !supported_platform(platform) {
        Some(ValidationErrorView::UnsupportedPlatform(platform))
    } else {
        steps_fault(mode, steps, 0)
    }
}

/// The fault of the first faulty platform entry at or after `from`, if any.
pub open spec fn platforms_fault(
    mode: Seq<char>,
    platforms: Seq<(Seq<char>, Seq<StepView>)>,
    from: int,
) -> Option<ValidationErrorView>
    decreases platforms.len() - from,
{
    if from < 0 || from >= platforms.len() {
        None
    } else {
        match platform_fault(mode, platforms[from].0, platforms[from].1) {
            Some(e) => Some(e),
            None => platforms_fault(mode, platforms, from + 1),
        }
    }
}

/// What is wrong with a mode, if anything: it must support some platform,
/// then its requirements and its platform entries are checked in turn.
pub open spec fn mode_fault(name: Seq<char>, mode: ModeView) -> Option<ValidationErrorView> {
    if mode.steps.len() == 0 {
        Some(ValidationErrorView::ModeMissingSteps(name))
    } else {
        match requirements_fault(name, mode.requirements) {
            Some(e) => Some(e),
            None => platforms_fault(name, mode.steps, 0),
        }
    }
}

/// The fault of the first faulty mode at or after `from`, if any.
pub open spec fn modes_fault(modes: Seq<(Seq<char>, ModeView)>, from: int) -> Option<
    ValidationErrorView,
>
    decreases modes.len() - from,
{
    if from < 0 || from >= modes.len() {
        None
    } else {
        match mode_fault(modes[from].0, modes[from].1) {
            Some(e) => Some(e),
            None => modes_fault(modes, from + 1),
        }
    }
}

/// The first thing wrong with a manifest, if anything: a blank name, a blank
/// version, no mode at all, or the first fault among its modes.
pub open spec fn manifest_fault(m: ManifestView) -> Option<ValidationErrorView> {
    if blank(m.name) {
        Some(ValidationErrorView::MissingField("name"@))
    } else if blank(m.version) {
        Some(ValidationErrorView::MissingField("version"@))
    } else if m.modes.len() == 0 {
        Some(ValidationErrorView::EmptyModes)
    } else {
        modes_fault(m.modes, 0)
    }
}

/// Whether a manifest may be planned from.
pub open spec fn valid_manifest(m: ManifestView) -> bool {
    manifest_fault(m) is None
}

/// Whether a checking function's answer reports exactly `fault`.
pub open spec fn reports(
    r: Result<(), ManifestValidationError>,
    fault: Option<ValidationErrorView>,
) -> bool {
    match fault {
        Some(e) => r matches Err(x) && x@ == e,
        None => r is Ok,
    }
}

fn is_blank(s: &str) -> (b: bool)
    ensures
        b == blank(s@),
{
    trim(s).unicode_len() == 0
}

#[verifier::loop_isolation(false)]
fn check_requirements(mode_name: &String, requirements: &Option<Requirements>) -> (r: Result<
    (),
    ManifestValidationError,
>)
    ensures
        reports(r, requirements_fault(mode_name@, requirements.deep_view())),
{
    let req = match requirements {
        Some(req) => req,
        None => {
            return Ok(());
        },
    };
    let ghost os = req.os.deep_view();
    let mut i: usize = 0;
    while i < req.os.len()
        invariant
            i <= req.os@.len(),
            os == req.os.deep_view(),
            constraints_fault(os, 0) == constraints_fault(os, i as int),
        decreases req.os@.len() - i,
    {
        assert(os[i as int].family == req.os@[i as int].family@);
        match validate_os_family(req.os[i].family.as_str()) {
            Ok(_) => {},
            Err(e) => {
                return Err(e);
            },
        }
        i += 1;
    }
    let ghost archs = req.cpu_arch.deep_view();
    let mut j: usize = 0;
    while j < req.cpu_arch.len()
        invariant
            j <= req.cpu_arch@.len(),
            archs == req.cpu_arch.deep_view(),
            requirements.deep_view() == Some(req.deep_view()),
            constraints_fault(req.os.deep_view(), 0) is None,
            arch_fault(mode_name@, archs, 0) == arch_fault(mode_name@, archs, j as int),
        decreases req.cpu_arch@.len() - j,
    {
        assert(archs[j as int] == req.cpu_arch@[j as int]@);
        if is_blank(req.cpu_arch[j].as_str()) {
            return Err(
                ManifestValidationError::InvalidRequirement(
                    mode_name.clone(),
                    String::from_str("cpu_arch entries must not be empty"),
                ),
            );
        }
        j += 1;
    }
    Ok(())
}

#[verifier::loop_isolation(false)]
fn check_platform(mode_name: &String, platform: &String, steps: &Vec<Step>) -> (r: Result<
    (),
    ManifestValidationError,
>)
    ensures
        reports(r, platform_fault(mode_name@, platform@, steps.deep_view())),
{
    if steps.len() == 0 {
        return Err(
            ManifestValidationError::ModeMissingPlatformSteps {
                mode: mode_name.clone(),
                platform: platform.clone(),
            },
        );
    }
    match validate_os_family(platform.as_str()) {
        Ok(_) => {},
        Err(e) => {
            return Err(e);
        },
    }
    let ghost view = steps.deep_view();
    let mut i: usize = 0;
    while i < steps.len()
        invariant
            i <= steps@.len(),
            view == steps.deep_view(),
            steps_fault(mode_name@, view, 0) == steps_fault(mode_name@, view, i as int),
        decreases steps@.len() - i,
    {
        assert(view[i as int] == steps@[i as int]@);
        match steps[i].validate() {
            Ok(_) => {},
            Err(e) => {
                let reason = match e {
                    ManifestValidationError::InvalidStep(_, reason) => reason,
                    _ => String::new(),
                };
                return Err(ManifestValidationError::InvalidStep(mode_name.clone(), reason));
            },
        }
        i += 1;
    }
    Ok(())
}

#[verifier::loop_isolation(false)]
fn check_mode(mode_name: &String, mode: &Mode) -> (r: Result<(), ManifestValidationError>)
    ensures
        reports(r, mode_fault(mode_name@, mode@)),
{
    if mode.steps.is_empty() {
        return Err(ManifestValidationError::ModeMissingSteps(mode_name.clone()));
    }
    match check_requirements(mode_name, &mode.requirements) {
        Ok(_) => {},
        Err(e) => {
            return Err(e);
        },
    }
    let ghost platforms = mode.steps.deep_view();
    let n: usize = mode.steps.len();
    let mut i: usize = 0;
    while i < n
        invariant
            i <= n,
            n == mode.steps@.len(),
            platforms == mode.steps.deep_view(),
            platforms_fault(mode_name@, platforms, 0) == platforms_fault(
                mode_name@,
                platforms,
                i as int,
            ),
        decreases n - i,
    {
        if let Some((platform, steps)) = mode.steps.entry(i) {
            assert(platforms[i as int] == (platform@, steps.deep_view()));
            match check_platform(mode_name, platform, steps) {
                Ok(_) => {},
                Err(e) => {
                    return Err(e);
                },
            }
        }
        i += 1;
    }
    Ok(())
}

/// Checks a manifest against the rules and hands it back unchanged when it
/// meets them all; otherwise reports the first rule it breaks.
#[verifier::loop_isolation(false)]
pub fn validate_manifest(manifest: Manifest) -> (r: Result<Manifest, ManifestValidationError>)
    ensures
        match manifest_fault(manifest@) {
            Some(e) => r matches Err(x) && x@ == e,
            None => r == Ok::<Manifest, ManifestValidationError>(manifest),
        },
{
    if is_blank(manifest.name.as_str()) {
        return Err(ManifestValidationError::MissingField(String::from_str("name")));
    }
    if is_blank(manifest.version.as_str()) {
        return Err(ManifestValidationError::MissingField(String::from_str("version")));
    }
    if manifest.modes.is_empty() {
        return Err(ManifestValidationError::EmptyModes);
    }
    let ghost modes = manifest.modes.deep_view();
    let n: usize = manifest.modes.len();
    let mut i: usize = 0;
    while i < n
        invariant
            i <= n,
            n == manifest.modes@.len(),
            modes == manifest.modes.deep_view(),
            modes_fault(modes, 0) == modes_fault(modes, i as int),
        decreases n - i,
    {
        if let Some((name, mode)) = manifest.modes.entry(i) {
            assert(modes[i as int] == (name@, mode@));
            match check_mode(name, mode) {
                Ok(_) => {},
                Err(e) => {
                    return Err(e);
                },
            }
        }
        i += 1;
    }
    Ok(manifest)
}

proof fn lemma_platforms_sound(
    mode: Seq<char>,
    platforms: Seq<(Seq<char>, Seq<StepView>)>,
    from: int,
)
    requires
        0 <= from,
        platforms_fault(mode, platforms, from) is None,
    ensures
        forall|j: int|
            from <= j < platforms.len() ==> supported_platform((#[trigger] platforms[j]).0)
                && platforms[j].1.len() > 0,
    decreases platforms.len() - from,
{
    if from < platforms.len() {
        lemma_platforms_sound(mode, platforms, from + 1);
    }
}

proof fn lemma_modes_sound(modes: Seq<(Seq<char>, ModeView)>, from: int)
    requires
        0 <= from,
        modes_fault(modes, from) is None,
    ensures
        forall|i: int|
            from <= i < modes.len() ==> mode_fault((#[trigger] modes[i]).0, modes[i].1) is None,
    decreases modes.len() - from,
{
    if from < modes.len() {
        lemma_modes_sound(modes, from + 1);
    }
}

/// A manifest that passes validation has a name and a version that are not
/// blank and at least one mode; every mode supports at least one platform,
/// every platform it names is a supported one, and every platform has at
/// least one step.
pub proof fn lemma_valid_manifest(m: ManifestView)
    requires
        valid_manifest(m),
    ensures
        !blank(m.name),
        !blank(m.version),
        m.modes.len() > 0,
        forall|i: int| 0 <= i < m.modes.len() ==> (#[trigger] m.modes[i]).1.steps.len() > 0,
        forall|i: int, j: int|
            0 <= i < m.modes.len() && 0 <= j < m.modes[i].1.steps.len() ==> supported_platform(
                (#[trigger] m.modes[i].1.steps[j]).0,
            ) && m.modes[i].1.steps[j].1.len() > 0,
{
    lemma_modes_sound(m.modes, 0);
    assert forall|i: int, j: int|
        0 <= i < m.modes.len() && 0 <= j < m.modes[i].1.steps.len() implies supported_platform(
        (#[trigger] m.modes[i].1.steps[j]).0,
    ) && m.modes[i].1.steps[j].1.len() > 0 by {
        assert(mode_fault(m.modes[i].0, m.modes[i].1) is None);
        lemma_platforms_sound(m.modes[i].0, m.modes[i].1.steps, 0);
    }
    assert forall|i: int| 0 <= i < m.modes.len() implies (#[trigger] m.modes[i]).1.steps.len()
        > 0 by {
        assert(mode_fault(m.modes[i].0, m.modes[i].1) is None);
    }
}

} // verus!
