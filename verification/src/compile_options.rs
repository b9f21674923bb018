//! What an invocation of the compiler asks for, and what that comes down to.

use vstd::prelude::*;
use vstd::slice::slice_subrange;
use vstd::utf8::encode_utf8;

use crate::bundle::{digest_of, digest_text};
use crate::cpu::{ascending, ascending_lists_are_unique, in_order};
use crate::files::{
    names_a_file, names_file, replace_extension, stem, stem_of,
    with_extension,
};
use crate::ir::PlanNodeId;
use crate::outside::{json_quoted, json_string};
use crate::text::{
    all_digits, chars_of, decimal, decimal_spells, digits_value, given, parse_digits, push_decimal,
    shown_as, string_of,
};

verus! {

/// What a program is compiled to.
#[derive(Clone, Copy, Debug, PartialEq, Eq, Structural)]
pub enum CompileTarget {
    /// A program of its own.
    Binary,
    /// A program for a virtual machine.
    Wasm,
    /// Nothing: it is run.
    Script,
    /// Nothing: its plan is shown.
    Ir,
    /// Nothing: its graph is shown.
    Dot,
}

/// How a schedule is explained.
#[derive(Clone, Copy, Debug, PartialEq, Eq, Structural)]
pub enum ScheduleExplanationFormat {
    Text,
    Json,
}

/// What an invocation of the compiler asks for.
#[derive(Debug)]
pub struct CompileOptions {
    pub target: CompileTarget,
    pub route: Option<String>,
    pub routes_policy: Option<String>,
    pub project_trace_out: Option<String>,
    pub grounding: bool,
    pub explain_schedule: bool,
    pub format: Option<ScheduleExplanationFormat>,
    pub execution_intent_json: bool,
    pub why: Option<PlanNodeId>,
    pub workers: Option<u64>,
    pub world_id: Option<String>,
    pub world_epoch: Option<u64>,
}

impl CompileOptions {
    /// A plain invocation.
    pub fn new(target: CompileTarget) -> (options: CompileOptions)
        ensures
            options.target == target,
            options.route is None && options.routes_policy is None && options.project_trace_out
                is None && options.format is None && options.why is None && options.workers is None
                && options.world_id is None && options.world_epoch is None,
            !options.grounding && !options.explain_schedule && !options.execution_intent_json,
    {
        CompileOptions {
            target,
            route: None,
            routes_policy: None,
            project_trace_out: None,
            grounding: false,
            explain_schedule: false,
            format: None,
            execution_intent_json: false,
            why: None,
            workers: None,
            world_id: None,
            world_epoch: None,
        }
    }
}

/// Why an invocation cannot be carried out.
#[derive(Clone, Copy, Debug, PartialEq, Eq, Structural)]
pub enum CompileError {
    ScheduleTarget,
    NoWorkers,
    WorkersAlone,
    FormatAlone,
    JsonNotAlone,
    WhyTarget,
    WhyAndSchedule,
    IntentTarget,
    IntentNotAlone,
    WhyAndWorld,
    GroundingTarget,
    WorldWithoutGrounding,
    NoEpoch,
    NoWorld,
    ZeroEpoch,
    ProjectSchedule,
    ProjectIntent,
    RouteWithoutProject,
    TraceTarget,
    PolicyWithoutRoute,
    RouteAtCompileTime,
    ProjectGrounding,
    TraceWithoutGraph,
    NoStem,
}

impl CompileError {
    /// The message.
    pub fn to_text(self) -> (text: &'static str)
        ensures
            text@ == (match self {
                CompileError::ScheduleTarget => "--explain-schedule is available only with --target ir"@,
                CompileError::NoWorkers => "--workers must be at least 1"@,
                CompileError::WorkersAlone => "--workers requires --explain-schedule --target ir"@,
                CompileError::FormatAlone => "--format requires --explain-schedule --target ir"@,
                CompileError::JsonNotAlone => "--format json is a standalone schedule view and cannot be combined with grounding or World inspection options"@,
                CompileError::WhyTarget => "--why is available only with --target ir"@,
                CompileError::WhyAndSchedule => "--why and --explain-schedule are distinct inspection views and cannot be combined"@,
                CompileError::IntentTarget => "--execution-intent-json is available only with --target ir"@,
                CompileError::IntentNotAlone => "--execution-intent-json is a standalone JSON inspection view and cannot be combined with schedule, why, grounding, worker, or World inspection options"@,
                CompileError::WhyAndWorld => "--why cannot be combined with --grounding, --world-id, or --world-epoch"@,
                CompileError::GroundingTarget => "--grounding is available only with --target ir"@,
                CompileError::WorldWithoutGrounding => "--world-id and --world-epoch require --grounding --target ir"@,
                CompileError::NoEpoch => "--world-id requires --world-epoch"@,
                CompileError::NoWorld => "--world-epoch requires --world-id"@,
                CompileError::ZeroEpoch => "a World epoch must be nonzero"@,
                CompileError::ProjectSchedule => "--explain-schedule and --why currently admit ordinary .O HGraphs only; project HGraph admission is deferred"@,
                CompileError::ProjectIntent => "--execution-intent-json currently identifies ordinary .O HGraphs only; project HGraph intent is deferred"@,
                CompileError::RouteWithoutProject => "--route, --routes-policy, and --project-trace-out are available only for project inputs"@,
                CompileError::TraceTarget => "--project-trace-out requires hosted project execution with --target script; compiled project binaries accept this option at runtime"@,
                CompileError::PolicyWithoutRoute => "--routes-policy requires --route to name a project route or route set"@,
                CompileError::RouteAtCompileTime => "--route and --routes-policy select project script/IR/DOT plans; compiled project binaries accept them at runtime"@,
                CompileError::ProjectGrounding => "--grounding for project inputs is deferred to the PR9 project-grounding view"@,
                CompileError::TraceWithoutGraph => "the legacy project runtime does not produce a Project HGraph attempt trace"@,
                CompileError::NoStem => "input path has no file stem"@,
            }),
    {
        match self {
            CompileError::ScheduleTarget => "--explain-schedule is available only with --target ir",
            CompileError::NoWorkers => "--workers must be at least 1",
            CompileError::WorkersAlone => "--workers requires --explain-schedule --target ir",
            CompileError::FormatAlone => "--format requires --explain-schedule --target ir",
            CompileError::JsonNotAlone => "--format json is a standalone schedule view and cannot be combined with grounding or World inspection options",
            CompileError::WhyTarget => "--why is available only with --target ir",
            CompileError::WhyAndSchedule => "--why and --explain-schedule are distinct inspection views and cannot be combined",
            CompileError::IntentTarget => "--execution-intent-json is available only with --target ir",
            CompileError::IntentNotAlone => "--execution-intent-json is a standalone JSON inspection view and cannot be combined with schedule, why, grounding, worker, or World inspection options",
            CompileError::WhyAndWorld => "--why cannot be combined with --grounding, --world-id, or --world-epoch",
            CompileError::GroundingTarget => "--grounding is available only with --target ir",
            CompileError::WorldWithoutGrounding => "--world-id and --world-epoch require --grounding --target ir",
            CompileError::NoEpoch => "--world-id requires --world-epoch",
            CompileError::NoWorld => "--world-epoch requires --world-id",
            CompileError::ZeroEpoch => "a World epoch must be nonzero",
            CompileError::ProjectSchedule => "--explain-schedule and --why currently admit ordinary .O HGraphs only; project HGraph admission is deferred",
            CompileError::ProjectIntent => "--execution-intent-json currently identifies ordinary .O HGraphs only; project HGraph intent is deferred",
            CompileError::RouteWithoutProject => "--route, --routes-policy, and --project-trace-out are available only for project inputs",
            CompileError::TraceTarget => "--project-trace-out requires hosted project execution with --target script; compiled project binaries accept this option at runtime",
            CompileError::PolicyWithoutRoute => "--routes-policy requires --route to name a project route or route set",
            CompileError::RouteAtCompileTime => "--route and --routes-policy select project script/IR/DOT plans; compiled project binaries accept them at runtime",
            CompileError::ProjectGrounding => "--grounding for project inputs is deferred to the PR9 project-grounding view",
            CompileError::TraceWithoutGraph => "the legacy project runtime does not produce a Project HGraph attempt trace",
            CompileError::NoStem => "input path has no file stem",
        }
    }
}

impl CompileOptions {
    /// Whether a world is named.
    pub open spec fn about_world(self) -> bool {
        self.grounding || self.world_id is Some || self.world_epoch is Some
    }

    /// What is wrong with what is to be shown, if anything is.
    pub open spec fn inspection_fault(self) -> Option<CompileError> {
        if self.explain_schedule && !(self.target is Ir) {
            Some(CompileError::ScheduleTarget)
        } else if self.workers == Some(0u64) {
            Some(CompileError::NoWorkers)
        } else if self.workers is Some && !self.explain_schedule {
            Some(CompileError::WorkersAlone)
        } else if self.format is Some && !self.explain_schedule {
            Some(CompileError::FormatAlone)
        } else if self.format == Some(ScheduleExplanationFormat::Json) && self.about_world() {
            Some(CompileError::JsonNotAlone)
        } else if self.why is Some && !(self.target is Ir) {
            Some(CompileError::WhyTarget)
        } else if self.why is Some && self.explain_schedule {
            Some(CompileError::WhyAndSchedule)
        } else if self.execution_intent_json && !(self.target is Ir) {
            Some(CompileError::IntentTarget)
        } else if self.execution_intent_json && (self.explain_schedule || self.why is Some
            || self.workers is Some || self.about_world()) {
            Some(CompileError::IntentNotAlone)
        } else if self.why is Some && self.about_world() {
            Some(CompileError::WhyAndWorld)
        } else {
            None
        }
    }

    fn names_world(&self) -> (r: bool)
        ensures
            r == self.about_world(),
    {
        self.grounding || self.world_id.is_some() || self.world_epoch.is_some()
    }

    fn is_ir(&self) -> (r: bool)
        ensures
            r == (self.target is Ir),
    {
        match self.target {
            CompileTarget::Ir => true,
            _ => false,
        }
    }
}

/// Checks what is to be shown of a program.
pub fn validate_admission_inspection(options: &CompileOptions) -> (r: Result<(), CompileError>)
    ensures
        match r {
            Ok(_) => options.inspection_fault() is None,
            Err(error) => options.inspection_fault() == Some(error),
        },
{
    let ir = options.is_ir();
    let world = options.names_world();
    if options.explain_schedule && !ir {
        return Err(CompileError::ScheduleTarget);
    }
    match options.workers {
        Some(n) => {
            if n == 0 {
                return Err(CompileError::NoWorkers);
            }
            if !options.explain_schedule {
                return Err(CompileError::WorkersAlone);
            }
        },
        None => {},
    }
    match options.format {
        Some(format) => {
            if !options.explain_schedule {
                return Err(CompileError::FormatAlone);
            }
            let json = match format {
                ScheduleExplanationFormat::Json => true,
                ScheduleExplanationFormat::Text => false,
            };
            if json && world {
                return Err(CompileError::JsonNotAlone);
            }
        },
        None => {},
    }
    if options.why.is_some() && !ir {
        return Err(CompileError::WhyTarget);
    }
    if options.why.is_some() && options.explain_schedule {
        return Err(CompileError::WhyAndSchedule);
    }
    if options.execution_intent_json && !ir {
        return Err(CompileError::IntentTarget);
    }
    if options.execution_intent_json && (options.explain_schedule || options.why.is_some()
        || options.workers.is_some() || world) {
        return Err(CompileError::IntentNotAlone);
    }
    if options.why.is_some() && world {
        return Err(CompileError::WhyAndWorld);
    }
    Ok(())
}

/// Why a text selects no operation of a plan.
#[derive(Clone, Copy, Debug, PartialEq, Eq, Structural)]
pub enum SelectorError {
    NotCanonical,
    TooLarge,
}

/// The operation of a plan that a text selects.
pub open spec fn selected(value: Seq<char>) -> Result<PlanNodeId, SelectorError> {
    let digits = value.skip(1);
    if value.len() == 0 || value[0] != 'P' || digits.len() == 0 || !all_digits(digits) || (
    digits.len() > 1 && digits[0] == '0') {
        Err(SelectorError::NotCanonical)
    } else if digits_value(digits) > usize::MAX {
        Err(SelectorError::TooLarge)
    } else {
        Ok(PlanNodeId(digits_value(digits) as usize))
    }
}

/// Reads the selection of an operation of a plan, such as `P3`.
pub fn parse_plan_node_selector(value: &str) -> (r: Result<PlanNodeId, SelectorError>)
    ensures
        r == selected(value@),
{
    let chars = chars_of(value);
    let n: usize = chars.len();
    if n == 0 || chars[0] != 'P' {
        return Err(SelectorError::NotCanonical);
    }
    let digits = slice_subrange(chars.as_slice(), 1, n);
    assert(digits@ =~= value@.skip(1));
    if digits.len() == 0 || (digits.len() > 1 && digits[0] == '0') {
        return Err(SelectorError::NotCanonical);
    }
    let mut i: usize = 0;
    while i < digits.len()
        invariant
            i <= digits@.len(),
            forall|j: int|
                0 <= j < i ==> crate::text::is_ascii_digit(#[trigger] digits@[j]),
            digits@ == value@.skip(1),
        decreases digits@.len() - i,
    {
        if !crate::text::ascii_digit(digits[i]) {
            return Err(SelectorError::NotCanonical);
        }
        i += 1;
    }
    assert(all_digits(digits@));
    match parse_digits(digits) {
        Some(value) => if value > usize::MAX as u128 {
            Err(SelectorError::TooLarge)
        } else {
            Ok(PlanNodeId(value as usize))
        },
        None => Err(SelectorError::TooLarge),
    }
}

proof fn lemma_canonical_digits(s: Seq<char>)
    requires
        s.len() > 0,
        all_digits(s),
        s.len() > 1 ==> s[0] != '0',
    ensures
        s == decimal(digits_value(s)),
        s[0] != '0' ==> digits_value(s) > 0,
    decreases s.len(),
{
    let init = s.drop_last();
    let d = (s.last() as int - 48) as nat;
    assert(crate::text::is_ascii_digit(s[s.len() - 1]));
    assert(crate::text::digit_char(d) == s.last());
    if s.len() == 1 {
        assert(digits_value(init) == 0);
        assert(s =~= seq![crate::text::digit_char(d)]);
        assert(decimal(d) =~= seq![crate::text::digit_char(d)]);
    } else {
        assert(init[0] == s[0]);
        assert forall|i: int| 0 <= i < init.len() implies crate::text::is_ascii_digit(
            #[trigger] init[i],
        ) by {
            assert(init[i] == s[i]);
        }
        lemma_canonical_digits(init);
        let v = digits_value(init);
        assert(digits_value(s) == 10 * v + d);
        assert((10 * v + d) / 10 == v && (10 * v + d) % 10 == d);
        assert(s =~= decimal(v).push(s.last()));
    }
}

proof fn lemma_no_leading_zero(n: nat)
    ensures
        decimal(n).len() > 1 ==> decimal(n)[0] != '0',
        n > 0 ==> decimal(n)[0] != '0',
    decreases n,
{
    if n >= 10 {
        lemma_no_leading_zero(n / 10);
        decimal_spells(n / 10);
        assert(decimal(n)[0] == decimal(n / 10)[0]);
    } else {
        assert(decimal(n) =~= seq![crate::text::digit_char(n)]);
    }
}

/// Every operation of a plan is selected by exactly one text: a `P`, and its
/// number without anything else.
pub proof fn plan_selectors_are_canonical(value: Seq<char>, n: usize)
    ensures
        selected(value) == Ok::<PlanNodeId, SelectorError>(PlanNodeId(n)) <==> value == seq!['P']
            + decimal(n as nat),
{
    let digits = value.skip(1);
    decimal_spells(n as nat);
    lemma_no_leading_zero(n as nat);
    if value == seq!['P'] + decimal(n as nat) {
        assert(digits =~= decimal(n as nat));
        assert(value[0] == 'P');
    }
    if selected(value) == Ok::<PlanNodeId, SelectorError>(PlanNodeId(n)) {
        lemma_canonical_digits(digits);
        assert(value =~= seq!['P'] + digits);
    }
}

/// The world that a plan is grounded in, by its name and epoch.
#[derive(Debug)]
pub struct WorldIdentity {
    pub world: String,
    pub epoch: u64,
}

impl WorldIdentity {
    /// The world as it is shown.
    pub fn to_text(&self) -> (out: String)
        ensures
            out@ == self.world@ + "@"@ + decimal(self.epoch as nat),
    {
        let mut out = self.world.clone();
        out.append("@");
        crate::text::push_decimal(&mut out, self.epoch);
        out
    }
}

impl CompileOptions {
    /// What is wrong with the world of a plan, if anything is.
    pub open spec fn world_fault(self) -> Option<CompileError> {
        if self.grounding && !(self.target is Ir) {
            Some(CompileError::GroundingTarget)
        } else if !self.grounding && (self.world_id is Some || self.world_epoch is Some) {
            Some(CompileError::WorldWithoutGrounding)
        } else if self.world_id is Some && self.world_epoch is None {
            Some(CompileError::NoEpoch)
        } else if self.world_id is None && self.world_epoch is Some {
            Some(CompileError::NoWorld)
        } else if self.world_epoch == Some(0u64) {
            Some(CompileError::ZeroEpoch)
        } else {
            None
        }
    }
}

/// The world that a plan is grounded in, if one is named.
pub fn parse_grounding_world(options: &CompileOptions) -> (r: Result<
    Option<WorldIdentity>,
    CompileError,
>)
    ensures
        match r {
            Err(error) => options.world_fault() == Some(error),
            Ok(None) => options.world_fault() is None && options.world_id is None,
            Ok(Some(world)) => options.world_fault() is None && Some(world.world@) == shown_as(
                options.world_id,
            ) && Some(world.epoch) == options.world_epoch,
        },
{
    if options.grounding && !options.is_ir() {
        return Err(CompileError::GroundingTarget);
    }
    if !options.grounding && (options.world_id.is_some() || options.world_epoch.is_some()) {
        return Err(CompileError::WorldWithoutGrounding);
    }
    match (&options.world_id, options.world_epoch) {
        (None, None) => Ok(None),
        (Some(world), Some(epoch)) => if epoch == 0 {
            Err(CompileError::ZeroEpoch)
        } else {
            Ok(Some(WorldIdentity { world: world.clone(), epoch }))
        },
        (Some(_), None) => Err(CompileError::NoEpoch),
        (None, Some(_)) => Err(CompileError::NoWorld),
    }
}

/// What the compiler does with a source.
#[derive(Clone, Copy, Debug, PartialEq, Eq, Structural)]
pub enum SourceMode {
    Build { wasm: bool },
    Run,
    ShowIntent,
    ShowWhy,
    ShowSchedule,
    ShowGrounding,
    ShowPlan,
    ShowGraph,
}

/// What the compiler does with a project.
#[derive(Clone, Copy, Debug, PartialEq, Eq, Structural)]
pub enum ProjectMode {
    Build { wasm: bool },
    Run,
    ShowPlan,
    ShowGraph,
}

impl CompileOptions {
    /// What the compiler does with a source.
    pub open spec fn for_source(self) -> Result<SourceMode, CompileError> {
        if self.route is Some || self.routes_policy is Some || self.project_trace_out is Some {
            Err(CompileError::RouteWithoutProject)
        } else {
            Ok(
                match self.target {
                    CompileTarget::Binary => SourceMode::Build { wasm: false },
                    CompileTarget::Wasm => SourceMode::Build { wasm: true },
                    CompileTarget::Script => SourceMode::Run,
                    CompileTarget::Ir => if self.execution_intent_json {
                        SourceMode::ShowIntent
                    } else if self.why is Some {
                        SourceMode::ShowWhy
                    } else if self.explain_schedule {
                        SourceMode::ShowSchedule
                    } else if self.grounding {
                        SourceMode::ShowGrounding
                    } else {
                        SourceMode::ShowPlan
                    },
                    CompileTarget::Dot => SourceMode::ShowGraph,
                },
            )
        }
    }

    /// What the compiler does with a project.
    pub open spec fn for_project(self, graph_executor: bool) -> Result<ProjectMode, CompileError> {
        if self.explain_schedule || self.why is Some {
            Err(CompileError::ProjectSchedule)
        } else if self.execution_intent_json {
            Err(CompileError::ProjectIntent)
        } else if self.project_trace_out is Some && !(self.target is Script) {
            Err(CompileError::TraceTarget)
        } else if self.routes_policy is Some && self.route is None {
            Err(CompileError::PolicyWithoutRoute)
        } else {
            match self.target {
                CompileTarget::Binary | CompileTarget::Wasm => if self.route is Some {
                    Err(CompileError::RouteAtCompileTime)
                } else {
                    Ok(ProjectMode::Build { wasm: self.target is Wasm })
                },
                CompileTarget::Script => if self.project_trace_out is Some && !graph_executor {
                    Err(CompileError::TraceWithoutGraph)
                } else {
                    Ok(ProjectMode::Run)
                },
                CompileTarget::Ir => if self.grounding {
                    Err(CompileError::ProjectGrounding)
                } else {
                    Ok(ProjectMode::ShowPlan)
                },
                CompileTarget::Dot => Ok(ProjectMode::ShowGraph),
            }
        }
    }
}

/// What the compiler does with a source.
pub fn source_mode(options: &CompileOptions) -> (r: Result<SourceMode, CompileError>)
    ensures
        r == options.for_source(),
{
    if options.route.is_some() || options.routes_policy.is_some()
        || options.project_trace_out.is_some() {
        return Err(CompileError::RouteWithoutProject);
    }
    Ok(
        match options.target {
            CompileTarget::Binary => SourceMode::Build { wasm: false },
            CompileTarget::Wasm => SourceMode::Build { wasm: true },
            CompileTarget::Script => SourceMode::Run,
            CompileTarget::Ir => if options.execution_intent_json {
                SourceMode::ShowIntent
            } else if options.why.is_some() {
                SourceMode::ShowWhy
            } else if options.explain_schedule {
                SourceMode::ShowSchedule
            } else if options.grounding {
                SourceMode::ShowGrounding
            } else {
                SourceMode::ShowPlan
            },
            CompileTarget::Dot => SourceMode::ShowGraph,
        },
    )
}

/// Where a build's output is put, or that the input has no name to go by.
pub open spec fn output_of(asked: Option<Seq<char>>, input: Seq<char>, wasm: bool) -> Result<
    Seq<char>,
    CompileError,
> {
    if asked is None && !names_file(input) {
        Err(CompileError::NoStem)
    } else {
        let path = if asked is Some {
            asked->Some_0
        } else {
            stem(input)
        };
        Ok(
            if wasm && names_file(path) {
                with_extension(path, "wasm"@)
            } else {
                path
            },
        )
    }
}

/// Where a build's output is put: where it was asked for, or else under the
/// input's name without its extension; a WebAssembly module gets the extension
/// `wasm`.
pub fn output_path(asked: Option<&str>, input: &str, wasm: bool) -> (r: Result<String, CompileError>)
    ensures
        match r {
            Ok(path) => output_of(given(asked), input@, wasm) == Ok::<Seq<char>, CompileError>(
                path@,
            ),
            Err(error) => output_of(given(asked), input@, wasm) == Err::<Seq<char>, CompileError>(
                error,
            ),
        },
{
    let path: String = match asked {
        Some(path) => path.to_owned(),
        None => {
            let chars = chars_of(input);
            if !names_a_file(chars.as_slice()) {
                return Err(CompileError::NoStem);
            }
            let name = stem_of(chars.as_slice());
            let text = string_of(name.as_slice(), 0, name.len());
            assert(text@ =~= name@);
            text
        },
    };
    let chars = chars_of(path.as_str());
    if wasm && names_a_file(chars.as_slice()) {
        Ok(replace_extension(chars.as_slice(), "wasm"))
    } else {
        Ok(path)
    }
}

/// Where a project's output is put: where it was asked for, else under the name
/// that the project's directory gives it, else under the input's name without
/// its extension, and under `project` where the input has none.
pub open spec fn project_output_of(
    asked: Option<Seq<char>>,
    named: Option<Seq<char>>,
    input: Seq<char>,
    wasm: bool,
) -> Seq<char> {
    let path = if asked is Some {
        asked->Some_0
    } else if named is Some {
        named->Some_0
    } else if names_file(input) {
        stem(input)
    } else {
        "project"@
    };
    if wasm && names_file(path) {
        with_extension(path, "wasm"@)
    } else {
        path
    }
}

/// Where a project's output is put; `named` is the name of a project that lies
/// in a directory. A WebAssembly module gets the extension `wasm`.
pub fn project_output_path(
    asked: Option<&str>,
    named: Option<&str>,
    input: &str,
    wasm: bool,
) -> (out: String)
    ensures
        out@ == project_output_of(given(asked), given(named), input@, wasm),
{
    let path: String = match (asked, named) {
        (Some(path), _) => path.to_owned(),
        (None, Some(name)) => name.to_owned(),
        (None, None) => {
            let chars = chars_of(input);
            if names_a_file(chars.as_slice()) {
                let name = stem_of(chars.as_slice());
                let text = string_of(name.as_slice(), 0, name.len());
                assert(text@ =~= name@);
                text
            } else {
                "project".to_owned()
            }
        },
    };
    let chars = chars_of(path.as_str());
    if wasm && names_a_file(chars.as_slice()) {
        replace_extension(chars.as_slice(), "wasm")
    } else {
        path
    }
}

/// What the compiler does with a project, which is run by the graph executor or
/// by another one.
pub fn compile_or_run_project(options: &CompileOptions, graph_executor: bool) -> (r: Result<
    ProjectMode,
    CompileError,
>)
    ensures
        r == options.for_project(graph_executor),
{
    if options.explain_schedule || options.why.is_some() {
        return Err(CompileError::ProjectSchedule);
    }
    if options.execution_intent_json {
        return Err(CompileError::ProjectIntent);
    }
    let script = match options.target {
        CompileTarget::Script => true,
        _ => false,
    };
    if options.project_trace_out.is_some() && !script {
        return Err(CompileError::TraceTarget);
    }
    if options.routes_policy.is_some() && options.route.is_none() {
        return Err(CompileError::PolicyWithoutRoute);
    }
    match options.target {
        CompileTarget::Binary => if options.route.is_some() {
            Err(CompileError::RouteAtCompileTime)
        } else {
            Ok(ProjectMode::Build { wasm: false })
        },
        CompileTarget::Wasm => if options.route.is_some() {
            Err(CompileError::RouteAtCompileTime)
        } else {
            Ok(ProjectMode::Build { wasm: true })
        },
        CompileTarget::Script => if options.project_trace_out.is_some() && !graph_executor {
            Err(CompileError::TraceWithoutGraph)
        } else {
            Ok(ProjectMode::Run)
        },
        CompileTarget::Ir => if options.grounding {
            Err(CompileError::ProjectGrounding)
        } else {
            Ok(ProjectMode::ShowPlan)
        },
        CompileTarget::Dot => Ok(ProjectMode::ShowGraph),
    }
}

/// Nothing but a build or a run is asked for by an invocation that shows
/// something, and a program is run only where that is the target.
pub proof fn showing_runs_nothing(options: CompileOptions, graph_executor: bool)
    ensures
        options.for_source() == Ok::<SourceMode, CompileError>(SourceMode::Run)
            ==> options.target is Script,
        options.for_project(graph_executor) == Ok::<ProjectMode, CompileError>(ProjectMode::Run)
            ==> options.target is Script,
        options.target is Ir || options.target is Dot ==> !(options.for_source() matches Ok(
            SourceMode::Build { .. },
        )),
{
}

/// What one operation of a plan came from, in a source.
#[derive(Clone, Copy, Debug, PartialEq, Eq, Structural)]
pub struct SourceSpan {
    pub start_byte: u64,
    pub end_byte: u64,
    pub start_line: u64,
    pub start_column: u64,
    pub end_line: u64,
    pub end_column: u64,
}

/// The line on what an operation came from.
pub open spec fn origin_line(operation: nat, span: SourceSpan) -> Seq<char> {
    "source-origin operation=P"@ + decimal(operation) + " bytes="@ + decimal(span.start_byte as nat)
        + ".."@ + decimal(span.end_byte as nat) + " start="@ + decimal(span.start_line as nat)
        + ":"@ + decimal(span.start_column as nat) + " end="@ + decimal(span.end_line as nat) + ":"@
        + decimal(span.end_column as nat) + "\n"@
}

/// The lines on what operations came from; the first that has no origin, where
/// there is one.
pub open spec fn origin_lines(operations: Seq<u32>, origins: Seq<SourceSpan>) -> Result<
    Seq<char>,
    u32,
>
    decreases operations.len(),
{
    if operations.len() == 0 {
        Ok(Seq::empty())
    } else {
        match origin_lines(operations.drop_last(), origins) {
            Err(missing) => Err(missing),
            Ok(before) => if operations.last() >= origins.len() {
                Err(operations.last())
            } else {
                Ok(
                    before + origin_line(
                        operations.last() as nat,
                        origins[operations.last() as int],
                    ),
                )
            },
        }
    }
}

/// What is said of where operations came from: the source, by its digest,
/// length and path, and each operation.
pub open spec fn origins_text(source: Seq<char>, path: Seq<char>, lines: Seq<char>) -> Seq<char> {
    "; SourceOrigin oexec.source-origin/v1\nsource-binding sha256="@ + digest_text(
        encode_utf8(source),
    ) + " bytes="@ + decimal(encode_utf8(source).len()) + " path="@ + json_quoted(path) + "\n"@
        + lines
        + "source-origin-note coordinates and source SHA-256 are descriptive sidecar provenance; they are not admission authority and do not alter OIR, plan, graph, or admission digests\n"@
}

proof fn lemma_origins_fail(operations: Seq<u32>, origins: Seq<SourceSpan>, i: int)
    requires
        0 <= i <= operations.len(),
        origin_lines(operations.take(i), origins) is Err,
    ensures
        origin_lines(operations, origins) == origin_lines(operations.take(i), origins),
    decreases operations.len(),
{
    if i == operations.len() {
        assert(operations.take(i) =~= operations);
    } else {
        assert(operations.drop_last().take(i) =~= operations.take(i));
        lemma_origins_fail(operations.drop_last(), origins, i);
    }
}

/// What is said of where operations came from, each of them once, in ascending
/// order. Gives the first that has no origin, where there is one.
pub fn schedule_why_origins(
    source: &str,
    path: &str,
    referenced: &[u32],
    origins: &[SourceSpan],
) -> (r: Result<String, u32>)
    ensures
        forall|list: Seq<u32>|
            #![trigger ascending(list)]
            ascending(list) && list.to_set() == referenced@.to_set() ==> match r {
                Ok(text) => origin_lines(list, origins@) matches Ok(lines) && text@ == origins_text(
                    source@,
                    path@,
                    lines,
                ),
                Err(missing) => origin_lines(list, origins@) == Err::<Seq<char>, u32>(missing),
            },
{
    let order = in_order(referenced);
    let ghost all = order@;
    let mut lines = String::new();
    let mut i: usize = 0;
    assert(all.take(0).len() == 0);
    assert(lines@ =~= Seq::empty());
    while i < order.len()
        invariant
            all == order@,
            ascending(all),
            all.to_set() == referenced@.to_set(),
            i <= order@.len(),
            origin_lines(all.take(i as int), origins@) == Ok::<Seq<char>, u32>(lines@),
        decreases order@.len() - i,
    {
        assert(all.take(i + 1).drop_last() =~= all.take(i as int));
        assert(all.take(i + 1).last() == all[i as int]);
        let operation: u32 = order[i];
        if operation as usize >= origins.len() {
            proof {
                lemma_origins_fail(all, origins@, i + 1);
                assert forall|list: Seq<u32>|
                    #![trigger ascending(list)]
                    ascending(list) && list.to_set() == referenced@.to_set() implies origin_lines(
                    list,
                    origins@,
                ) == Err::<Seq<char>, u32>(operation) by {
                    ascending_lists_are_unique(list, all);
                }
            }
            return Err(operation);
        }
        let span = origins[operation as usize];
        let mut line = "source-origin operation=P".to_owned();
        push_decimal(&mut line, operation as u64);
        line.append(" bytes=");
        push_decimal(&mut line, span.start_byte);
        line.append("..");
        push_decimal(&mut line, span.end_byte);
        line.append(" start=");
        push_decimal(&mut line, span.start_line);
        line.append(":");
        push_decimal(&mut line, span.start_column);
        line.append(" end=");
        push_decimal(&mut line, span.end_line);
        line.append(":");
        push_decimal(&mut line, span.end_column);
        line.append("\n");
        assert(line@ == origin_line(operation as nat, origins@[operation as int]));
        lines.append(line.as_str());
        i += 1;
    }
    assert(all.take(i as int) =~= all);
    let bytes = source.as_bytes();
    let mut out = "; SourceOrigin oexec.source-origin/v1\nsource-binding sha256=".to_owned();
    out.append(digest_of(bytes).as_str());
    out.append(" bytes=");
    push_decimal(&mut out, bytes.len() as u64);
    out.append(" path=");
    out.append(json_string(path).as_str());
    out.append("\n");
    out.append(lines.as_str());
    out.append(
        "source-origin-note coordinates and source SHA-256 are descriptive sidecar provenance; they are not admission authority and do not alter OIR, plan, graph, or admission digests\n",
    );
    proof {
        assert forall|list: Seq<u32>|
            #![trigger ascending(list)]
            ascending(list) && list.to_set() == referenced@.to_set() implies origin_lines(
            list,
            origins@,
        ) == Ok::<Seq<char>, u32>(lines@) by {
            ascending_lists_are_unique(list, all);
        }
    }
    Ok(out)
}

} // verus!
