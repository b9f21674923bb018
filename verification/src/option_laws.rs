//! What holds of invocations: which are accepted, and what they come down to.

use vstd::prelude::*;

use crate::compile_options::{
    origin_lines, origins_text, output_of, project_output_of, CompileError, CompileOptions,
    CompileTarget, ProjectMode, ScheduleExplanationFormat, SourceMode, SourceSpan,
};
use crate::link_options::{
    caution_lines, mapped, mapping, InputKinds, LangError, LinkMode, LinkOptions, UsageProblem,
};
use crate::text::decimal;
use crate::text_laws::{lemma_occurs_within, occurs};

verus! {

/// What is to be shown is accepted exactly where all of it fits together: a view
/// needs the target that shows plans; workers and a format need a schedule, and
/// there is at least one worker; and views that stand alone are alone.
pub proof fn fitting_inspections_are_accepted(o: CompileOptions)
    ensures
        o.inspection_fault() is None <==> {
            &&& o.explain_schedule ==> o.target == CompileTarget::Ir && o.why is None
            &&& o.workers is Some ==> o.explain_schedule && o.workers->Some_0 > 0
            &&& o.format is Some ==> o.explain_schedule
            &&& o.format == Some(ScheduleExplanationFormat::Json) ==> !o.grounding && o.world_id
                is None && o.world_epoch is None
            &&& o.why is Some ==> o.target == CompileTarget::Ir && !o.grounding && o.world_id
                is None && o.world_epoch is None
            &&& o.execution_intent_json ==> {
                &&& o.target == CompileTarget::Ir
                &&& !o.explain_schedule
                &&& o.why is None
                &&& o.workers is None
                &&& !o.grounding
                &&& o.world_id is None
                &&& o.world_epoch is None
            }
        },
{
}

/// A world is accepted exactly where a plan is grounded in it, and it is named by
/// both its identity and an epoch above zero; grounding needs the target that shows
/// plans.
pub proof fn fitting_worlds_are_accepted(o: CompileOptions)
    ensures
        o.world_fault() is None <==> {
            &&& o.grounding ==> o.target == CompileTarget::Ir
            &&& o.world_id is Some ==> o.grounding
            &&& o.world_id is Some <==> o.world_epoch is Some
            &&& o.world_epoch is Some ==> o.world_epoch->Some_0 > 0
        },
{
}

/// What is said to be wrong with an invocation is wrong with it.
pub proof fn faults_are_there(o: CompileOptions)
    ensures
        o.inspection_fault() matches Some(e) ==> match e {
            CompileError::ScheduleTarget => o.explain_schedule && o.target != CompileTarget::Ir,
            CompileError::NoWorkers => o.workers == Some(0u64),
            CompileError::WorkersAlone => o.workers is Some && !o.explain_schedule,
            CompileError::FormatAlone => o.format is Some && !o.explain_schedule,
            CompileError::JsonNotAlone => o.format == Some(ScheduleExplanationFormat::Json) && (
            o.grounding || o.world_id is Some || o.world_epoch is Some),
            CompileError::WhyTarget => o.why is Some && o.target != CompileTarget::Ir,
            CompileError::WhyAndSchedule => o.why is Some && o.explain_schedule,
            CompileError::IntentTarget => o.execution_intent_json && o.target != CompileTarget::Ir,
            CompileError::IntentNotAlone => o.execution_intent_json && (o.explain_schedule || o.why
                is Some || o.workers is Some || o.grounding || o.world_id is Some || o.world_epoch
                is Some),
            CompileError::WhyAndWorld => o.why is Some && (o.grounding || o.world_id is Some
                || o.world_epoch is Some),
            _ => false,
        },
        o.world_fault() matches Some(e) ==> match e {
            CompileError::GroundingTarget => o.grounding && o.target != CompileTarget::Ir,
            CompileError::WorldWithoutGrounding => !o.grounding && (o.world_id is Some
                || o.world_epoch is Some),
            CompileError::NoEpoch => o.world_id is Some && o.world_epoch is None,
            CompileError::NoWorld => o.world_epoch is Some && o.world_id is None,
            CompileError::ZeroEpoch => o.world_epoch == Some(0u64),
            _ => false,
        },
{
}

/// What is done with a source is what was asked for: it is built for the target
/// that is named, or run, or shown in the one view that was chosen. Options that
/// are for projects alone are refused.
pub proof fn sources_are_treated_as_asked(o: CompileOptions)
    ensures
        o.for_source() is Ok <==> o.route is None && o.routes_policy is None && o.project_trace_out
            is None,
        o.for_source() is Err ==> o.for_source()->Err_0 == CompileError::RouteWithoutProject,
        o.for_source() matches Ok(mode) ==> {
            &&& mode == (SourceMode::Build { wasm: true }) <==> o.target == CompileTarget::Wasm
            &&& mode == (SourceMode::Build { wasm: false }) <==> o.target == CompileTarget::Binary
            &&& mode == SourceMode::Run <==> o.target == CompileTarget::Script
            &&& mode == SourceMode::ShowGraph <==> o.target == CompileTarget::Dot
            &&& o.inspection_fault() is None ==> {
                &&& mode == SourceMode::ShowIntent <==> o.execution_intent_json
                &&& mode == SourceMode::ShowWhy <==> o.why is Some
                &&& mode == SourceMode::ShowSchedule <==> o.explain_schedule
                &&& o.world_fault() is None && !o.explain_schedule ==> (mode
                    == SourceMode::ShowGrounding <==> o.grounding)
            }
        },
{
}

/// What is done with a project is what was asked for, and what a project has no use
/// for is refused: views of sources alone, a trace where nothing is run or where the
/// executor writes none, a policy that names no route, and routes where they are
/// chosen later.
pub proof fn projects_are_treated_as_asked(o: CompileOptions, graph_executor: bool)
    ensures
        o.for_project(graph_executor) is Ok <==> {
            &&& !o.explain_schedule
            &&& o.why is None
            &&& !o.execution_intent_json
            &&& o.project_trace_out is Some ==> o.target == CompileTarget::Script && graph_executor
            &&& o.routes_policy is Some ==> o.route is Some
            &&& o.route is Some ==> o.target != CompileTarget::Binary && o.target
                != CompileTarget::Wasm
            &&& o.target == CompileTarget::Ir ==> !o.grounding
        },
        o.for_project(graph_executor) matches Ok(mode) ==> {
            &&& mode == (ProjectMode::Build { wasm: true }) <==> o.target == CompileTarget::Wasm
            &&& mode == (ProjectMode::Build { wasm: false }) <==> o.target == CompileTarget::Binary
            &&& mode == ProjectMode::Run <==> o.target == CompileTarget::Script
            &&& mode == ProjectMode::ShowPlan <==> o.target == CompileTarget::Ir
            &&& mode == ProjectMode::ShowGraph <==> o.target == CompileTarget::Dot
        },
        o.for_project(graph_executor) matches Err(e) ==> match e {
            CompileError::ProjectSchedule => o.explain_schedule || o.why is Some,
            CompileError::ProjectIntent => o.execution_intent_json,
            CompileError::TraceTarget => o.project_trace_out is Some && o.target
                != CompileTarget::Script,
            CompileError::PolicyWithoutRoute => o.routes_policy is Some && o.route is None,
            CompileError::RouteAtCompileTime => o.route is Some && (o.target
                == CompileTarget::Binary || o.target == CompileTarget::Wasm),
            CompileError::TraceWithoutGraph => o.project_trace_out is Some && !graph_executor,
            CompileError::ProjectGrounding => o.grounding && o.target == CompileTarget::Ir,
            _ => false,
        },
{
}

/// The output of a build is put where it was asked for, whatever the input is; where
/// nothing was asked for, a source goes by its own name, and a project by the name
/// that its directory gives it.
pub proof fn outputs_go_where_asked(
    path: Seq<char>,
    name: Seq<char>,
    p: Seq<char>,
    m: Seq<char>,
    e: Seq<char>,
    input: Seq<char>,
)
    requires
        p.len() > 0 ==> p.last() == '/',
        crate::link_laws::dotless(m),
        e.len() == 0 || crate::link_laws::ending(e),
    ensures
        output_of(Some(path), input, false) == Ok::<Seq<char>, CompileError>(path),
        output_of(None, p + m + e, false) == Ok::<Seq<char>, CompileError>(m),
        project_output_of(Some(path), Some(name), input, false) == path,
        project_output_of(Some(path), None, input, false) == path,
        project_output_of(None, Some(name), input, false) == name,
        project_output_of(None, None, p + m + e, false) == m,
{
    crate::link_laws::files_are_named_by_their_stem(p, m, e);
    assert((m + e).len() > 0);
}

/// Every operation that is asked about gets a line that says where it came from, by
/// bytes and by lines and columns; where one has no origin, that one is named.
pub proof fn origins_are_shown(operations: Seq<u32>, origins: Seq<SourceSpan>, k: int)
    requires
        0 <= k < operations.len(),
    ensures
        origin_lines(operations, origins) matches Ok(text) ==> operations[k] < origins.len() && {
            let span = origins[operations[k] as int];
            occurs(
                "source-origin operation=P"@ + decimal(operations[k] as nat) + " bytes="@ + decimal(
                    span.start_byte as nat,
                ) + ".."@ + decimal(span.end_byte as nat) + " start="@ + decimal(
                    span.start_line as nat,
                ) + ":"@ + decimal(span.start_column as nat) + " end="@ + decimal(
                    span.end_line as nat,
                ) + ":"@ + decimal(span.end_column as nat) + "\n"@,
                text,
            )
        },
        origin_lines(operations, origins) matches Err(missing) ==> missing >= origins.len()
            && operations.contains(missing),
    decreases operations.len(),
{
    let init = operations.drop_last();
    let last = operations.last();
    if init.len() > 0 {
        let j = if k < init.len() {
            k
        } else {
            0
        };
        origins_are_shown(init, origins, j);
        assert(init[j] == operations[j]);
    }
    assert(operations[operations.len() - 1] == last);
    match origin_lines(init, origins) {
        Err(missing) => {
            let at = choose|at: int| 0 <= at < init.len() && init[at] == missing;
            assert(init.len() > 0);
            assert(operations[at] == missing);
        },
        Ok(before) => {
            if last < origins.len() {
                let line = crate::compile_options::origin_line(last as nat, origins[last as int]);
                let text = before + line;
                if k == operations.len() - 1 {
                    assert(text =~= before + line + Seq::<char>::empty());
                } else {
                    assert(text =~= Seq::<char>::empty() + before + line);
                    let span = origins[operations[k] as int];
                    lemma_occurs_within(
                        crate::compile_options::origin_line(operations[k] as nat, span),
                        before,
                        text,
                    );
                }
            }
        },
    }
}

/// The options that say how files are linked one by one are listed exactly where
/// they were given.
pub proof fn literal_options_are_those_given(o: LinkOptions)
    ensures
        o.literal_options().contains("--lang"@) <==> o.lang@.len() > 0,
        o.literal_options().contains("--verbose-skips"@) <==> o.verbose_skips,
        o.literal_options().contains("--no-validate"@) <==> o.no_validate,
        o.literal_options().contains("--shim-dir"@) <==> o.shim_dir is Some,
        o.literal_options().contains("--backend-grant"@) <==> o.backend_grants@.len() > 0,
        o.literal_options().contains("--parallel"@) <==> o.parallel is Some,
        o.literal_options().contains("--parallel-required"@) <==> o.parallel_required,
        o.literal_options().contains("--explain-parallel"@) <==> o.explain_parallel,
        o.literal_options().len() == 0 <==> !(o.lang@.len() > 0 || o.verbose_skips || o.no_validate
            || o.shim_dir is Some || o.backend_grants@.len() > 0 || o.parallel is Some
            || o.parallel_required || o.explain_parallel),
{
    lemma_option_names();
    let a = crate::link_options::named(o.lang@.len() > 0, "--lang"@);
    let b = a + crate::link_options::named(o.verbose_skips, "--verbose-skips"@);
    let c = b + crate::link_options::named(o.no_validate, "--no-validate"@);
    let d = c + crate::link_options::named(o.shim_dir is Some, "--shim-dir"@);
    let e = d + crate::link_options::named(o.backend_grants@.len() > 0, "--backend-grant"@);
    let f = e + crate::link_options::named(o.parallel is Some, "--parallel"@);
    let g = f + crate::link_options::named(o.parallel_required, "--parallel-required"@);
    let none = Seq::<Seq<char>>::empty();
    assert(a =~= none + a);
    lemma_named(none, o.lang@.len() > 0, "--lang"@);
    lemma_named(a, o.verbose_skips, "--verbose-skips"@);
    lemma_named(b, o.no_validate, "--no-validate"@);
    lemma_named(c, o.shim_dir is Some, "--shim-dir"@);
    lemma_named(d, o.backend_grants@.len() > 0, "--backend-grant"@);
    lemma_named(e, o.parallel is Some, "--parallel"@);
    lemma_named(f, o.parallel_required, "--parallel-required"@);
    lemma_named(g, o.explain_parallel, "--explain-parallel"@);
}

proof fn lemma_named(before: Seq<Seq<char>>, given: bool, name: Seq<char>)
    ensures
        forall|x: Seq<char>| #[trigger]
            (before + crate::link_options::named(given, name)).contains(x) <==> before.contains(x)
                || (given && x == name),
        (before + crate::link_options::named(given, name)).len() == 0 <==> before.len() == 0
            && !given,
{
    let all = before + crate::link_options::named(given, name);
    assert forall|x: Seq<char>| #[trigger] all.contains(x) <==> before.contains(x) || (given && x
        == name) by {
        if all.contains(x) {
            let k = choose|k: int| 0 <= k < all.len() && all[k] == x;
            if k < before.len() {
                assert(before[k] == x);
            }
        }
        if before.contains(x) {
            let k = choose|k: int| 0 <= k < before.len() && before[k] == x;
            assert(all[k] == x);
        }
        if given && x == name {
            assert(all[before.len() as int] == x);
        }
    }
}

proof fn lemma_option_names()
    ensures
        "--lang"@.len() == 6,
        "--verbose-skips"@.len() == 15,
        "--no-validate"@.len() == 13,
        "--shim-dir"@.len() == 10,
        "--backend-grant"@.len() == 15,
        "--parallel"@.len() == 10,
        "--parallel-required"@.len() == 19,
        "--explain-parallel"@.len() == 18,
        "--verbose-skips"@ != "--backend-grant"@,
        "--shim-dir"@ != "--parallel"@,
{
    reveal_strlit("--lang");
    reveal_strlit("--verbose-skips");
    reveal_strlit("--no-validate");
    reveal_strlit("--shim-dir");
    reveal_strlit("--backend-grant");
    reveal_strlit("--parallel");
    reveal_strlit("--parallel-required");
    reveal_strlit("--explain-parallel");
    assert("--verbose-skips"@[2] != "--backend-grant"@[2]);
    assert("--shim-dir"@[2] != "--parallel"@[2]);
}

/// Whether an option that only a project has a use for was given.
pub open spec fn about_project(o: LinkOptions) -> bool {
    o.project || o.list_routes || o.route is Some || o.routes_policy is Some || o.project_trace_out
        is Some || o.route_decls@.len() > 0 || o.mesh is Some
}

/// Whether an option that only linking files one by one has a use for was given.
pub open spec fn about_files(o: LinkOptions) -> bool {
    o.lang@.len() > 0 || o.verbose_skips || o.no_validate || o.shim_dir is Some
        || o.backend_grants@.len() > 0 || o.parallel is Some || o.parallel_required
        || o.explain_parallel
}

/// An invocation is accepted exactly where all of it fits together, and comes down
/// to what was asked for. Files are run only where that was asked for or where
/// nothing but one directory is named.
pub proof fn links_are_as_asked(o: LinkOptions, kinds: InputKinds)
    ensures
        ({
            let bare = kinds.one_directory && !o.literal && !about_project(o);
            let project = about_project(o) || (kinds.lifted_project && !o.literal && !bare);
            &&& o.mode(kinds) is Ok <==> {
                &&& o.literal ==> !o.project && !o.list_routes
                &&& o.list_routes ==> !o.run
                &&& o.route is Some || o.routes_policy is Some ==> o.run
                &&& bare ==> !o.to_stdout
                &&& o.backend_grants@.len() > 0 ==> o.run || bare
                &&& project ==> !about_files(o)
                &&& kinds.some_directory && !project ==> o.literal || bare
            }
            &&& o.mode(kinds) matches Ok(mode) ==> {
                &&& mode == LinkMode::ListRoutes <==> o.list_routes
                &&& mode == LinkMode::Project <==> project && !o.list_routes
                &&& mode matches LinkMode::Literal { run, implied } ==> {
                    &&& run <==> o.run || bare
                    &&& implied <==> bare
                }
            }
            &&& o.mode(kinds) matches Err(problem) ==> match problem {
                UsageProblem::LiteralProject => o.literal && (o.project || o.list_routes),
                UsageProblem::ListRoutesRun => o.list_routes && o.run,
                UsageProblem::RouteWithoutRun => !o.run && (o.route is Some || o.routes_policy
                    is Some),
                UsageProblem::BareStdout => bare && o.to_stdout,
                UsageProblem::GrantWithoutRun => o.backend_grants@.len() > 0 && !o.run && !bare,
                UsageProblem::Incompatible => project && about_files(o),
                UsageProblem::DirectoriesWithoutLiteral => kinds.some_directory && !o.literal
                    && !project && !bare,
            }
        }),
{
    literal_options_are_those_given(o);
}

/// Whoever links a directory is warned, and told before anything runs that it will.
pub proof fn directories_come_with_a_warning(o: LinkOptions, kinds: InputKinds)
    ensures
        o.mode(kinds) matches Ok(LinkMode::Literal { implied, .. }) ==> {
            &&& implied ==> caution_lines(o, kinds).contains(
                "warning: every selected executable backend block will run; use --project for safe project lifting or --literal for literal link-only output"@,
            )
            &&& kinds.some_directory ==> caution_lines(o, kinds).len() > 0
        },
{
    let lines = caution_lines(o, kinds);
    if o.bare(kinds) {
        assert(lines[1]
            == "warning: every selected executable backend block will run; use --project for safe project lifting or --literal for literal link-only output"@);
    }
}

/// An extra mapping names an extension, with or without its dot, and a language that
/// there is.
pub proof fn mappings_are_read_as_written(
    name: Seq<char>,
    backend: Seq<char>,
    backends: Set<Seq<char>>,
)
    requires
        forall|i: int| 0 <= i < name.len() ==> #[trigger] name[i] != '=',
        name.len() > 0 ==> name[0] != '.',
    ensures
        backends.contains(backend) ==> mapping(name + "="@ + backend, backends) == Ok::<
            (Seq<char>, Seq<char>),
            LangError,
        >((name, backend)),
        backends.contains(backend) ==> mapping("."@ + name + "="@ + backend, backends) == Ok::<
            (Seq<char>, Seq<char>),
            LangError,
        >((name, backend)),
        !backends.contains(backend) ==> mapping(name + "="@ + backend, backends) == Err::<
            (Seq<char>, Seq<char>),
            LangError,
        >(LangError::NotRegistered),
        mapping(name, backends) == Err::<(Seq<char>, Seq<char>), LangError>(LangError::NoPair),
{
    reveal_strlit("=");
    reveal_strlit(".");
    let dot = seq!['.'];
    let plain = name + "="@ + backend;
    let dotted = "."@ + name + "="@ + backend;
    let n = name.len() as int;
    assert(plain[n] == '=');
    assert forall|i: int| 0 <= i < n implies #[trigger] plain[i] != '=' by {
        assert(plain[i] == name[i]);
    }
    crate::text::lemma_position_is(plain, 0, '=', n);
    assert(plain.take(n) =~= name);
    assert(plain.skip(n + 1) =~= backend);
    assert(dotted[n + 1] == '=');
    assert forall|i: int| 0 <= i < n + 1 implies #[trigger] dotted[i] != '=' by {
        if i > 0 {
            assert(dotted[i] == name[i - 1]);
        }
    }
    crate::text::lemma_position_is(dotted, 0, '=', n + 1);
    assert(dotted.take(n + 1) =~= dot + name);
    assert(dotted.skip(n + 2) =~= backend);
    crate::text::lemma_position_from(name, 0, '=');
    lemma_undotted(name);
}

proof fn lemma_undotted(name: Seq<char>)
    requires
        name.len() > 0 ==> name[0] != '.',
    ensures
        crate::text::trim_start_text(name, seq!['.']) == name,
        crate::text::trim_start_text(seq!['.'] + name, seq!['.']) == name,
{
    let dot = seq!['.'];
    assert(name.len() > 0 ==> name.take(1)[0] == name[0]);
    assert(crate::text::trim_start_text(name, dot) == name);
    assert((dot + name).take(1) =~= dot);
    assert((dot + name).skip(1) =~= name);
}

/// A later mapping of an extension stands over those before it, and those that were
/// there stay for all others.
pub proof fn mappings_add_up(
    pairs: Seq<(Seq<char>, Seq<char>)>,
    specs: Seq<Seq<char>>,
    last: Seq<char>,
    backends: Set<Seq<char>>,
    key: Seq<char>,
)
    requires
        mapped(pairs, specs, backends) is Ok,
        mapping(last, backends) is Ok,
    ensures
        mapped(pairs, specs.push(last), backends) is Ok,
        ({
            let before = mapped(pairs, specs, backends)->Ok_0;
            let after = mapped(pairs, specs.push(last), backends)->Ok_0;
            let pair = mapping(last, backends)->Ok_0;
            crate::files::lookup(after, key) == if key == pair.0 {
                Some(pair.1)
            } else {
                crate::files::lookup(before, key)
            }
        }),
        mapped(pairs, Seq::empty(), backends) == Ok::<
            Seq<(Seq<char>, Seq<char>)>,
            (int, LangError),
        >(pairs),
{
    assert(specs.push(last).drop_last() =~= specs);
    let before = mapped(pairs, specs, backends)->Ok_0;
    let pair = mapping(last, backends)->Ok_0;
    assert(before.push(pair).drop_last() =~= before);
}

/// What an invocation writes itself is no part of the project that it reads.
pub proof fn what_is_written_is_not_read(o: LinkOptions)
    ensures
        !o.to_stdout && !o.run && !o.list_routes ==> o.exclusions().contains(o.output@),
        o.project_trace_out matches Some(path) ==> o.exclusions().contains(path@),
        o.mesh_trace_out matches Some(path) ==> o.exclusions().contains(path@),
        o.to_stdout && o.project_trace_out is None && o.mesh_trace_out is None
            ==> o.exclusions().len() == 0,
{
    let list = o.exclusions();
    let first = crate::link_options::named(
        !o.to_stdout && !o.run && !o.list_routes,
        o.output@,
    );
    if first.len() > 0 {
        assert(list[0] == o.output@);
    }
    if o.project_trace_out is Some {
        assert(list[first.len() as int] == o.project_trace_out->Some_0@);
    }
    if o.mesh_trace_out is Some {
        assert(list[list.len() - 1] == o.mesh_trace_out->Some_0@);
    }
}

/// A module for a virtual machine is put where a program would be, with an extension
/// of its own in place of the one that was asked for or that the input has.
pub proof fn modules_get_their_own_extension(
    p: Seq<char>,
    m: Seq<char>,
    e: Seq<char>,
    name: Seq<char>,
    input: Seq<char>,
)
    requires
        p.len() > 0 ==> p.last() == '/',
        crate::link_laws::dotless(m),
        crate::link_laws::dotless(name),
        e.len() == 0 || crate::link_laws::ending(e),
    ensures
        output_of(Some(p + m + e), input, true) == Ok::<Seq<char>, CompileError>(
            p + m + "."@ + "wasm"@,
        ),
        output_of(None, p + m + e, true) == Ok::<Seq<char>, CompileError>(m + "."@ + "wasm"@),
        project_output_of(Some(p + m + e), Some(name), input, true) == p + m + "."@ + "wasm"@,
        project_output_of(None, Some(name), input, true) == name + "."@ + "wasm"@,
        project_output_of(None, None, p + m + e, true) == m + "."@ + "wasm"@,
{
    let none = Seq::<char>::empty();
    let wasm = "wasm"@;
    crate::link_laws::files_are_named_by_their_stem(p, m, e);
    crate::file_laws::extensions_are_replaced(p, m, e, wasm);
    crate::link_laws::files_are_named_by_their_stem(none, m, none);
    crate::file_laws::extensions_are_replaced(none, m, none, wasm);
    crate::link_laws::files_are_named_by_their_stem(none, name, none);
    crate::file_laws::extensions_are_replaced(none, name, none, wasm);
    assert(none + m + none =~= m);
    assert(none + name + none =~= name);
    assert(none + m + "."@ + wasm =~= m + "."@ + wasm);
    assert(none + name + "."@ + wasm =~= name + "."@ + wasm);
    assert((m + e).len() > 0);
}

/// What is said of where operations came from names the source by its path, its
/// digest and its length, and then holds all that is said of the operations.
pub proof fn origins_name_their_source(source: Seq<char>, path: Seq<char>, lines: Seq<char>)
    ensures
        occurs(lines, origins_text(source, path, lines)),
        occurs(
            "source-binding sha256="@ + crate::bundle::digest_text(
                vstd::utf8::encode_utf8(source),
            ) + " bytes="@ + decimal(vstd::utf8::encode_utf8(source).len()) + " path="@
                + crate::outside::json_quoted(path) + "\n"@,
            origins_text(source, path, lines),
        ),
{
    reveal_strlit("; SourceOrigin oexec.source-origin/v1\nsource-binding sha256=");
    reveal_strlit("source-binding sha256=");
    let head = "; SourceOrigin oexec.source-origin/v1\nsource-binding sha256="@;
    let own = "source-binding sha256="@;
    let start = head.take(head.len() - own.len());
    assert(head =~= start + own) by {
        assert(head.skip(head.len() - own.len()) =~= own);
    }
    lemma_origin(
        start,
        own,
        crate::bundle::digest_text(vstd::utf8::encode_utf8(source)),
        " bytes="@,
        decimal(vstd::utf8::encode_utf8(source).len()),
        " path="@,
        crate::outside::json_quoted(path),
        "\n"@,
        lines,
        "source-origin-note coordinates and source SHA-256 are descriptive sidecar provenance; they are not admission authority and do not alter OIR, plan, graph, or admission digests\n"@,
    );
}

proof fn lemma_origin(
    s: Seq<char>,
    a: Seq<char>,
    b: Seq<char>,
    c: Seq<char>,
    d: Seq<char>,
    e: Seq<char>,
    f: Seq<char>,
    g: Seq<char>,
    lines: Seq<char>,
    foot: Seq<char>,
)
    ensures
        occurs(lines, (s + a) + b + c + d + e + f + g + lines + foot),
        occurs(a + b + c + d + e + f + g, (s + a) + b + c + d + e + f + g + lines + foot),
{
    let own = a + b + c + d + e + f + g;
    let text = (s + a) + b + c + d + e + f + g + lines + foot;
    assert(text =~= s + own + (lines + foot));
    assert(text =~= ((s + a) + b + c + d + e + f + g) + lines + foot);
}

} // verus!
