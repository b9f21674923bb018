//! What an invocation of the linker asks for, and what that comes down to.

use vstd::prelude::*;

use crate::document::ParallelLinkMode;
use crate::files::ExtensionMap;
use crate::text::{
    chars_of, copied, find_char, join, joined, list_contains, members, position_from, shown_as,
    string_of, trim_start_part, trim_start_text, views,
};

verus! {

/// Whether placement on the mesh is wished for or insisted on.
#[derive(Clone, Copy, Debug, PartialEq, Eq, Structural)]
pub enum MeshMode {
    Prefer,
    Required,
}

/// When the mesh may fall back to local execution.
#[derive(Clone, Copy, Debug, PartialEq, Eq, Structural)]
pub enum MeshLocalFallbackMode {
    /// Only where execution cannot have begun elsewhere.
    PreSend,
    /// Also where the route may be run again without harm.
    Idempotent,
    Never,
}

/// What an invocation of the linker asks for.
#[derive(Debug)]
pub struct LinkOptions {
    pub inputs: Vec<String>,
    pub output: String,
    pub to_stdout: bool,
    pub lang: Vec<String>,
    pub verbose_skips: bool,
    pub no_validate: bool,
    pub run: bool,
    pub shim_dir: Option<String>,
    pub backend_grants: Vec<String>,
    pub shebang: bool,
    pub project: bool,
    pub literal: bool,
    pub list_routes: bool,
    pub route: Option<String>,
    pub routes_policy: Option<String>,
    pub project_trace_out: Option<String>,
    pub route_decls: Vec<String>,
    pub parallel: Option<ParallelLinkMode>,
    pub parallel_required: bool,
    pub explain_parallel: bool,
    pub mesh: Option<MeshMode>,
    pub mesh_retries: u32,
    pub mesh_local_fallback: MeshLocalFallbackMode,
    pub mesh_discovery_timeout_ms: u64,
    pub mesh_no_lan_discovery: bool,
    pub mesh_peer_root: Option<String>,
    pub mesh_trace_out: Option<String>,
    pub explain_mesh: bool,
}

impl LinkOptions {
    /// A plain invocation on the given inputs.
    pub fn new(inputs: Vec<String>) -> (options: LinkOptions)
        ensures
            options.inputs == inputs,
            options.output@ == "combined.O"@,
            !options.to_stdout && !options.verbose_skips && !options.no_validate && !options.run
                && !options.shebang && !options.project && !options.literal && !options.list_routes
                && !options.parallel_required && !options.explain_parallel
                && !options.mesh_no_lan_discovery && !options.explain_mesh,
            options.lang@.len() == 0 && options.backend_grants@.len() == 0
                && options.route_decls@.len() == 0,
            options.shim_dir is None && options.route is None && options.routes_policy is None
                && options.project_trace_out is None && options.parallel is None && options.mesh
                is None && options.mesh_peer_root is None && options.mesh_trace_out is None,
            options.mesh_retries == 2,
            options.mesh_local_fallback is PreSend,
            options.mesh_discovery_timeout_ms == 750,
    {
        LinkOptions {
            inputs,
            output: "combined.O".to_owned(),
            to_stdout: false,
            lang: Vec::new(),
            verbose_skips: false,
            no_validate: false,
            run: false,
            shim_dir: None,
            backend_grants: Vec::new(),
            shebang: false,
            project: false,
            literal: false,
            list_routes: false,
            route: None,
            routes_policy: None,
            project_trace_out: None,
            route_decls: Vec::new(),
            parallel: None,
            parallel_required: false,
            explain_parallel: false,
            mesh: None,
            mesh_retries: 2,
            mesh_local_fallback: MeshLocalFallbackMode::PreSend,
            mesh_discovery_timeout_ms: 750,
            mesh_no_lan_discovery: false,
            mesh_peer_root: None,
            mesh_trace_out: None,
            explain_mesh: false,
        }
    }

    /// Whether the invocation is about a project rather than about files.
    pub open spec fn project_intent(self) -> bool {
        self.project || self.list_routes || self.route is Some || self.routes_policy is Some
            || self.project_trace_out is Some || self.route_decls@.len() > 0 || self.mesh is Some
    }

    /// The options that say how files are linked one by one.
    pub open spec fn literal_options(self) -> Seq<Seq<char>> {
        named(self.lang@.len() > 0, "--lang"@) + named(self.verbose_skips, "--verbose-skips"@)
            + named(self.no_validate, "--no-validate"@) + named(self.shim_dir is Some, "--shim-dir"@)
            + named(self.backend_grants@.len() > 0, "--backend-grant"@) + named(
            self.parallel is Some,
            "--parallel"@,
        ) + named(self.parallel_required, "--parallel-required"@) + named(
            self.explain_parallel,
            "--explain-parallel"@,
        )
    }
}

/// The name of an option that was given.
pub open spec fn named(given: bool, name: Seq<char>) -> Seq<Seq<char>> {
    if given {
        seq![name]
    } else {
        Seq::empty()
    }
}

/// Whether the invocation is about a project rather than about files.
pub fn has_project_intent(options: &LinkOptions) -> (r: bool)
    ensures
        r == options.project_intent(),
{
    options.project || options.list_routes || options.route.is_some()
        || options.routes_policy.is_some() || options.project_trace_out.is_some()
        || options.route_decls.len() > 0 || options.mesh.is_some()
}

/// How a project route is placed on the mesh.
#[derive(Debug)]
pub struct MeshExecutionConfig {
    pub requirement: MeshMode,
    pub max_retries: u32,
    pub local_fallback: MeshLocalFallbackMode,
    pub discover_lan: bool,
    pub discovery_timeout_ms: u64,
    pub peer_root: Option<String>,
    pub trace_out: Option<String>,
    pub explain: bool,
}

/// How the invocation wants a route placed on the mesh, if it does.
pub fn mesh_execution_config(options: &LinkOptions) -> (r: Option<MeshExecutionConfig>)
    ensures
        r is Some <==> options.mesh is Some,
        r matches Some(config) ==> {
            &&& Some(config.requirement) == options.mesh
            &&& config.max_retries == options.mesh_retries
            &&& config.local_fallback == options.mesh_local_fallback
            &&& config.discover_lan == !options.mesh_no_lan_discovery
            &&& config.discovery_timeout_ms == options.mesh_discovery_timeout_ms
            &&& shown_as(config.peer_root) == shown_as(options.mesh_peer_root)
            &&& shown_as(config.trace_out) == shown_as(options.mesh_trace_out)
            &&& config.explain == options.explain_mesh
        },
{
    match options.mesh {
        None => None,
        Some(requirement) => Some(
            MeshExecutionConfig {
                requirement,
                max_retries: options.mesh_retries,
                local_fallback: options.mesh_local_fallback,
                discover_lan: !options.mesh_no_lan_discovery,
                discovery_timeout_ms: options.mesh_discovery_timeout_ms,
                peer_root: copied(&options.mesh_peer_root),
                trace_out: copied(&options.mesh_trace_out),
                explain: options.explain_mesh,
            },
        ),
    }
}

fn push_named(out: &mut Vec<String>, given: bool, name: &str)
    ensures
        views(final(out)@) == views(old(out)@) + named(given, name@),
{
    let ghost before = views(out@);
    if given {
        out.push(name.to_owned());
        assert(views(out@) =~= before + seq![name@]);
    } else {
        assert(views(out@) =~= before + Seq::<Seq<char>>::empty());
    }
}

/// The message on options that a project has no use for.
pub open spec fn incompatible_text(given: Seq<Seq<char>>) -> Seq<char> {
    joined(given, ", "@)
        + " configure literal per-file linking and cannot be used in project mode; remove --project or add --literal to select literal link-only mode"@
}

/// Refuses options that a project has no use for, rather than passing over
/// them. Gives the message.
pub fn ensure_project_compatible_flags(options: &LinkOptions) -> (r: Result<(), String>)
    ensures
        r is Ok <==> options.literal_options().len() == 0,
        r is Err ==> r->Err_0@ == incompatible_text(options.literal_options()),
{
    let mut given: Vec<String> = Vec::new();
    assert(views(given@) =~= Seq::empty());
    push_named(&mut given, options.lang.len() > 0, "--lang");
    push_named(&mut given, options.verbose_skips, "--verbose-skips");
    push_named(&mut given, options.no_validate, "--no-validate");
    push_named(&mut given, options.shim_dir.is_some(), "--shim-dir");
    push_named(&mut given, options.backend_grants.len() > 0, "--backend-grant");
    push_named(&mut given, options.parallel.is_some(), "--parallel");
    push_named(&mut given, options.parallel_required, "--parallel-required");
    push_named(&mut given, options.explain_parallel, "--explain-parallel");
    assert(views(given@) =~= options.literal_options());
    assert(views(given@).len() == given@.len());
    if given.len() == 0 {
        return Ok(());
    }
    let mut text = join(given.as_slice(), ", ");
    text.append(
        " configure literal per-file linking and cannot be used in project mode; remove --project or add --literal to select literal link-only mode",
    );
    Err(text)
}

/// What an invocation does.
#[derive(Clone, Copy, Debug, PartialEq, Eq, Structural)]
pub enum LinkMode {
    /// Prints the routes of a project.
    ListRoutes,
    /// Lifts a project, or runs one of its routes.
    Project,
    /// Links files one by one.
    Literal {
        /// The result is run.
        run: bool,
        /// The invocation did not ask for that, or for anything else.
        implied: bool,
    },
}

/// Why an invocation cannot be carried out.
#[derive(Debug)]
pub enum UsageError {
    LiteralProject,
    ListRoutesRun,
    RouteWithoutRun,
    BareStdout,
    GrantWithoutRun,
    /// Options that a project has no use for, with the message.
    Incompatible(String),
    DirectoriesWithoutLiteral,
}

/// Why an invocation cannot be carried out.
pub ghost enum UsageProblem {
    LiteralProject,
    ListRoutesRun,
    RouteWithoutRun,
    BareStdout,
    GrantWithoutRun,
    Incompatible,
    DirectoriesWithoutLiteral,
}

impl UsageError {
    pub open spec fn problem(self) -> UsageProblem {
        match self {
            UsageError::LiteralProject => UsageProblem::LiteralProject,
            UsageError::ListRoutesRun => UsageProblem::ListRoutesRun,
            UsageError::RouteWithoutRun => UsageProblem::RouteWithoutRun,
            UsageError::BareStdout => UsageProblem::BareStdout,
            UsageError::GrantWithoutRun => UsageProblem::GrantWithoutRun,
            UsageError::Incompatible(_) => UsageProblem::Incompatible,
            UsageError::DirectoriesWithoutLiteral => UsageProblem::DirectoriesWithoutLiteral,
        }
    }

    pub open spec fn text(self) -> Seq<char> {
        match self {
            UsageError::LiteralProject => "--literal/--execute-all cannot be combined with --project or --list-routes"@,
            UsageError::ListRoutesRun => "--list-routes cannot be combined with --run"@,
            UsageError::RouteWithoutRun => "--route and --routes-policy require --run"@,
            UsageError::BareStdout => "bare single-directory mode runs by default and cannot be combined with --stdout; add --literal for link-only output or --project for a safe project bundle"@,
            UsageError::GrantWithoutRun => "--backend-grant requires --run"@,
            UsageError::Incompatible(text) => text@,
            UsageError::DirectoriesWithoutLiteral => "multiple or mixed directory inputs require --literal; use --project with exactly one directory for safe project lifting"@,
        }
    }

    /// The message.
    pub fn to_text(&self) -> (out: String)
        ensures
            out@ == self.text(),
    {
        match self {
            UsageError::LiteralProject => "--literal/--execute-all cannot be combined with --project or --list-routes".to_owned(),
            UsageError::ListRoutesRun => "--list-routes cannot be combined with --run".to_owned(),
            UsageError::RouteWithoutRun => "--route and --routes-policy require --run".to_owned(),
            UsageError::BareStdout => "bare single-directory mode runs by default and cannot be combined with --stdout; add --literal for link-only output or --project for a safe project bundle".to_owned(),
            UsageError::GrantWithoutRun => "--backend-grant requires --run".to_owned(),
            UsageError::Incompatible(text) => text.clone(),
            UsageError::DirectoriesWithoutLiteral => "multiple or mixed directory inputs require --literal; use --project with exactly one directory for safe project lifting".to_owned(),
        }
    }
}

/// What is known of the inputs.
#[derive(Clone, Copy, Debug)]
pub struct InputKinds {
    /// There is one input, and it is a directory.
    pub one_directory: bool,
    /// Some input is a directory.
    pub some_directory: bool,
    /// There is one input, and it is a file that holds a lifted project.
    pub lifted_project: bool,
}

impl LinkOptions {
    /// Whether nothing but a directory was given, which links it and runs it.
    pub open spec fn bare(self, kinds: InputKinds) -> bool {
        !self.project_intent() && !self.literal && kinds.one_directory
    }

    /// What the invocation comes down to.
    pub open spec fn mode(self, kinds: InputKinds) -> Result<LinkMode, UsageProblem> {
        let bare = self.bare(kinds);
        if self.literal && (self.project || self.list_routes) {
            Err(UsageProblem::LiteralProject)
        } else if self.list_routes && self.run {
            Err(UsageProblem::ListRoutesRun)
        } else if (self.route is Some || self.routes_policy is Some) && !self.run {
            Err(UsageProblem::RouteWithoutRun)
        } else if bare && self.to_stdout {
            Err(UsageProblem::BareStdout)
        } else if self.backend_grants@.len() > 0 && !self.run && !bare {
            Err(UsageProblem::GrantWithoutRun)
        } else if self.list_routes || self.project_intent() || (kinds.lifted_project
            && !self.literal && !bare) {
            if self.literal_options().len() > 0 {
                Err(UsageProblem::Incompatible)
            } else if self.list_routes {
                Ok(LinkMode::ListRoutes)
            } else {
                Ok(LinkMode::Project)
            }
        } else if !self.literal && !bare && kinds.some_directory {
            Err(UsageProblem::DirectoriesWithoutLiteral)
        } else {
            Ok(LinkMode::Literal { run: self.run || bare, implied: bare })
        }
    }
}

/// What an invocation comes down to.
pub fn link_mode(options: &LinkOptions, kinds: InputKinds) -> (r: Result<LinkMode, UsageError>)
    ensures
        match r {
            Ok(mode) => options.mode(kinds) == Ok::<LinkMode, UsageProblem>(mode),
            Err(error) => options.mode(kinds) == Err::<LinkMode, UsageProblem>(error.problem())
                && (error is Incompatible ==> error.text() == incompatible_text(
                options.literal_options(),
            )),
        },
{
    if options.literal && (options.project || options.list_routes) {
        return Err(UsageError::LiteralProject);
    }
    if options.list_routes && options.run {
        return Err(UsageError::ListRoutesRun);
    }
    if (options.route.is_some() || options.routes_policy.is_some()) && !options.run {
        return Err(UsageError::RouteWithoutRun);
    }
    let intent = has_project_intent(options);
    let bare = !intent && !options.literal && kinds.one_directory;
    if bare && options.to_stdout {
        return Err(UsageError::BareStdout);
    }
    if options.backend_grants.len() > 0 && !options.run && !bare {
        return Err(UsageError::GrantWithoutRun);
    }
    if options.list_routes || intent || (kinds.lifted_project && !options.literal && !bare) {
        match ensure_project_compatible_flags(options) {
            Ok(_) => {},
            Err(text) => {
                return Err(UsageError::Incompatible(text));
            },
        }
        if options.list_routes {
            return Ok(LinkMode::ListRoutes);
        }
        return Ok(LinkMode::Project);
    }
    if !options.literal && !bare && kinds.some_directory {
        return Err(UsageError::DirectoriesWithoutLiteral);
    }
    Ok(LinkMode::Literal { run: options.run || bare, implied: bare })
}

/// Files are run only where that was asked for, or where nothing but a single
/// directory was given.
pub proof fn files_run_only_when_asked(options: LinkOptions, kinds: InputKinds)
    requires
        options.mode(kinds) matches Ok(mode) && mode is Literal && mode->run,
    ensures
        options.run || options.bare(kinds),
{
}

/// An option that says how files are linked one by one is never passed over by
/// a project.
pub proof fn projects_ignore_no_option(options: LinkOptions, kinds: InputKinds)
    requires
        options.mode(kinds) matches Ok(mode) && !(mode is Literal),
    ensures
        options.literal_options().len() == 0,
{
}

/// The lines of caution before files are linked.
pub open spec fn caution_lines(options: LinkOptions, kinds: InputKinds) -> Seq<Seq<char>> {
    if options.bare(kinds) {
        seq![
            "warning: bare single-directory mode defaults to --literal --run"@,
            "warning: every selected executable backend block will run; use --project for safe project lifting or --literal for literal link-only output"@,
        ]
    } else if options.literal && kinds.some_directory {
        seq![
            "warning: --literal/--execute-all directory mode wraps every selected UTF-8 file as executable backend code"@,
            match options.parallel {
                Some(mode) => "warning: "@ + (match mode {
                    ParallelLinkMode::Autonomous => "autonomous"@,
                    ParallelLinkMode::Verified => "verified"@,
                })
                    + " parallel groups preserve result order, but admitted members have unordered hidden effects"@,
                None => "warning: running the linked document executes all wrapped backend blocks in dependency order"@,
            },
        ]
    } else {
        Seq::empty()
    }
}

/// The lines of caution before files are linked.
pub fn link_cautions(options: &LinkOptions, kinds: InputKinds) -> (out: Vec<String>)
    ensures
        views(out@) == caution_lines(*options, kinds),
{
    let bare = !has_project_intent(options) && !options.literal && kinds.one_directory;
    let out: Vec<String> = if bare {
        vec![
            "warning: bare single-directory mode defaults to --literal --run".to_owned(),
            "warning: every selected executable backend block will run; use --project for safe project lifting or --literal for literal link-only output".to_owned(),
        ]
    } else if options.literal && kinds.some_directory {
        let second = match options.parallel {
            Some(mode) => {
                let mut text = "warning: ".to_owned();
                text.append(mode.label());
                text.append(
                    " parallel groups preserve result order, but admitted members have unordered hidden effects",
                );
                text
            },
            None => "warning: running the linked document executes all wrapped backend blocks in dependency order".to_owned(),
        };
        vec![
            "warning: --literal/--execute-all directory mode wraps every selected UTF-8 file as executable backend code".to_owned(),
            second,
        ]
    } else {
        Vec::new()
    };
    assert(views(out@) =~= caution_lines(*options, kinds));
    out
}

/// Why an extra mapping cannot be used.
#[derive(Clone, Copy, Debug, PartialEq, Eq, Structural)]
pub enum LangError {
    /// There is no `=` in it.
    NoPair,
    /// What stands behind the `=` is no language.
    NotRegistered,
}

/// The extension and the language of an extra mapping.
pub open spec fn mapping(spec: Seq<char>, backends: Set<Seq<char>>) -> Result<
    (Seq<char>, Seq<char>),
    LangError,
> {
    let k = position_from(spec, 0, '=');
    if k >= spec.len() {
        Err(LangError::NoPair)
    } else if !backends.contains(spec.skip(k + 1)) {
        Err(LangError::NotRegistered)
    } else {
        Ok((trim_start_text(spec.take(k), seq!['.']), spec.skip(k + 1)))
    }
}

/// Reads an extra mapping, such as `txt=markdown`.
pub fn parse_lang(spec: &str, backends: &[String]) -> (r: Result<(String, String), LangError>)
    ensures
        match r {
            Ok(pair) => mapping(spec@, members(backends@)) == Ok::<
                (Seq<char>, Seq<char>),
                LangError,
            >((pair.0@, pair.1@)),
            Err(error) => mapping(spec@, members(backends@)) == Err::<
                (Seq<char>, Seq<char>),
                LangError,
            >(error),
        },
{
    let chars = chars_of(spec);
    let n: usize = chars.len();
    let k: usize = find_char(chars.as_slice(), 0, '=');
    if k >= n {
        return Err(LangError::NoPair);
    }
    let tail = vstd::slice::slice_subrange(chars.as_slice(), k + 1, n);
    assert(tail@ =~= spec@.skip(k + 1));
    if !list_contains(backends, tail) {
        return Err(LangError::NotRegistered);
    }
    let head = vstd::slice::slice_subrange(chars.as_slice(), 0, k);
    assert(head@ =~= spec@.take(k as int));
    let dot: Vec<char> = vec!['.'];
    assert(dot@ =~= seq!['.']);
    let name = trim_start_part(head, dot.as_slice());
    let extension = string_of(name, 0, name.len());
    assert(extension@ =~= name@);
    let backend = string_of(tail, 0, tail.len());
    assert(backend@ =~= tail@);
    Ok((extension, backend))
}

/// Extra mappings behind those that are there, up to the first that cannot be
/// used: its position and what is wrong with it.
pub open spec fn mapped(
    pairs: Seq<(Seq<char>, Seq<char>)>,
    specs: Seq<Seq<char>>,
    backends: Set<Seq<char>>,
) -> Result<Seq<(Seq<char>, Seq<char>)>, (int, LangError)>
    decreases specs.len(),
{
    if specs.len() == 0 {
        Ok(pairs)
    } else {
        match mapped(pairs, specs.drop_last(), backends) {
            Err(e) => Err(e),
            Ok(before) => match mapping(specs.last(), backends) {
                Ok(pair) => Ok(before.push(pair)),
                Err(error) => Err((specs.len() - 1, error)),
            },
        }
    }
}

proof fn lemma_mapped_fails(
    pairs: Seq<(Seq<char>, Seq<char>)>,
    specs: Seq<Seq<char>>,
    backends: Set<Seq<char>>,
    i: int,
)
    requires
        0 <= i <= specs.len(),
        mapped(pairs, specs.take(i), backends) is Err,
    ensures
        mapped(pairs, specs, backends) == mapped(pairs, specs.take(i), backends),
    decreases specs.len(),
{
    if i == specs.len() {
        assert(specs.take(i) =~= specs);
    } else {
        assert(specs.drop_last().take(i) =~= specs.take(i));
        lemma_mapped_fails(pairs, specs.drop_last(), backends, i);
    }
}

/// Adds extra mappings to a map. Gives the first that cannot be used, by its
/// position, and what is wrong with it.
pub fn add_mappings(map: &mut ExtensionMap, specs: &[String], backends: &[String]) -> (r: Result<
    (),
    (usize, LangError),
>)
    ensures
        match r {
            Ok(_) => mapped(old(map).pairs(), views(specs@), members(backends@)) == Ok::<
                Seq<(Seq<char>, Seq<char>)>,
                (int, LangError),
            >(final(map).pairs()),
            Err(e) => mapped(old(map).pairs(), views(specs@), members(backends@)) == Err::<
                Seq<(Seq<char>, Seq<char>)>,
                (int, LangError),
            >((e.0 as int, e.1)) && mapped(
                old(map).pairs(),
                views(specs@).take(e.0 as int),
                members(backends@),
            ) == Ok::<Seq<(Seq<char>, Seq<char>)>, (int, LangError)>(final(map).pairs()),
        },
{
    let ghost all = views(specs@);
    let ghost set = members(backends@);
    let ghost first = map.pairs();
    let mut i: usize = 0;
    assert(all.take(0).len() == 0);
    while i < specs.len()
        invariant
            all == views(specs@),
            set == members(backends@),
            first == old(map).pairs(),
            i <= specs@.len(),
            mapped(first, all.take(i as int), set) == Ok::<
                Seq<(Seq<char>, Seq<char>)>,
                (int, LangError),
            >(map.pairs()),
        decreases specs@.len() - i,
    {
        assert(all.take(i + 1).drop_last() =~= all.take(i as int));
        assert(all.take(i + 1).last() == specs@[i as int]@);
        match parse_lang(specs[i].as_str(), backends) {
            Ok((extension, backend)) => {
                map.insert(extension.as_str(), backend.as_str());
            },
            Err(error) => {
                proof {
                    assert(all.take(i + 1).len() == i + 1);
                    assert(mapped(first, all.take(i + 1), set) == Err::<
                        Seq<(Seq<char>, Seq<char>)>,
                        (int, LangError),
                    >((i as int, error)));
                    lemma_mapped_fails(first, all, set, i + 1);
                }
                return Err((i, error));
            },
        }
        i += 1;
    }
    assert(all.take(i as int) =~= all);
    Ok(())
}

/// Where the shims are looked for: where the invocation says, else where the
/// environment says, the first of two places first.
pub fn resolve_shim_dir(
    explicit: &Option<String>,
    first: &Option<String>,
    second: &Option<String>,
) -> (out: String)
    ensures
        out@ == (match (shown_as(*explicit), shown_as(*first), shown_as(*second)) {
            (Some(text), _, _) => text,
            (None, Some(text), _) => text,
            (None, None, Some(text)) => text,
            (None, None, None) => "backends"@,
        }),
{
    match explicit {
        Some(text) => text.clone(),
        None => match first {
            Some(text) => text.clone(),
            None => match second {
                Some(text) => text.clone(),
                None => "backends".to_owned(),
            },
        },
    }
}

/// Why a project is not run.
#[derive(Clone, Copy, Debug, PartialEq, Eq, Structural)]
pub enum RunRefusal {
    /// No route was chosen, and none is the default.
    NoDefaultRoute,
    /// A trace was asked for that only the graph executor writes.
    TraceWithoutGraph,
}

impl LinkOptions {
    /// The files that are no part of a project, though they may lie in its
    /// directory: what the invocation itself writes.
    pub open spec fn exclusions(self) -> Seq<Seq<char>> {
        named(!self.to_stdout && !self.run && !self.list_routes, self.output@) + (
        match self.project_trace_out {
            Some(path) => seq![path@],
            None => Seq::empty(),
        }) + (match self.mesh_trace_out {
            Some(path) => seq![path@],
            None => Seq::empty(),
        })
    }

    /// The files that are no part of a project, though they may lie in its
    /// directory.
    pub fn project_exclusions(&self) -> (out: Vec<String>)
        ensures
            views(out@) == self.exclusions(),
    {
        let mut out: Vec<String> = Vec::new();
        assert(views(out@) =~= Seq::empty());
        push_named(
            &mut out,
            !self.to_stdout && !self.run && !self.list_routes,
            self.output.as_str(),
        );
        match &self.project_trace_out {
            Some(path) => push_named(&mut out, true, path.as_str()),
            None => {},
        }
        match &self.mesh_trace_out {
            Some(path) => push_named(&mut out, true, path.as_str()),
            None => {},
        }
        assert(views(out@) =~= self.exclusions());
        out
    }

    /// Whether a project may be run.
    pub fn run_refusal(&self, has_default: bool, graph_executor: bool) -> (r: Option<RunRefusal>)
        ensures
            r == (if self.route is None && self.routes_policy is None && !has_default {
                Some(RunRefusal::NoDefaultRoute)
            } else if self.mesh is None && self.project_trace_out is Some && !graph_executor {
                Some(RunRefusal::TraceWithoutGraph)
            } else {
                None
            }),
    {
        if self.route.is_none() && self.routes_policy.is_none() && !has_default {
            Some(RunRefusal::NoDefaultRoute)
        } else if self.mesh.is_none() && self.project_trace_out.is_some() && !graph_executor {
            Some(RunRefusal::TraceWithoutGraph)
        } else {
            None
        }
    }
}

} // verus!
