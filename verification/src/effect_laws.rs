//! What holds of the effects of plan nodes, in terms of the nodes themselves.

use vstd::prelude::*;

use crate::effects::{
    attr_text, block_effects, deferred, defers_block, entries_of, items_named, plan_node_effects,
    resource_named, resources_named, trusted_renderer, DeclaredPurity, EffectConfidence, Effects,
    Fallibility, Reading,
};
use crate::imports::after_prefix;
use crate::ir::{BackendInterface, ExecutionMode, PlanNodeId, PlanNodeKind};
use crate::resource::{Actor, Resource};
use crate::text::{is_space, lemma_position_is, position_from, separators, split_by, trim};
use crate::text_laws::{blank, lemma_part_stands, lemma_starts, trimming_takes_the_blanks};

verus! {

/// Whether an attribute has an entry, alone or between commas, with blanks
/// around it or not.
pub open spec fn has_entry(attr: Option<String>, entry: Seq<char>) -> bool {
    attr is Some && exists|a: Seq<char>, x: Seq<char>, y: Seq<char>, b: Seq<char>|
        {
            &&& attr->Some_0@ == #[trigger] (a + (x + entry + y) + b)
            &&& a.len() > 0 ==> a.last() == ','
            &&& b.len() > 0 ==> b[0] == ','
            &&& blank(x)
            &&& blank(y)
        }
}

/// An entry without commas that an attribute has is one that is read.
proof fn lemma_entry_is_read(attr: Option<String>, entry: Seq<char>) -> (i: int)
    requires
        has_entry(attr, entry),
        entry.len() > 0,
        !is_space(entry[0]),
        !is_space(entry.last()),
        !entry.contains(','),
    ensures
        0 <= i < entries_of(attr->Some_0@).len(),
        trim(entries_of(attr->Some_0@)[i]) == entry,
{
    let text = attr->Some_0@;
    let (a, x, y, b) = choose|a: Seq<char>, x: Seq<char>, y: Seq<char>, b: Seq<char>|
        {
            &&& text == #[trigger] (a + (x + entry + y) + b)
            &&& a.len() > 0 ==> a.last() == ','
            &&& b.len() > 0 ==> b[0] == ','
            &&& blank(x)
            &&& blank(y)
        };
    let p = separators(seq![','], false);
    let part = x + entry + y;
    assert(seq![','][0] == ',');
    assert(seq![','].contains(','));
    assert(p(','));
    assert forall|j: int| 0 <= j < part.len() implies !p(#[trigger] part[j]) by {
        if part[j] == ',' {
            if j < x.len() {
                assert(x[j] == ',');
            } else if j < x.len() + entry.len() {
                assert(entry[j - x.len()] == ',');
            } else {
                assert(y[j - x.len() - entry.len()] == ',');
            }
        }
    }
    lemma_part_stands(a, part, b, p);
    let all = entries_of(text);
    let i = choose|i: int| 0 <= i < all.len() && all[i] == part;
    trimming_takes_the_blanks(x, entry, y);
    i
}

proof fn lemma_read_all_upto(entries: Seq<Seq<char>>, k: int)
    requires
        0 <= k <= entries.len(),
        Reading::read_all(entries) is Ok,
    ensures
        Reading::read_all(entries.take(k)) is Ok,
    decreases entries.len(),
{
    if k == entries.len() {
        assert(entries.take(k) =~= entries);
    } else {
        lemma_read_all_upto(entries.drop_last(), k);
        assert(entries.drop_last().take(k) =~= entries.take(k));
    }
}

/// What was read under a key stays as it is.
proof fn lemma_reading_keeps(entries: Seq<Seq<char>>, k: int)
    requires
        0 <= k <= entries.len(),
        Reading::read_all(entries) is Ok,
    ensures
        ({
            let early = Reading::read_all(entries.take(k))->Ok_0;
            let late = Reading::read_all(entries)->Ok_0;
            &&& Reading::read_all(entries.take(k)) is Ok
            &&& early.effects ==> late.effects && late.declaration.purity
                == early.declaration.purity
            &&& early.reads ==> late.reads && late.declaration.reads == early.declaration.reads
            &&& early.writes ==> late.writes && late.declaration.writes
                == early.declaration.writes
            &&& early.serial ==> late.serial && late.declaration.serial_host
                == early.declaration.serial_host
        }),
    decreases entries.len(),
{
    if k == entries.len() {
        assert(entries.take(k) =~= entries);
    } else {
        let init = entries.drop_last();
        lemma_reading_keeps(init, k);
        assert(init.take(k) =~= entries.take(k));
    }
}

/// What one entry says is what the declaration says in the end.
proof fn lemma_entry_counts(entries: Seq<Seq<char>>, i: int)
    requires
        0 <= i < entries.len(),
        Reading::read_all(entries) is Ok,
    ensures
        ({
            let entry = trim(entries[i]);
            let declaration = Reading::read_all(entries)->Ok_0.declaration;
            &&& entry == "effects=pure"@ ==> declaration.purity == Some(DeclaredPurity::Pure)
            &&& entry == "effects=unknown"@ ==> declaration.purity == Some(DeclaredPurity::Unknown)
            &&& entry == "serial=host"@ ==> declaration.serial_host
            &&& forall|list: Seq<char>|
                entry == #[trigger] ("reads="@ + list) ==> resources_named(list)
                    == Ok::<Set<Resource>, Seq<char>>(declaration.reads)
            &&& forall|list: Seq<char>|
                entry == #[trigger] ("writes="@ + list) ==> resources_named(list)
                    == Ok::<Set<Resource>, Seq<char>>(declaration.writes)
        }),
{
    let entry = trim(entries[i]);
    lemma_read_all_upto(entries, i + 1);
    lemma_reading_keeps(entries, i + 1);
    let upto = entries.take(i + 1);
    assert(upto.drop_last() =~= entries.take(i));
    assert(upto.last() == entries[i]);
    let before = Reading::read_all(entries.take(i))->Ok_0;
    reveal_strlit("effects=");
    reveal_strlit("reads=");
    reveal_strlit("writes=");
    reveal_strlit("serial=");
    reveal_strlit("pure");
    reveal_strlit("unknown");
    reveal_strlit("host");
    reveal_strlit("effects=pure");
    reveal_strlit("effects=unknown");
    reveal_strlit("serial=host");
    assert("effects=pure"@ =~= "effects="@ + "pure"@);
    assert("effects=unknown"@ =~= "effects="@ + "unknown"@);
    assert("serial=host"@ =~= "serial="@ + "host"@);
    lemma_starts("effects="@, "pure"@);
    lemma_starts("effects="@, "unknown"@);
    lemma_starts("serial="@, "host"@);
    assert("unknown"@[0] == 'u' && "pure"@[0] == 'p');
    if entry == "serial=host"@ {
        assert(entry[0] == 's');
        assert(!crate::text::starts_with(entry, "effects="@)) by {
            assert(entry.take(8)[0] == 's' && "effects="@[0] == 'e');
        }
        assert(!crate::text::starts_with(entry, "reads="@)) by {
            assert(entry.take(6)[0] == 's' && "reads="@[0] == 'r');
        }
        assert(!crate::text::starts_with(entry, "writes="@)) by {
            assert(entry.take(7)[0] == 's' && "writes="@[0] == 'w');
        }
    }
    assert forall|list: Seq<char>| entry == #[trigger] ("reads="@ + list) implies resources_named(
        list,
    ) == Ok::<Set<Resource>, Seq<char>>(Reading::read_all(entries)->Ok_0.declaration.reads) by {
        lemma_starts("reads="@, list);
        assert(entry[0] == 'r');
        if crate::text::starts_with(entry, "effects="@) {
            assert(entry.take(8)[0] == 'r' && "effects="@[0] == 'e');
        }
    }
    assert forall|list: Seq<char>| entry == #[trigger] ("writes="@ + list) implies resources_named(
        list,
    ) == Ok::<Set<Resource>, Seq<char>>(Reading::read_all(entries)->Ok_0.declaration.writes) by {
        lemma_starts("writes="@, list);
        assert(entry[0] == 'w');
        if crate::text::starts_with(entry, "effects="@) {
            assert(entry.take(8)[0] == 'w' && "effects="@[0] == 'e');
        }
        if crate::text::starts_with(entry, "reads="@) {
            assert(entry.take(6)[0] == 'w' && "reads="@[0] == 'r');
        }
    }
}

/// Whether a backend is none of the renderers that are known to be pure: HTML,
/// Markdown, plain text and LaTeX, rendered in place.
pub open spec fn hosted(backend: BackendInterface) -> bool {
    ||| !backend.pure
    ||| backend.execution != ExecutionMode::InlineValue
    ||| (backend.canonical@ != "html"@ && backend.canonical@ != "markdown"@
        && backend.canonical@ != "text"@ && backend.canonical@ != "latex"@)
}

/// A block of any other backend, or one that is put off, may do anything: it is
/// unknown, may fail, is neither verified nor deterministic, and reads and writes
/// both the host and the evaluator.
pub proof fn hosted_blocks_may_do_anything(id: PlanNodeId, kind: PlanNodeKind)
    requires
        kind is Exec,
        hosted(kind->Exec_backend) || has_entry(kind->Exec_attr, "lazy"@) || has_entry(
            kind->Exec_attr,
            "defer"@,
        ),
        plan_node_effects(id, kind) is Ok,
    ensures
        ({
            let found = plan_node_effects(id, kind)->Ok_0;
            &&& found.unknown
            &&& found.fallibility == Fallibility::MayFail
            &&& !found.deterministic
            &&& found.confidence != EffectConfidence::Verified
            &&& found.reads.contains(Resource::HostWorld)
            &&& found.reads.contains(Resource::EvaluatorState)
            &&& found.writes.contains(Resource::HostWorld)
            &&& found.writes.contains(Resource::EvaluatorState)
            &&& !found.verified_pure_infallible()
        }),
{
    lemma_put_off(kind);
}

proof fn lemma_put_off(kind: PlanNodeKind)
    requires
        kind is Exec,
    ensures
        has_entry(kind->Exec_attr, "lazy"@) || has_entry(kind->Exec_attr, "defer"@) ==> deferred(
            attr_text(kind->Exec_attr),
        ),
        hosted(kind->Exec_backend) ==> !trusted_renderer(kind->Exec_backend),
{
    let attr = kind->Exec_attr;
    reveal_strlit("lazy");
    reveal_strlit("defer");
    if has_entry(attr, "lazy"@) {
        let i = lemma_entry_is_read(attr, "lazy"@);
        assert(defers_block(entries_of(attr->Some_0@)[i]));
    }
    if has_entry(attr, "defer"@) {
        let i = lemma_entry_is_read(attr, "defer"@);
        assert(defers_block(entries_of(attr->Some_0@)[i]));
    }
}

/// No declaration makes such a block pure: saying so is an error.
pub proof fn hosted_blocks_are_never_declared_pure(id: PlanNodeId, kind: PlanNodeKind)
    requires
        kind is Exec,
        hosted(kind->Exec_backend) || has_entry(kind->Exec_attr, "lazy"@) || has_entry(
            kind->Exec_attr,
            "defer"@,
        ),
        has_entry(kind->Exec_attr, "effects=pure"@),
    ensures
        plan_node_effects(id, kind) is Err,
{
    let attr = kind->Exec_attr;
    lemma_put_off(kind);
    reveal_strlit("effects=pure");
    let i = lemma_entry_is_read(attr, "effects=pure"@);
    if Reading::read_all(entries_of(attr->Some_0@)) is Ok {
        lemma_entry_counts(entries_of(attr->Some_0@), i);
    }
}

/// A block that declares itself unknown is unknown, may fail and touches the host,
/// whatever renders it; one that asks to be kept in the host's order touches the
/// host as a whole.
pub proof fn declared_blocks_say_what_they_do(id: PlanNodeId, kind: PlanNodeKind)
    requires
        kind is Exec,
        plan_node_effects(id, kind) is Ok,
    ensures
        ({
            let found = plan_node_effects(id, kind)->Ok_0;
            &&& has_entry(kind->Exec_attr, "effects=unknown"@) ==> {
                &&& found.unknown
                &&& !found.deterministic
                &&& found.fallibility == Fallibility::MayFail
                &&& found.reads.contains(Resource::HostWorld)
                &&& found.writes.contains(Resource::HostWorld)
            }
            &&& has_entry(kind->Exec_attr, "serial=host"@) ==> {
                &&& found.reads.contains(Resource::HostWorld)
                &&& found.writes.contains(Resource::HostWorld)
                &&& !found.verified_pure_infallible()
            }
        }),
{
    let attr = kind->Exec_attr;
    reveal_strlit("effects=unknown");
    reveal_strlit("serial=host");
    if has_entry(attr, "effects=unknown"@) {
        let i = lemma_entry_is_read(attr, "effects=unknown"@);
        lemma_entry_counts(entries_of(attr->Some_0@), i);
    }
    if has_entry(attr, "serial=host"@) {
        let i = lemma_entry_is_read(attr, "serial=host"@);
        lemma_entry_counts(entries_of(attr->Some_0@), i);
    }
}

/// Whether a list of a declaration holds an item, alone or between separators.
pub open spec fn lists(list: Seq<char>, item: Seq<char>) -> bool {
    exists|a: Seq<char>, x: Seq<char>, y: Seq<char>, b: Seq<char>|
        {
            &&& list == #[trigger] (a + (x + item + y) + b)
            &&& a.len() > 0 ==> a.last() == '+' || a.last() == ';'
            &&& b.len() > 0 ==> b[0] == '+' || b[0] == ';'
            &&& blank(x)
            &&& blank(y)
        }
}

proof fn lemma_items_hold(list: Seq<char>, items: Seq<Seq<char>>, i: int)
    requires
        0 <= i < items.len(),
        items_named(list, items) is Ok,
    ensures
        resource_named(trim(items[i])) is Ok,
        items_named(list, items)->Ok_0.contains(resource_named(trim(items[i]))->Ok_0),
    decreases items.len(),
{
    let init = items.drop_last();
    if i < init.len() {
        lemma_items_hold(list, init, i);
        assert(init[i] == items[i]);
    }
}

/// Every item of a list that is accepted names a resource, and that resource is
/// among those that the list names.
pub proof fn listed_resources_are_named(list: Seq<char>, item: Seq<char>)
    requires
        lists(list, item),
        item.len() > 0,
        !is_space(item[0]),
        !is_space(item.last()),
        !item.contains('+'),
        !item.contains(';'),
        resources_named(list) is Ok,
    ensures
        resource_named(item) is Ok,
        resources_named(list)->Ok_0.contains(resource_named(item)->Ok_0),
{
    let (a, x, y, b) = choose|a: Seq<char>, x: Seq<char>, y: Seq<char>, b: Seq<char>|
        {
            &&& list == #[trigger] (a + (x + item + y) + b)
            &&& a.len() > 0 ==> a.last() == '+' || a.last() == ';'
            &&& b.len() > 0 ==> b[0] == '+' || b[0] == ';'
            &&& blank(x)
            &&& blank(y)
        };
    let p = separators(seq!['+', ';'], false);
    let part = x + item + y;
    let set = seq!['+', ';'];
    assert(set[0] == '+' && set[1] == ';');
    assert(set.contains('+') && set.contains(';'));
    assert forall|j: int| 0 <= j < part.len() implies !p(#[trigger] part[j]) by {
        if p(part[j]) {
            assert(part[j] == '+' || part[j] == ';');
            if j < x.len() {
                assert(x[j] == part[j]);
            } else if j < x.len() + item.len() {
                assert(item[j - x.len()] == part[j]);
            } else {
                assert(y[j - x.len() - item.len()] == part[j]);
            }
        }
    }
    lemma_part_stands(a, part, b, p);
    let all = split_by(list, p);
    let i = choose|i: int| 0 <= i < all.len() && all[i] == part;
    trimming_takes_the_blanks(x, item, y);
    lemma_items_hold(list, all, i);
}

/// What a block declares that it reads, it reads, and what it declares that it
/// writes, it writes.
pub proof fn declared_resources_are_touched(
    id: PlanNodeId,
    kind: PlanNodeKind,
    list: Seq<char>,
    item: Seq<char>,
)
    requires
        kind is Exec,
        plan_node_effects(id, kind) is Ok,
        list.len() > 0,
        !list.contains(','),
        !is_space(list.last()),
        lists(list, item),
        item.len() > 0,
        !is_space(item[0]),
        !is_space(item.last()),
        !item.contains('+'),
        !item.contains(';'),
    ensures
        has_entry(kind->Exec_attr, "reads="@ + list) ==> resource_named(item) is Ok
            && plan_node_effects(id, kind)->Ok_0.reads.contains(resource_named(item)->Ok_0),
        has_entry(kind->Exec_attr, "writes="@ + list) ==> resource_named(item) is Ok
            && plan_node_effects(id, kind)->Ok_0.writes.contains(resource_named(item)->Ok_0),
{
    let attr = kind->Exec_attr;
    reveal_strlit("reads=");
    reveal_strlit("writes=");
    if has_entry(attr, "reads="@ + list) {
        let entry = "reads="@ + list;
        lemma_no_comma("reads="@, list);
        let i = lemma_entry_is_read(attr, entry);
        lemma_entry_counts(entries_of(attr->Some_0@), i);
        listed_resources_are_named(list, item);
    }
    if has_entry(attr, "writes="@ + list) {
        let entry = "writes="@ + list;
        lemma_no_comma("writes="@, list);
        let i = lemma_entry_is_read(attr, entry);
        lemma_entry_counts(entries_of(attr->Some_0@), i);
        listed_resources_are_named(list, item);
    }
}

proof fn lemma_no_comma(a: Seq<char>, b: Seq<char>)
    requires
        forall|i: int| 0 <= i < a.len() ==> a[i] != ',',
        !b.contains(','),
    ensures
        !(a + b).contains(','),
{
    if (a + b).contains(',') {
        let j = choose|j: int| 0 <= j < (a + b).len() && (a + b)[j] == ',';
        if j >= a.len() {
            assert(b[j - a.len()] == ',');
        }
    }
}

proof fn lemma_kind(kind: Seq<char>, value: Seq<char>)
    requires
        value.len() > 0,
        forall|j: int| 0 <= j < kind.len() ==> kind[j] != ':',
    ensures
        position_from(kind + seq![':'] + value, 0, ':') == kind.len(),
        (kind + seq![':'] + value).take(kind.len() as int) == kind,
        (kind + seq![':'] + value).skip(kind.len() as int + 1) == value,
{
    let s = kind + seq![':'] + value;
    assert(s[kind.len() as int] == ':');
    lemma_position_is(s, 0, ':', kind.len() as int);
    assert(s.take(kind.len() as int) =~= kind);
    assert(s.skip(kind.len() as int + 1) =~= value);
}

/// Each way of writing a resource down names that resource: a path of the
/// project, a path of the host, a network endpoint or a service, by what stands
/// behind the colon.
pub proof fn resources_are_named_by_kind(value: Seq<char>)
    requires
        value.len() > 0,
        value != "*"@,
    ensures
        value[0] != '/' ==> resource_named("project:"@ + value) == Ok::<Resource, Seq<char>>(
            Resource::ProjectPath(value),
        ),
        value[0] == '/' ==> resource_named("project:"@ + value) is Err,
        resource_named("host:"@ + value) == Ok::<Resource, Seq<char>>(Resource::HostPath(value)),
        resource_named("network:"@ + value) == Ok::<Resource, Seq<char>>(Resource::Network(value)),
        resource_named("service:"@ + value) == Ok::<Resource, Seq<char>>(Resource::Service(value)),
{
    reveal_strlit("*");
    reveal_strlit("stdio");
    reveal_strlit("network:*");
    reveal_strlit("network");
    reveal_strlit("host:*");
    reveal_strlit("hostworld");
    reveal_strlit("evaluator");
    reveal_strlit("project");
    reveal_strlit("project:");
    reveal_strlit("host");
    reveal_strlit("host:");
    reveal_strlit("env");
    reveal_strlit("scope");
    reveal_strlit("network:");
    reveal_strlit("service");
    reveal_strlit("service:");
    assert("project:"@ + value =~= "project"@ + seq![':'] + value);
    assert("host:"@ + value =~= "host"@ + seq![':'] + value);
    assert("network:"@ + value =~= "network"@ + seq![':'] + value);
    assert("service:"@ + value =~= "service"@ + seq![':'] + value);
    lemma_kind("project"@, value);
    lemma_kind("host"@, value);
    lemma_kind("network"@, value);
    lemma_kind("service"@, value);
    assert("stdio"@[0] == 's' && "stdio"@[1] == 't');
    assert("evaluator"@[0] == 'e');
    assert("hostworld"@[4] == 'w' && "network"@.len() == 7);
    assert("env"@.len() == 3 && "scope"@.len() == 5);
    assert("project"@[0] == 'p' && "host"@[0] == 'h' && "service"@[0] == 's' && "network"@[0] == 'n');
    let p = "project:"@ + value;
    let h = "host:"@ + value;
    let n = "network:"@ + value;
    let s = "service:"@ + value;
    assert(p[0] == 'p');
    assert(h[0] == 'h' && h[4] == ':');
    assert(n[0] == 'n' && n[7] == ':');
    assert(s[0] == 's' && s[1] == 'e');
    assert("host:*"@[0] == 'h' && "network:*"@[0] == 'n');
    if h == "host:*"@ {
        assert(value =~= h.skip(5));
        assert(value[0] == '*');
        assert(value =~= "*"@);
    }
    if n == "network:*"@ {
        assert(value =~= n.skip(8));
        assert(value[0] == '*');
        assert(value =~= "*"@);
    }
}

/// The resources that are named by a word of their own.
pub proof fn resources_with_names_of_their_own()
    ensures
        resource_named("stdio"@) == Ok::<Resource, Seq<char>>(Resource::Stdio),
        resource_named("network"@) == Ok::<Resource, Seq<char>>(Resource::NetworkUnknown),
        resource_named("network:*"@) == Ok::<Resource, Seq<char>>(Resource::NetworkUnknown),
        resource_named("hostworld"@) == Ok::<Resource, Seq<char>>(Resource::HostWorld),
        resource_named("host:*"@) == Ok::<Resource, Seq<char>>(Resource::HostWorld),
        resource_named("evaluator"@) == Ok::<Resource, Seq<char>>(Resource::EvaluatorState),
{
    reveal_strlit("stdio");
    reveal_strlit("network:*");
    reveal_strlit("network");
    reveal_strlit("host:*");
    reveal_strlit("hostworld");
    reveal_strlit("evaluator");
    assert("stdio"@[0] == 's' && "network:*"@[0] == 'n' && "network"@[0] == 'n');
    assert("host:*"@[0] == 'h' && "hostworld"@[0] == 'h' && "evaluator"@[0] == 'e');
}

/// A block of a renderer that is known to be pure, in no environment and with no
/// attribute, conflicts with nothing; text and groups do neither.
pub proof fn plain_renderers_conflict_with_nothing(
    id: PlanNodeId,
    kind: PlanNodeKind,
    other: Effects,
)
    requires
        kind is Text || kind is Group || (kind is Exec && !hosted(kind->Exec_backend)
            && kind->Exec_attr is None && kind->Exec_env_id == u32::MAX),
    ensures
        plan_node_effects(id, kind) is Ok,
        !plan_node_effects(id, kind)->Ok_0.conflicts(other),
        !other.conflicts(plan_node_effects(id, kind)->Ok_0),
        plan_node_effects(id, kind)->Ok_0.fallibility == Fallibility::Infallible,
{
    let found = plan_node_effects(id, kind)->Ok_0;
    if kind is Exec {
        let base = block_effects(
            kind->Exec_env_id,
            attr_text(kind->Exec_attr),
            kind->Exec_backend,
        );
        assert(base == Effects::pure());
        crate::effects::empty_declarations_change_nothing(base);
    }
    assert(found == Effects::pure());
    crate::effects::pure_work_conflicts_with_nothing(found, other);
    crate::effects::conflicts_are_symmetric(found, other);
}

/// Whether a node may do anything at all.
pub open spec fn opaque_node(kind: PlanNodeKind) -> bool {
    ||| kind is Call
    ||| kind is Request
    ||| kind is Schedule
    ||| kind is Exec && hosted(kind->Exec_backend)
}

/// Calls, requests, schedules and hosted blocks conflict with each other, and with
/// all that touches the host.
pub proof fn opaque_nodes_keep_their_order(
    a: PlanNodeId,
    first: PlanNodeKind,
    b: PlanNodeId,
    second: PlanNodeKind,
    other: Effects,
    x: Resource,
)
    requires
        opaque_node(first),
        opaque_node(second),
        plan_node_effects(a, first) is Ok,
        plan_node_effects(b, second) is Ok,
    ensures
        plan_node_effects(a, first)->Ok_0.conflicts(plan_node_effects(b, second)->Ok_0),
        (other.reads.contains(x) || other.writes.contains(x)) && (x is HostWorld || x
            is ProjectPath || x is HostPath || x is EnvVar || x is Stdio || x is Network || x
            is NetworkUnknown || x is Service || x is EvaluatorState) ==> plan_node_effects(
            a,
            first,
        )->Ok_0.conflicts(other),
        plan_node_effects(a, first)->Ok_0.unknown,
        plan_node_effects(a, first)->Ok_0.fallibility == Fallibility::MayFail,
{
    if first is Exec {
        hosted_blocks_may_do_anything(a, first);
    }
    if second is Exec {
        hosted_blocks_may_do_anything(b, second);
    }
    let m = plan_node_effects(a, first)->Ok_0;
    let n = plan_node_effects(b, second)->Ok_0;
    assert(m.writes.contains(Resource::EvaluatorState) && n.writes.contains(
        Resource::EvaluatorState,
    ));
    assert(m.writes.contains(Resource::HostWorld) && m.reads.contains(Resource::HostWorld));
    if other.reads.contains(x) || other.writes.contains(x) {
        if x is EvaluatorState {
            assert(m.writes.contains(x) && m.reads.contains(x));
        }
    }
}

/// Loading a name conflicts with storing it and with nothing else of loads and
/// stores; storing a name conflicts with storing it again.
pub proof fn names_keep_their_order(
    a: PlanNodeId,
    first: PlanNodeKind,
    b: PlanNodeId,
    second: PlanNodeKind,
)
    requires
        first is Load || first is Store,
        second is Load || second is Store,
    ensures
        plan_node_effects(a, first) is Ok,
        plan_node_effects(b, second) is Ok,
        plan_node_effects(a, first)->Ok_0.conflicts(plan_node_effects(b, second)->Ok_0) <==> {
            let x = match first {
                PlanNodeKind::Load { name } => name@,
                PlanNodeKind::Store { name } => name@,
                _ => Seq::empty(),
            };
            let y = match second {
                PlanNodeKind::Load { name } => name@,
                PlanNodeKind::Store { name } => name@,
                _ => Seq::empty(),
            };
            x == y && (first is Store || second is Store)
        },
        plan_node_effects(a, first)->Ok_0.fallibility == if first is Load {
            Fallibility::MayFail
        } else {
            Fallibility::Infallible
        },
        plan_node_effects(a, first)->Ok_0.deterministic,
        !plan_node_effects(a, first)->Ok_0.unknown,
{
    let m = plan_node_effects(a, first)->Ok_0;
    let n = plan_node_effects(b, second)->Ok_0;
    let x = match first {
        PlanNodeKind::Load { name } => name@,
        PlanNodeKind::Store { name } => name@,
        _ => Seq::empty(),
    };
    let y = match second {
        PlanNodeKind::Load { name } => name@,
        PlanNodeKind::Store { name } => name@,
        _ => Seq::empty(),
    };
    if first is Load {
        assert(m.reads.contains(Resource::ScopeBinding(x)));
    } else {
        assert(m.writes.contains(Resource::ScopeBinding(x)));
    }
    if second is Load {
        assert(n.reads.contains(Resource::ScopeBinding(y)));
    } else {
        assert(n.writes.contains(Resource::ScopeBinding(y)));
    }
}

/// Two operations conflict where one of them writes what the other touches.
pub proof fn writers_conflict_with_all_who_touch_it(a: Effects, b: Effects, x: Resource)
    requires
        a.writes.contains(x),
        b.reads.contains(x) || b.writes.contains(x),
    ensures
        a.conflicts(b),
        b.conflicts(a),
{
    crate::effects::conflicts_are_symmetric(a, b);
}

/// Two operations on different actors, of which neither writes what the other
/// touches, do not conflict, as long as not both touch the network and none touches
/// the host as a whole.
pub proof fn separate_work_does_not_conflict(a: Effects, b: Effects)
    requires
        a.actor is None || b.actor is None || a.actor != b.actor,
        forall|x: Resource|
            #[trigger] a.writes.contains(x) ==> !b.reads.contains(x) && !b.writes.contains(x),
        forall|x: Resource|
            #[trigger] b.writes.contains(x) ==> !a.reads.contains(x) && !a.writes.contains(x),
        forall|x: Resource|
            #[trigger] a.reads.contains(x) ==> !(x is HostWorld) && !(x is Network) && !(x
                is NetworkUnknown),
        forall|x: Resource|
            #[trigger] a.writes.contains(x) ==> !(x is HostWorld) && !(x is Network) && !(x
                is NetworkUnknown),
        !b.reads.contains(Resource::HostWorld),
        !b.writes.contains(Resource::HostWorld),
    ensures
        !a.conflicts(b),
        !b.conflicts(a),
{
    crate::effects::conflicts_are_symmetric(a, b);
}

/// Readers of one thing do not conflict, however many they are.
pub proof fn readers_do_not_conflict(a: Effects, b: Effects)
    requires
        a.actor is None,
        a.writes == Set::<Resource>::empty(),
        b.writes == Set::<Resource>::empty(),
        !a.reads.contains(Resource::HostWorld),
        !b.reads.contains(Resource::HostWorld),
    ensures
        !a.conflicts(b),
{
}

/// A block in a numbered environment belongs to the actor of its language and
/// number, whatever else it does, and one without belongs to none.
pub proof fn numbered_blocks_belong_to_their_actor(id: PlanNodeId, kind: PlanNodeKind)
    requires
        kind is Exec,
        plan_node_effects(id, kind) is Ok,
    ensures
        ({
            let found = plan_node_effects(id, kind)->Ok_0;
            let actor = Actor {
                language: kind->Exec_backend.canonical@,
                environment: kind->Exec_env_id,
            };
            if kind->Exec_env_id == u32::MAX {
                found.actor is None
            } else {
                &&& found.actor == Some(actor)
                &&& found.reads.contains(Resource::ActorState(actor))
                &&& found.writes.contains(Resource::ActorState(actor))
                &&& !found.verified_pure_infallible()
            }
        }),
{
}

/// What an operation touches is what it reads and what it writes, and the whole of the
/// network where it touches an endpoint of it; nothing else.
pub proof fn everything_touched_is_accessed(e: Effects, x: Resource)
    ensures
        e.reads.contains(x) ==> e.accessed().contains(x),
        e.writes.contains(x) ==> e.accessed().contains(x),
        x is Network && (e.reads.contains(x) || e.writes.contains(x)) ==> e.accessed().contains(
            Resource::NetworkUnknown,
        ),
        e.accessed().contains(x) ==> e.reads.contains(x) || e.writes.contains(x) || x
            == Resource::NetworkUnknown,
        e.accessed().contains(Resource::NetworkUnknown) && !e.reads.contains(
            Resource::NetworkUnknown,
        ) && !e.writes.contains(Resource::NetworkUnknown) ==> exists|y: Resource|
            y is Network && (#[trigger] e.reads.contains(y) || e.writes.contains(y)),
{
    let all = e.reads.union(e.writes);
    if x is Network && (e.reads.contains(x) || e.writes.contains(x)) {
        assert(all.contains(x));
    }
    if e.accessed().contains(Resource::NetworkUnknown) && !all.contains(Resource::NetworkUnknown) {
        let y = choose|y: Resource| #[trigger] all.contains(y) && y is Network;
        assert(e.reads.contains(y) || e.writes.contains(y));
    }
}

} // verus!
